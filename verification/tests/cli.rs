use vigil::cli::{help_text, parse_args, plan, set_timeout, version_string, Options, Plan};
use vigil::duration::Duration;

fn args(words: &[&str]) -> Vec<String> {
    words.iter().map(|w| w.to_string()).collect()
}

const VERSION: &str = "0.1.0";

#[test]
fn test_parse_timeout_equals_form() {
    let args = vec!["vigil".into(), "--timeout=2h".into()];
    let options = parse_args(&args).unwrap();
    assert_eq!(options.timeout.unwrap().as_secs(), 7200);
}

#[test]
fn test_parse_short_timeout_equals_form() {
    let args = vec!["vigil".into(), "-t=30m".into()];
    let options = parse_args(&args).unwrap();
    assert_eq!(options.timeout.unwrap().as_secs(), 1800);
}

#[test]
fn test_parse_rejects_unknown_start_subcommand() {
    let args = vec!["vigil".into(), "start".into()];
    assert!(parse_args(&args).is_err());
}

#[test]
fn test_version_string() {
    assert!(version_string(VERSION).starts_with("vigil "));
    assert!(version_string(VERSION).contains(VERSION));
}

#[test]
fn test_parse_rejects_missing_timeout_value() {
    let args = vec!["vigil".into(), "--timeout".into(), "--quiet".into()];
    assert!(parse_args(&args).is_err());
}

#[test]
fn test_parse_does_not_hide_unknown_argument_behind_help() {
    let args = vec!["vigil".into(), "--unknown".into(), "--help".into()];
    assert!(parse_args(&args).is_err());
}

// ---------------------------------------------------------------- flags

#[test]
fn no_arguments_run_without_timeout() {
    let options = parse_args(&args(&["vigil"])).unwrap();
    assert_eq!(options, Options::new());
    assert_eq!(plan(&options), Plan::Run(None));
}

#[test]
fn help_flags_show_help() {
    for word in ["-h", "--help", "help"] {
        let options = parse_args(&args(&["vigil", word])).unwrap();
        assert!(options.show_help);
        assert_eq!(plan(&options), Plan::ShowHelp);
    }
}

#[test]
fn version_flags_show_version() {
    for word in ["-V", "--version"] {
        let options = parse_args(&args(&["vigil", word])).unwrap();
        assert!(options.show_version);
        assert_eq!(plan(&options), Plan::ShowVersion);
    }
}

#[test]
fn help_wins_over_version_in_either_order() {
    let a = parse_args(&args(&["vigil", "-V", "-h"])).unwrap();
    let b = parse_args(&args(&["vigil", "--help", "--version"])).unwrap();
    assert_eq!(plan(&a), Plan::ShowHelp);
    assert_eq!(plan(&b), Plan::ShowHelp);
}

#[test]
fn timeout_is_carried_into_the_run() {
    let options = parse_args(&args(&["vigil", "-t", "1h"])).unwrap();
    assert_eq!(plan(&options), Plan::Run(Some(Duration::from_secs(3600))));
}

#[test]
fn all_four_timeout_forms_agree() {
    let forms = [
        args(&["vigil", "-t", "1h2m", "-V"]),
        args(&["vigil", "--timeout", "1h2m", "-V"]),
        args(&["vigil", "--timeout=1h2m", "-V"]),
        args(&["vigil", "-t=1h2m", "-V"]),
    ];
    for form in forms.iter() {
        let options = parse_args(form).unwrap();
        assert_eq!(options.timeout, Some(Duration::from_secs(3720)));
        assert!(options.show_version);
    }
}

#[test]
fn last_timeout_wins() {
    let options = parse_args(&args(&["vigil", "-t", "1h", "--timeout=5s"])).unwrap();
    assert_eq!(options.timeout, Some(Duration::from_secs(5)));
}

// ---------------------------------------------------------------- errors

#[test]
fn unknown_argument_is_reported_on_stderr_with_exit_code_1() {
    assert_eq!(
        parse_args(&args(&["vigil", "--bogus"])).unwrap_err(),
        "error: unknown argument '--bogus'"
    );
}

#[test]
fn unknown_argument_error_names_the_offending_argument() {
    assert!(parse_args(&args(&["vigil", "--frobnicate"]))
        .unwrap_err()
        .contains("--frobnicate"));
}

#[test]
fn quiet_flag_is_rejected_as_unknown_argument() {
    assert_eq!(
        parse_args(&args(&["vigil", "-q"])).unwrap_err(),
        "error: unknown argument '-q'"
    );
}

#[test]
fn quiet_long_form_is_rejected_as_unknown_argument() {
    assert_eq!(
        parse_args(&args(&["vigil", "--quiet"])).unwrap_err(),
        "error: unknown argument '--quiet'"
    );
}

#[test]
fn timeout_flag_without_value_reports_error() {
    assert_eq!(
        parse_args(&args(&["vigil", "-t"])).unwrap_err(),
        "error: -t requires a value"
    );
}

#[test]
fn timeout_flag_with_value_starting_with_dash_reports_error() {
    assert_eq!(
        parse_args(&args(&["vigil", "-t", "-2h"])).unwrap_err(),
        "error: -t requires a value"
    );
}

#[test]
fn timeout_at_end_of_args_without_value_reports_error() {
    assert_eq!(
        parse_args(&args(&["vigil", "--timeout"])).unwrap_err(),
        "error: --timeout requires a value"
    );
}

#[test]
fn invalid_duration_unit_is_reported_with_exit_code_1() {
    assert_eq!(
        parse_args(&args(&["vigil", "-t", "5x"])).unwrap_err(),
        "error: invalid timeout: unknown unit 'x' in duration"
    );
}

#[test]
fn trailing_digits_without_unit_are_rejected() {
    assert!(parse_args(&args(&["vigil", "-t", "5h30"]))
        .unwrap_err()
        .contains("error: invalid timeout"));
}

#[test]
fn repeated_units_are_rejected() {
    assert!(parse_args(&args(&["vigil", "-t", "1h1h"]))
        .unwrap_err()
        .contains("error: invalid timeout"));
}

#[test]
fn out_of_order_units_are_rejected() {
    assert!(parse_args(&args(&["vigil", "-t", "1m1h"]))
        .unwrap_err()
        .contains("error: invalid timeout"));
}

#[test]
fn overflowing_duration_is_rejected_not_panicking() {
    assert_eq!(
        parse_args(&args(&["vigil", "-t", "99999999999999999999h"])).unwrap_err(),
        "error: invalid timeout: overflow"
    );
}

#[test]
fn empty_timeout_value_is_rejected() {
    assert_eq!(
        parse_args(&args(&["vigil", "--timeout="])).unwrap_err(),
        "error: invalid timeout: empty duration"
    );
    assert_eq!(
        parse_args(&args(&["vigil", "-t="])).unwrap_err(),
        "error: invalid timeout: empty duration"
    );
}

#[test]
fn first_error_is_the_one_reported() {
    assert_eq!(
        parse_args(&args(&["vigil", "--bogus", "-t", "5x"])).unwrap_err(),
        "error: unknown argument '--bogus'"
    );
    assert_eq!(
        parse_args(&args(&["vigil", "-t", "5x", "--bogus"])).unwrap_err(),
        "error: invalid timeout: unknown unit 'x' in duration"
    );
}

#[test]
fn program_name_is_not_read_as_an_argument() {
    assert!(parse_args(&args(&["--bogus"])).is_ok());
    assert!(parse_args(&[]).is_ok());
}

#[test]
fn set_timeout_stores_or_leaves_options_alone() {
    let mut options = Options::new();
    assert!(set_timeout(&mut options, "90s").is_ok());
    assert_eq!(options.timeout, Some(Duration::from_secs(90)));
    assert_eq!(
        set_timeout(&mut options, "9q").unwrap_err(),
        "error: invalid timeout: unknown unit 'q' in duration"
    );
    assert_eq!(options.timeout, Some(Duration::from_secs(90)));
}

// ---------------------------------------------------------------- output

#[test]
fn help_flag_prints_usage_to_stdout() {
    let text = help_text();
    assert!(text.contains("Usage: vigil"), "got: {text:?}");
    for flag in ["-t, --timeout", "-h, --help", "-V, --version"] {
        assert!(text.contains(flag), "help must document {flag}, got: {text:?}");
    }
    assert!(!text.contains("-q"), "-q was removed; help must not document it");
}

#[test]
fn version_flag_prints_version_to_stdout() {
    assert_eq!(version_string(VERSION), format!("vigil {}", VERSION));
}

#[test]
fn flags_are_set_exactly_when_they_occur() {
    let options = parse_args(&args(&["vigil", "-t", "1h", "-V"])).unwrap();
    assert!(options.show_version);
    assert!(!options.show_help);
    assert_eq!(options.timeout, Some(Duration::from_secs(3600)));
    let options = parse_args(&args(&["vigil", "help"])).unwrap();
    assert!(options.show_help);
    assert!(!options.show_version);
    assert_eq!(options.timeout, None);
}

#[test]
fn arguments_after_a_refused_one_do_not_change_the_error() {
    for tail in [&[][..], &["--help"][..], &["-V", "-t", "2h"][..], &["--bogus"][..]] {
        let mut words = vec!["vigil", "-t", "5x"];
        words.extend_from_slice(tail);
        assert_eq!(
            parse_args(&args(&words)).unwrap_err(),
            "error: invalid timeout: unknown unit 'x' in duration"
        );
    }
}
