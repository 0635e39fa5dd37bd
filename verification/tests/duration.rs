use vigil::duration::{parse_duration, Duration, DurationError};

#[test]
fn test_parse_hours() {
    assert_eq!(parse_duration("2h").unwrap().as_secs(), 7200);
}

#[test]
fn test_parse_minutes() {
    assert_eq!(parse_duration("45m").unwrap().as_secs(), 2700);
}

#[test]
fn test_parse_seconds() {
    assert_eq!(parse_duration("30s").unwrap().as_secs(), 30);
}

#[test]
fn test_parse_combined() {
    assert_eq!(parse_duration("1h30m").unwrap().as_secs(), 5400);
}

#[test]
fn test_parse_all() {
    assert_eq!(parse_duration("1h2m3s").unwrap().as_secs(), 3723);
}

#[test]
fn test_parse_invalid_unit() {
    assert!(parse_duration("5x").is_err());
}

#[test]
fn test_parse_trailing_digits() {
    assert!(parse_duration("5h30").is_err());
}

#[test]
fn test_parse_empty() {
    assert!(parse_duration("").is_err());
}

#[test]
fn test_parse_zero() {
    assert_eq!(parse_duration("0s").unwrap().as_secs(), 0);
}

#[test]
fn test_parse_overflow() {
    assert!(parse_duration("9999999999999999999h").is_err());
}

#[test]
fn test_parse_digit_overflow() {
    assert!(parse_duration("18446744073709551616h").is_err());
}

#[test]
fn test_parse_requires_digits_before_unit() {
    assert!(parse_duration("h").is_err());
    assert!(parse_duration("1hh").is_err());
}

#[test]
fn test_parse_rejects_repeated_units() {
    assert!(parse_duration("1h1h").is_err());
    assert!(parse_duration("1m1m").is_err());
    assert!(parse_duration("1s1s").is_err());
}

#[test]
fn test_parse_rejects_out_of_order_units() {
    assert!(parse_duration("1m1h").is_err());
    assert!(parse_duration("1s1m").is_err());
    assert!(parse_duration("1s1h").is_err());
}

#[test]
fn test_parse_rejects_unit_after_finish() {
    assert!(parse_duration("1h2m3s4m").is_err());
}

// ---------------------------------------------------------------- messages

fn error_of(s: &str) -> String {
    parse_duration(s).unwrap_err()
}

#[test]
fn empty_duration_message() {
    assert_eq!(error_of(""), "empty duration");
}

#[test]
fn overflow_message_for_each_kind_of_overflow() {
    // the number itself
    assert_eq!(error_of("18446744073709551616h"), "overflow");
    // the number times the seconds of its unit
    assert_eq!(error_of("9999999999999999999h"), "overflow");
    // the running total
    assert_eq!(error_of("5124095576030431h1000m"), "overflow");
    // overflow of the number comes before anything after it is read
    assert_eq!(error_of("99999999999999999999x"), "overflow");
}

#[test]
fn missing_number_message_names_the_unit() {
    assert_eq!(error_of("h"), "missing number before unit 'h'");
    assert_eq!(error_of("1hh"), "missing number before unit 'h'");
    assert_eq!(error_of("x"), "missing number before unit 'x'");
}

#[test]
fn unknown_unit_message_names_the_unit() {
    assert_eq!(error_of("5x"), "unknown unit 'x' in duration");
    assert_eq!(error_of("5é"), "unknown unit 'é' in duration");
    assert_eq!(error_of("5 h"), "unknown unit ' ' in duration");
}

#[test]
fn out_of_order_message_names_the_unit() {
    assert_eq!(
        error_of("1m1h"),
        "unit 'h' is out of order or repeated (expected order: h, m, s)"
    );
    assert_eq!(
        error_of("1s1s"),
        "unit 's' is out of order or repeated (expected order: h, m, s)"
    );
}

#[test]
fn trailing_digits_message() {
    assert_eq!(
        error_of("5h30"),
        "digits must be followed by a unit (h, m, or s)"
    );
    assert_eq!(error_of("30"), "digits must be followed by a unit (h, m, or s)");
}

#[test]
fn error_messages_match_their_variants() {
    assert_eq!(DurationError::Empty.message(), "empty duration");
    assert_eq!(DurationError::Overflow.message(), "overflow");
    assert_eq!(
        DurationError::MissingNumber('q').message(),
        "missing number before unit 'q'"
    );
    assert_eq!(
        DurationError::UnknownUnit('d').message(),
        "unknown unit 'd' in duration"
    );
    assert_eq!(
        DurationError::OutOfOrder('m').message(),
        "unit 'm' is out of order or repeated (expected order: h, m, s)"
    );
    assert_eq!(
        DurationError::TrailingDigits.message(),
        "digits must be followed by a unit (h, m, or s)"
    );
}

// ---------------------------------------------------------------- values

#[test]
fn parts_add_up() {
    assert_eq!(parse_duration("2h45s").unwrap().as_secs(), 7245);
    assert_eq!(parse_duration("10m5s").unwrap().as_secs(), 605);
    assert_eq!(parse_duration("0h0m0s").unwrap().as_secs(), 0);
    assert_eq!(parse_duration("007m").unwrap().as_secs(), 420);
}

#[test]
fn largest_accepted_duration() {
    assert_eq!(
        parse_duration("18446744073709551615s").unwrap().as_secs(),
        u64::MAX
    );
    assert_eq!(
        parse_duration("5124095576030431h15s").unwrap().as_secs(),
        5124095576030431 * 3600 + 15
    );
    assert_eq!(error_of("5124095576030431h16s"), "overflow");
    assert!(parse_duration("5124095576030431h1m").is_err());
}

#[test]
fn duration_round_trips_through_seconds() {
    assert_eq!(Duration::from_secs(42).as_secs(), 42);
    assert_eq!(parse_duration("42s").unwrap(), Duration::from_secs(42));
}

#[test]
fn first_violation_decides_the_message() {
    assert_eq!(error_of("5x1h1h"), "unknown unit 'x' in duration");
    assert_eq!(
        error_of("1m1h5x"),
        "unit 'h' is out of order or repeated (expected order: h, m, s)"
    );
    assert_eq!(error_of("h99999999999999999999"), "missing number before unit 'h'");
}
