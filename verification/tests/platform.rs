use std::sync::atomic::AtomicBool;

use vigil::inhibit::{
    check_inhibitor, decimal_string, inhibitor_command, is_valid_handle, signal_install_failure,
    start_failure, termination, Platform, Termination, WaitOutcome,
};
use vigil::run::{error_line, poll, started_notice, stop_notice, Action, StopReason};
use vigil::duration::Duration;
use vigil::sig::{check, record};

#[test]
fn linux_inhibitor_is_systemd_inhibit() {
    let c = inhibitor_command(Platform::Linux, 1234).ok().unwrap();
    assert_eq!(c.program, "systemd-inhibit");
    assert_eq!(
        c.args,
        vec![
            "--what=idle:sleep",
            "--who=vigil",
            "--why=Inhibiting sleep",
            "sleep",
            "2147483647"
        ]
    );
    assert!(c.process_group);
    assert!(c.parent_death_signal);
}

#[test]
fn macos_inhibitor_waits_for_this_process() {
    let c = inhibitor_command(Platform::MacOs, 4021).ok().unwrap();
    assert_eq!(c.program, "caffeinate");
    assert_eq!(c.args, vec!["-d", "-i", "-w", "4021"]);
    assert!(!c.process_group);
    assert!(!c.parent_death_signal);
}

#[test]
fn other_platforms_are_unsupported() {
    assert_eq!(
        inhibitor_command(Platform::Other, 1).err().unwrap(),
        "unsupported platform"
    );
}

#[test]
fn decimal_digits() {
    assert_eq!(decimal_string(0), "0");
    assert_eq!(decimal_string(7), "7");
    assert_eq!(decimal_string(10), "10");
    assert_eq!(decimal_string(90210), "90210");
    assert_eq!(decimal_string(u32::MAX), "4294967295");
}

#[test]
fn start_failure_names_the_program() {
    assert_eq!(
        start_failure("systemd-inhibit", "No such file or directory (os error 2)"),
        "failed to start systemd-inhibit: No such file or directory (os error 2)"
    );
}

#[test]
fn linux_detects_an_exited_inhibitor() {
    let v = check_inhibitor(
        "systemd-inhibit",
        true,
        Some(WaitOutcome::Exited("exit status: 0".to_string())),
    );
    assert_eq!(v.result.unwrap_err(), "systemd-inhibit exited (exit status: 0)");
    assert!(!v.keep);
    // once let go, the helper is reported as not running
    let v = check_inhibitor("systemd-inhibit", true, None);
    assert_eq!(v.result.unwrap_err(), "sleep inhibitor is not running");
    assert!(!v.keep);
}

#[test]
fn macos_keeps_an_exited_caffeinate_and_reports_it_again() {
    for _ in 0..2 {
        let v = check_inhibitor(
            "caffeinate",
            false,
            Some(WaitOutcome::Exited("exit status: 0".to_string())),
        );
        assert_eq!(v.result.unwrap_err(), "caffeinate exited (exit status: 0)");
        assert!(v.keep);
    }
    let c = inhibitor_command(Platform::MacOs, 7).ok().unwrap();
    assert!(!c.release_on_exit);
    let c = inhibitor_command(Platform::Linux, 7).ok().unwrap();
    assert!(c.release_on_exit);
}

#[test]
fn running_inhibitor_is_fine() {
    let v = check_inhibitor("caffeinate", false, Some(WaitOutcome::Running));
    assert!(v.result.is_ok());
    assert!(v.keep);
}

#[test]
fn failed_check_keeps_the_inhibitor() {
    let v = check_inhibitor(
        "inhibitor",
        true,
        Some(WaitOutcome::Failed("permission denied".to_string())),
    );
    assert_eq!(v.result.unwrap_err(), "could not check inhibitor: permission denied");
    assert!(v.keep);
}

#[test]
fn drop_kills_a_running_inhibitor() {
    assert_eq!(termination(4242, true), Termination::KillGroup(-4242));
    assert_eq!(termination(4242, false), Termination::KillChild);
}

#[test]
fn process_group_ids_out_of_range_are_not_signalled() {
    assert_eq!(termination(0, true), Termination::ReapOnly);
    assert_eq!(termination(2147483648, true), Termination::ReapOnly);
    assert_eq!(termination(2147483647, true), Termination::KillGroup(-2147483647));
}

#[test]
fn signal_failure_names_the_signal() {
    assert_eq!(
        signal_install_failure(2),
        "could not install signal handler for signal 2"
    );
    assert_eq!(
        signal_install_failure(15),
        "could not install signal handler for signal 15"
    );
    assert_eq!(
        signal_install_failure(-7),
        "could not install signal handler for signal -7"
    );
    assert_eq!(
        signal_install_failure(i32::MIN),
        "could not install signal handler for signal -2147483648"
    );
}

#[test]
fn windows_handle_validity() {
    assert!(!is_valid_handle(0));
    assert!(!is_valid_handle(-1));
    assert!(is_valid_handle(88));
}

// ---------------------------------------------------------------- main loop

#[test]
fn interruption_stops_first() {
    let lost: Result<(), String> = Err("gone".to_string());
    assert!(matches!(
        poll(true, &lost, Some(Duration::from_secs(0)), 5),
        Action::Stop(StopReason::Interrupted)
    ));
}

#[test]
fn lost_inhibition_fails() {
    let lost: Result<(), String> = Err("systemd-inhibit exited (signal: 9)".to_string());
    match poll(false, &lost, None, 0) {
        Action::Fail(m) => assert_eq!(
            m,
            "error: sleep inhibition was lost: systemd-inhibit exited (signal: 9)"
        ),
        _ => panic!("expected a failure"),
    }
}

#[test]
fn zero_timeout_exits_promptly() {
    assert!(matches!(
        poll(false, &Ok(()), Some(Duration::from_secs(0)), 0),
        Action::Stop(StopReason::TimedOut)
    ));
}

#[test]
fn running_process_stays_alive_until_timeout() {
    let t = Some(Duration::from_secs(1800));
    assert!(matches!(poll(false, &Ok(()), t, 0), Action::Wait));
    assert!(matches!(poll(false, &Ok(()), t, 1799), Action::Wait));
    assert!(matches!(
        poll(false, &Ok(()), t, 1800),
        Action::Stop(StopReason::TimedOut)
    ));
    assert!(matches!(poll(false, &Ok(()), None, u64::MAX), Action::Wait));
}

#[test]
fn successful_run_is_silent_on_piped_streams_and_exits_zero() {
    assert_eq!(started_notice(false), None);
    assert_eq!(stop_notice(StopReason::Interrupted, false), None);
    assert_eq!(stop_notice(StopReason::TimedOut, false), None);
}

#[test]
fn terminal_notices() {
    assert_eq!(
        started_notice(true),
        Some("Vigil started. Press Ctrl+C to stop.")
    );
    assert_eq!(
        stop_notice(StopReason::Interrupted, true),
        Some("\rStopped.              ")
    );
    assert_eq!(
        stop_notice(StopReason::TimedOut, true),
        Some("\rTimeout reached.        ")
    );
}

#[test]
fn error_lines() {
    assert_eq!(error_line("unsupported platform"), "error: unsupported platform");
}

#[test]
fn signal_flag_is_cleared_by_check() {
    let hit = AtomicBool::new(false);
    assert!(!check(&hit));
    record(&hit);
    assert!(check(&hit));
    assert!(!check(&hit));
}
