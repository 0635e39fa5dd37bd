use vstd::prelude::*;

use crate::duration::Duration;
use crate::text::owned;

verus! {

/// Why the program stops holding sleep off without an error.
#[derive(Clone, Copy, Debug, PartialEq, Eq, Structural)]
pub enum StopReason {
    /// Ctrl+C or a termination request arrived.
    Interrupted,
    /// The timeout has run out.
    TimedOut,
}

/// What to do after one look at the world.
pub enum Action {
    /// Nothing changed: wait for the next poll.
    Wait,
    /// Stop and exit successfully.
    Stop(StopReason),
    /// Exit with this error.
    Fail(String),
}

/// Whether a run with this timeout is over after `elapsed_secs` whole seconds.
/// A timeout holds whole seconds, so the elapsed time reaches it exactly when
/// its whole seconds do.
pub open spec fn timed_out(timeout: Option<Duration>, elapsed_secs: u64) -> bool {
    match timeout {
        Some(d) => elapsed_secs >= d.secs,
        None => false,
    }
}

/// A run with a timeout is over exactly when the whole seconds elapsed reach
/// the timeout's seconds, and a run without one is never over by time.
pub proof fn law_timed_out_exactly_when_elapsed(timeout: Option<Duration>, elapsed_secs: u64)
    ensures
        timeout is None ==> !timed_out(timeout, elapsed_secs),
        forall|d: Duration|
            timeout == Some(d) ==> (timed_out(timeout, elapsed_secs) <==> elapsed_secs >= d.secs),
{
}

/// One poll of the main loop. An interruption is looked at first (and the
/// helper is then not asked); then whether inhibition still holds; then the
/// timeout.
pub fn poll(
    interrupted: bool,
    inhibitor: &Result<(), String>,
    timeout: Option<Duration>,
    elapsed_secs: u64,
) -> (a: Action)
    ensures
        interrupted ==> a == Action::Stop(StopReason::Interrupted),
        !interrupted && inhibitor is Err ==> (a matches Action::Fail(m) && m@
            == "error: sleep inhibition was lost: "@ + inhibitor->Err_0@),
        !interrupted && inhibitor is Ok && timed_out(timeout, elapsed_secs) ==> a == Action::Stop(
            StopReason::TimedOut,
        ),
        !interrupted && inhibitor is Ok && !timed_out(timeout, elapsed_secs) ==> a == Action::Wait,
        !interrupted && inhibitor is Ok && timeout is None ==> a == Action::Wait,
        forall|d: Duration|
            !interrupted && inhibitor is Ok && timeout == Some(d) ==> (elapsed_secs >= d.secs ==> a
                == Action::Stop(StopReason::TimedOut)) && (elapsed_secs < d.secs ==> a
                == Action::Wait),
{
    if interrupted {
        return Action::Stop(StopReason::Interrupted);
    }
    if let Err(e) = inhibitor {
        let mut m = owned("error: sleep inhibition was lost: ");
        m.append(e.as_str());
        return Action::Fail(m);
    }
    match timeout {
        Some(d) => {
            if elapsed_secs >= d.secs {
                Action::Stop(StopReason::TimedOut)
            } else {
                Action::Wait
            }
        },
        None => Action::Wait,
    }
}

/// The line shown when the program starts: only on a terminal.
pub fn started_notice(tty: bool) -> (n: Option<&'static str>)
    ensures
        tty ==> (n matches Some(t) && t@ == "Vigil started. Press Ctrl+C to stop."@),
        !tty ==> n is None,
{
    if tty {
        Some("Vigil started. Press Ctrl+C to stop.")
    } else {
        None
    }
}

/// The line shown when the program stops: only on a terminal. It starts with
/// a carriage return and is padded so that it covers the `^C` a terminal may
/// have echoed.
pub fn stop_notice(reason: StopReason, tty: bool) -> (n: Option<&'static str>)
    ensures
        !tty ==> n is None,
        tty && reason == StopReason::Interrupted ==> (n matches Some(t) && t@
            == "\rStopped.              "@),
        tty && reason == StopReason::TimedOut ==> (n matches Some(t) && t@
            == "\rTimeout reached.        "@),
{
    if !tty {
        None
    } else {
        match reason {
            StopReason::Interrupted => Some("\rStopped.              "),
            StopReason::TimedOut => Some("\rTimeout reached.        "),
        }
    }
}

/// A fatal error as it is reported: `error: ` and the cause.
pub fn error_line(cause: &str) -> (line: String)
    ensures
        line@ == "error: "@ + cause@,
{
    let mut line = owned("error: ");
    line.append(cause);
    line
}

} // verus!
