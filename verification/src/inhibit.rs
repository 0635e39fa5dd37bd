use vstd::prelude::*;

use crate::duration::{digit_value, is_digit};
use crate::duration_laws::{all_digits, numeral_value};
use crate::text::{owned, push_char};

verus! {

/// The operating system the program runs on, as far as inhibiting sleep goes.
#[derive(Clone, Copy, Debug, PartialEq, Eq, Structural)]
pub enum Platform {
    Linux,
    MacOs,
    Other,
}

/// How to start the helper process that holds sleep off.
pub struct InhibitorCommand {
    pub program: String,
    pub args: Vec<String>,
    /// Start the helper as leader of its own process group, so that stopping
    /// it can take any process it started along with it.
    pub process_group: bool,
    /// Ask the kernel to stop the helper if this process dies first.
    pub parent_death_signal: bool,
    /// Let go of the helper once it is seen to have exited (and report it as
    /// not running from then on), rather than keep it to be reaped on drop.
    pub release_on_exit: bool,
}

impl InhibitorCommand {
    pub open spec fn arg_texts(&self) -> Seq<Seq<char>> {
        self.args@.map_values(|a: String| a@)
    }
}

// ---------------------------------------------------------------- decimal

pub open spec fn digit_char(d: nat) -> char
    recommends
        d < 10,
{
    (('0' as int) + d) as char
}

/// The decimal digits of `n`, most significant first, without leading zeros.
pub open spec fn decimal(n: nat) -> Seq<char>
    decreases n,
{
    if n < 10 {
        seq![digit_char(n)]
    } else {
        decimal(n / 10).push(digit_char(n % 10))
    }
}

/// `decimal(n)` is the base-10 numeral of `n`: a non-empty run of the digits
/// `0` to `9`, with no leading zero unless `n` is 0, whose value read most
/// significant digit first is `n`.
pub proof fn law_decimal_is_the_numeral(n: nat)
    ensures
        decimal(n).len() > 0,
        all_digits(decimal(n)),
        decimal(n)[0] == '0' ==> n == 0,
        numeral_value(decimal(n)) == n,
    decreases n,
{
    if n < 10 {
        assert(digit_value(digit_char(n)) == n);
        assert(decimal(n).drop_last() =~= Seq::<char>::empty());
        assert(decimal(n).last() == digit_char(n));
        assert(numeral_value(Seq::<char>::empty()) == 0);
    } else {
        law_decimal_is_the_numeral(n / 10);
        let d = decimal(n);
        let p = decimal(n / 10);
        assert(d == p.push(digit_char(n % 10)));
        assert(d.drop_last() =~= p);
        assert(digit_value(digit_char(n % 10)) == n % 10);
        assert(d.last() == digit_char(n % 10));
        assert((n / 10) * 10 + n % 10 == n) by (nonlinear_arith);
        assert(numeral_value(d) == numeral_value(p) * 10 + digit_value(d.last()));
        assert(all_digits(d)) by {
            assert forall|i: int| 0 <= i < d.len() implies is_digit(#[trigger] d[i]) by {
                if i < p.len() {
                    assert(d[i] == p[i]);
                }
            }
        }
        assert(d[0] == p[0]);
        assert(n / 10 > 0);
    }
}

/// A whole number as it is written: a minus sign for a negative one, then
/// the decimal digits of its size.
pub open spec fn signed_decimal(n: int) -> Seq<char> {
    if n < 0 {
        seq!['-'] + decimal((-n) as nat)
    } else {
        decimal(n as nat)
    }
}

/// Writes `n` in decimal at the end of `out`.
fn push_decimal(out: &mut String, n: u32)
    ensures
        final(out)@ == old(out)@ + decimal(n as nat),
    decreases n,
{
    if n >= 10 {
        push_decimal(out, n / 10);
    }
    let d: u32 = n % 10;
    let c: char = if d == 0 {
        '0'
    } else if d == 1 {
        '1'
    } else if d == 2 {
        '2'
    } else if d == 3 {
        '3'
    } else if d == 4 {
        '4'
    } else if d == 5 {
        '5'
    } else if d == 6 {
        '6'
    } else if d == 7 {
        '7'
    } else if d == 8 {
        '8'
    } else {
        '9'
    };
    assert(c == digit_char(d as nat));
    push_char(out, c);
    if n >= 10 {
        assert(decimal(n as nat) == decimal((n / 10) as nat).push(digit_char((n % 10) as nat)));
    }
}

/// `n` written in decimal.
pub fn decimal_string(n: u32) -> (s: String)
    ensures
        s@ == decimal(n as nat),
{
    let mut s = String::new();
    push_decimal(&mut s, n);
    assert(s@ =~= decimal(n as nat));
    s
}

// ---------------------------------------------------------------- starting

/// The helper process for each platform: `systemd-inhibit` on Linux, holding
/// idle and sleep off while it runs `sleep`; `caffeinate` on macOS, which
/// waits for this process (`own_pid`) to exit. Other platforms have none.
pub fn inhibitor_command(platform: Platform, own_pid: u32) -> (r: Result<InhibitorCommand, String>)
    ensures
        match platform {
            Platform::Linux => r matches Ok(c) && c.program@ == "systemd-inhibit"@
                && c.arg_texts() == seq![
                "--what=idle:sleep"@,
                "--who=vigil"@,
                "--why=Inhibiting sleep"@,
                "sleep"@,
                "2147483647"@,
            ] && c.process_group && c.parent_death_signal && c.release_on_exit,
            Platform::MacOs => r matches Ok(c) && c.program@ == "caffeinate"@
                && c.arg_texts() == seq!["-d"@, "-i"@, "-w"@, decimal(own_pid as nat)]
                && !c.process_group && !c.parent_death_signal && !c.release_on_exit,
            Platform::Other => r matches Err(m) && m@ == "unsupported platform"@,
        },
{
    match platform {
        Platform::Linux => {
            let mut args: Vec<String> = Vec::new();
            args.push(owned("--what=idle:sleep"));
            args.push(owned("--who=vigil"));
            args.push(owned("--why=Inhibiting sleep"));
            args.push(owned("sleep"));
            args.push(owned("2147483647"));
            let c = InhibitorCommand {
                program: owned("systemd-inhibit"),
                args,
                process_group: true,
                parent_death_signal: true,
                release_on_exit: true,
            };
            assert(c.arg_texts() =~= seq![
                "--what=idle:sleep"@,
                "--who=vigil"@,
                "--why=Inhibiting sleep"@,
                "sleep"@,
                "2147483647"@,
            ]);
            Ok(c)
        },
        Platform::MacOs => {
            let mut args: Vec<String> = Vec::new();
            args.push(owned("-d"));
            args.push(owned("-i"));
            args.push(owned("-w"));
            args.push(decimal_string(own_pid));
            let c = InhibitorCommand {
                program: owned("caffeinate"),
                args,
                process_group: false,
                parent_death_signal: false,
                release_on_exit: false,
            };
            assert(c.arg_texts() =~= seq!["-d"@, "-i"@, "-w"@, decimal(own_pid as nat)]);
            Ok(c)
        },
        Platform::Other => Err(owned("unsupported platform")),
    }
}

/// The error reported when the helper cannot be started.
pub fn start_failure(program: &str, error: &str) -> (m: String)
    ensures
        m@ == "failed to start "@ + program@ + ": "@ + error@,
{
    let mut m = owned("failed to start ");
    m.append(program);
    m.append(": ");
    m.append(error);
    m
}

// ---------------------------------------------------------------- watching

/// What asking a helper process whether it has exited turned up.
pub enum WaitOutcome {
    /// It is still running.
    Running,
    /// It has exited, with this status.
    Exited(String),
    /// The question itself failed, with this error.
    Failed(String),
}

/// The verdict on a helper process: whether inhibition still holds, and
/// whether the helper is still to be kept (and stopped later).
pub struct CheckVerdict {
    pub result: Result<(), String>,
    pub keep: bool,
}

/// The verdict on the helper named `tool` as plain values: the error line,
/// if inhibition no longer holds, and whether the helper is kept.
pub open spec fn verdict_of(tool: Seq<char>, release_on_exit: bool, outcome: Option<WaitOutcome>) -> (
    Option<Seq<char>>,
    bool,
) {
    match outcome {
        None => (Some("sleep inhibitor is not running"@), false),
        Some(WaitOutcome::Running) => (None, true),
        Some(WaitOutcome::Exited(status)) => (
            Some(tool + " exited ("@ + status@ + ")"@),
            !release_on_exit,
        ),
        Some(WaitOutcome::Failed(e)) => (Some("could not check "@ + tool + ": "@ + e@), true),
    }
}

/// Judges the helper named `tool`, given what asking it turned up; `None`
/// means no helper is held any more. A helper that has exited is let go when
/// `release_on_exit` holds, and kept (to be reaped when the guard is dropped)
/// otherwise.
pub fn check_inhibitor(tool: &str, release_on_exit: bool, outcome: Option<WaitOutcome>) -> (v: CheckVerdict)
    ensures
        match verdict_of(tool@, release_on_exit, outcome) {
            (None, keep) => v.result is Ok && v.keep == keep,
            (Some(m), keep) => v.result matches Err(e) && e@ == m && v.keep == keep,
        },
        outcome matches Some(o) && o is Running ==> v.result is Ok && v.keep,
        outcome is None ==> v.result is Err && !v.keep,
        outcome matches Some(o) && o is Exited ==> v.result is Err && v.keep == !release_on_exit,
        outcome matches Some(o) && o is Failed ==> v.result is Err && v.keep,
{
    match outcome {
        None => CheckVerdict { result: Err(owned("sleep inhibitor is not running")), keep: false },
        Some(WaitOutcome::Running) => CheckVerdict { result: Ok(()), keep: true },
        Some(WaitOutcome::Exited(status)) => {
            let mut m = owned(tool);
            m.append(" exited (");
            m.append(status.as_str());
            m.append(")");
            CheckVerdict { result: Err(m), keep: !release_on_exit }
        },
        Some(WaitOutcome::Failed(e)) => {
            let mut m = owned("could not check ");
            m.append(tool);
            m.append(": ");
            m.append(e.as_str());
            CheckVerdict { result: Err(m), keep: true }
        },
    }
}

/// A helper that is still running holds sleep off: it is judged as holding,
/// and kept, whatever its name and whatever is done with it once it exits.
/// Every other outcome is judged as a loss.
pub proof fn law_running_helper_holds(tool: Seq<char>, release_on_exit: bool, outcome: Option<WaitOutcome>)
    ensures
        verdict_of(tool, release_on_exit, Some(WaitOutcome::Running)).0 is None,
        verdict_of(tool, release_on_exit, Some(WaitOutcome::Running)).1,
        !(outcome matches Some(o) && o is Running) ==> verdict_of(tool, release_on_exit, outcome).0 is Some,
{
}

/// Once the helper is seen to have exited, inhibition is never again reported
/// as holding: if the helper was let go the next check finds none, and if it
/// was kept, asking an exited process again finds it exited (or fails). Either
/// way the next verdict is an error, and it keeps the helper exactly when the
/// first one did, so this holds for every later check too.
pub proof fn law_lost_inhibitor_stays_lost(
    tool: Seq<char>,
    release_on_exit: bool,
    status: String,
    next: Option<WaitOutcome>,
)
    requires
        verdict_of(tool, release_on_exit, Some(WaitOutcome::Exited(status))).1 ==> (next matches Some(
            o,
        ) && !(o is Running)),
        !verdict_of(tool, release_on_exit, Some(WaitOutcome::Exited(status))).1 ==> next is None,
    ensures
        verdict_of(tool, release_on_exit, Some(WaitOutcome::Exited(status))).0 is Some,
        verdict_of(tool, release_on_exit, next).0 is Some,
        verdict_of(tool, release_on_exit, next).1 == verdict_of(
            tool,
            release_on_exit,
            Some(WaitOutcome::Exited(status)),
        ).1,
{
}

// ---------------------------------------------------------------- stopping

/// How to stop a helper process before reaping it.
#[derive(Clone, Copy, Debug, PartialEq, Eq, Structural)]
pub enum Termination {
    /// Kill the whole process group: the argument is the negated group id.
    KillGroup(i32),
    /// Kill the helper alone.
    KillChild,
    /// Send nothing; only reap it.
    ReapOnly,
}

/// A helper started as a group leader is stopped with its whole group, when
/// its id can be negated as a signal target; otherwise the helper alone.
pub fn termination(pid: u32, process_group: bool) -> (t: Termination)
    ensures
        process_group && 0 < pid <= i32::MAX ==> t == Termination::KillGroup(-(pid as int) as i32),
        process_group && !(0 < pid <= i32::MAX) ==> t == Termination::ReapOnly,
        !process_group ==> t == Termination::KillChild,
{
    if process_group {
        if pid > 0 && pid <= 2147483647u32 {
            let id: i32 = pid as i32;
            Termination::KillGroup(-id)
        } else {
            Termination::ReapOnly
        }
    } else {
        Termination::KillChild
    }
}

// ---------------------------------------------------------------- signals

/// The error reported when the handler for `signum` cannot be installed.
pub fn signal_install_failure(signum: i32) -> (m: String)
    ensures
        m@ == "could not install signal handler for signal "@ + signed_decimal(signum as int),
{
    let mut m = owned("could not install signal handler for signal ");
    if signum < 0 {
        push_char(&mut m, '-');
        let size: u32 = (0i64 - (signum as i64)) as u32;
        push_decimal(&mut m, size);
        assert(m@ =~= "could not install signal handler for signal "@ + signed_decimal(signum as int));
    } else {
        push_decimal(&mut m, signum as u32);
    }
    m
}

// ---------------------------------------------------------------- windows

/// Whether a Windows standard handle can be written to: neither null nor
/// `INVALID_HANDLE_VALUE`.
pub fn is_valid_handle(handle: isize) -> (ok: bool)
    ensures
        ok == (handle != 0 && handle != -1),
{
    handle != 0 && handle != -1
}

} // verus!
