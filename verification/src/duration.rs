use vstd::prelude::*;

use crate::text::{chars_of, owned, push_char};

verus! {

/// A span of whole seconds, as a timeout is given on the command line.
#[derive(Clone, Copy, Debug, PartialEq, Eq, Structural)]
pub struct Duration {
    pub secs: u64,
}

impl Duration {
    pub fn from_secs(secs: u64) -> (d: Duration)
        ensures
            d.secs == secs,
    {
        Duration { secs }
    }

    pub fn as_secs(&self) -> (s: u64)
        ensures
            s == self.secs,
    {
        self.secs
    }
}

/// Why a duration text was refused.
#[derive(Clone, Copy, Debug, PartialEq, Eq, Structural)]
pub enum DurationError {
    /// The text is empty.
    Empty,
    /// A number, a unit's worth of seconds, or the total exceeds `u64::MAX`.
    Overflow,
    /// A non-digit came where a number was expected.
    MissingNumber(char),
    /// A number was followed by something other than `h`, `m` or `s`.
    UnknownUnit(char),
    /// A unit came after a unit that must follow it, or came twice.
    OutOfOrder(char),
    /// The text ends in digits that no unit follows.
    TrailingDigits,
}

/// What has been read of a duration text so far: the last unit seen
/// (0 none, 1 `h`, 2 `m`, 3 `s`), the seconds of the finished parts,
/// the number being read and whether it has any digit yet.
pub struct Scan {
    pub stage: nat,
    pub total: nat,
    pub pending: nat,
    pub has_digits: bool,
}

pub open spec fn is_digit(c: char) -> bool {
    '0' <= c && c <= '9'
}

pub open spec fn digit_value(c: char) -> nat {
    ((c as int) - ('0' as int)) as nat
}

/// The seconds one unit stands for, and the stage that the unit closes.
pub open spec fn unit_of(c: char) -> Option<(nat, nat)> {
    if c == 'h' {
        Some((3600nat, 1nat))
    } else if c == 'm' {
        Some((60nat, 2nat))
    } else if c == 's' {
        Some((1nat, 3nat))
    } else {
        None
    }
}

pub open spec fn scan_start() -> Scan {
    Scan { stage: 0, total: 0, pending: 0, has_digits: false }
}

/// Reads one more character.
pub open spec fn scan_step(st: Scan, c: char) -> Result<Scan, DurationError> {
    if is_digit(c) {
        let n = st.pending * 10 + digit_value(c);
        if n > u64::MAX {
            Err(DurationError::Overflow)
        } else {
            Ok(Scan { pending: n, has_digits: true, ..st })
        }
    } else if !st.has_digits {
        Err(DurationError::MissingNumber(c))
    } else {
        match unit_of(c) {
            None => Err(DurationError::UnknownUnit(c)),
            Some((per, stage)) => {
                if st.pending * per > u64::MAX {
                    Err(DurationError::Overflow)
                } else if st.stage >= stage {
                    Err(DurationError::OutOfOrder(c))
                } else if st.total + st.pending * per > u64::MAX {
                    Err(DurationError::Overflow)
                } else {
                    Ok(
                        Scan {
                            stage,
                            total: st.total + st.pending * per,
                            pending: 0,
                            has_digits: false,
                        },
                    )
                }
            },
        }
    }
}

/// Reads a whole text, left to right, stopping at the first refusal.
pub open spec fn scan(s: Seq<char>) -> Result<Scan, DurationError>
    decreases s.len(),
{
    if s.len() == 0 {
        Ok(scan_start())
    } else {
        match scan(s.drop_last()) {
            Err(e) => Err(e),
            Ok(st) => scan_step(st, s.last()),
        }
    }
}

/// The number of seconds a duration text stands for, or why it is refused.
pub open spec fn duration_of(s: Seq<char>) -> Result<nat, DurationError> {
    if s.len() == 0 {
        Err(DurationError::Empty)
    } else {
        match scan(s) {
            Err(e) => Err(e),
            Ok(st) => if st.has_digits {
                Err(DurationError::TrailingDigits)
            } else {
                Ok(st.total)
            },
        }
    }
}

impl DurationError {
    /// The words that report this refusal.
    pub open spec fn text(self) -> Seq<char> {
        match self {
            DurationError::Empty => "empty duration"@,
            DurationError::Overflow => "overflow"@,
            DurationError::MissingNumber(c) => "missing number before unit '"@ + seq![c] + "'"@,
            DurationError::UnknownUnit(c) => "unknown unit '"@ + seq![c] + "' in duration"@,
            DurationError::OutOfOrder(c) => "unit '"@ + seq![c]
                + "' is out of order or repeated (expected order: h, m, s)"@,
            DurationError::TrailingDigits => "digits must be followed by a unit (h, m, or s)"@,
        }
    }

    pub fn message(&self) -> (m: String)
        ensures
            m@ == self.text(),
    {
        match self {
            DurationError::Empty => owned("empty duration"),
            DurationError::Overflow => owned("overflow"),
            DurationError::MissingNumber(c) => {
                let mut m = owned("missing number before unit '");
                push_char(&mut m, *c);
                m.append("'");
                m
            },
            DurationError::UnknownUnit(c) => {
                let mut m = owned("unknown unit '");
                push_char(&mut m, *c);
                m.append("' in duration");
                m
            },
            DurationError::OutOfOrder(c) => {
                let mut m = owned("unit '");
                push_char(&mut m, *c);
                m.append("' is out of order or repeated (expected order: h, m, s)");
                m
            },
            DurationError::TrailingDigits => owned("digits must be followed by a unit (h, m, or s)"),
        }
    }
}

/// Once a prefix is refused, every longer text is refused for the same reason.
proof fn lemma_scan_error_persists(s: Seq<char>, k: int)
    requires
        0 <= k <= s.len(),
        scan(s.take(k)) is Err,
    ensures
        scan(s) == scan(s.take(k)),
    decreases s.len() - k,
{
    if k < s.len() {
        assert(s.take(k + 1).drop_last() =~= s.take(k));
        lemma_scan_error_persists(s, k + 1);
    } else {
        assert(s.take(k) =~= s);
    }
}

/// Reads a duration such as `2h`, `45m`, `30s` or `1h30m`: each unit at most
/// once and in the order `h`, `m`, `s`, each preceded by a number.
fn scan_duration(s: &str) -> (r: Result<u64, DurationError>)
    ensures
        match r {
            Ok(v) => duration_of(s@) == Ok::<nat, DurationError>(v as nat),
            Err(e) => duration_of(s@) == Err::<nat, DurationError>(e),
        },
{
    let cs = chars_of(s);
    if cs.len() == 0 {
        return Err(DurationError::Empty);
    }
    let mut stage: u8 = 0;
    let mut total: u64 = 0;
    let mut n: u64 = 0;
    let mut has_digits: bool = false;
    let mut i: usize = 0;
    while i < cs.len()
        invariant
            cs@ == s@,
            cs.len() > 0,
            i <= cs.len(),
            stage <= 3,
            scan(cs@.take(i as int)) == Ok::<Scan, DurationError>(
                Scan { stage: stage as nat, total: total as nat, pending: n as nat, has_digits },
            ),
        decreases cs.len() - i,
    {
        let c = cs[i];
        let ghost before = Scan {
            stage: stage as nat,
            total: total as nat,
            pending: n as nat,
            has_digits,
        };
        assert(cs@.take(i + 1).drop_last() =~= cs@.take(i as int));
        assert(cs@.take(i + 1).last() == c);
        if '0' <= c && c <= '9' {
            let d: u64 = (c as u64) - ('0' as u64);
            if n > 1844674407370955161u64 || (n == 1844674407370955161u64 && d > 5) {
                proof {
                    lemma_scan_error_persists(cs@, i + 1);
                }
                return Err(DurationError::Overflow);
            }
            n = n * 10 + d;
            has_digits = true;
        } else {
            if !has_digits {
                proof {
                    lemma_scan_error_persists(cs@, i + 1);
                }
                return Err(DurationError::MissingNumber(c));
            }
            let per: u64;
            let next: u8;
            if c == 'h' {
                per = 3600;
                next = 1;
            } else if c == 'm' {
                per = 60;
                next = 2;
            } else if c == 's' {
                per = 1;
                next = 3;
            } else {
                proof {
                    lemma_scan_error_persists(cs@, i + 1);
                }
                return Err(DurationError::UnknownUnit(c));
            }
            if n > u64::MAX / per {
                proof {
                    assert(n * per > u64::MAX) by (nonlinear_arith)
                        requires
                            n > u64::MAX / per,
                            per > 0,
                    ;
                    lemma_scan_error_persists(cs@, i + 1);
                }
                return Err(DurationError::Overflow);
            }
            assert(n * per <= u64::MAX) by (nonlinear_arith)
                requires
                    n <= u64::MAX / per,
                    per > 0,
            ;
            let seconds = n * per;
            if stage >= next {
                proof {
                    lemma_scan_error_persists(cs@, i + 1);
                }
                return Err(DurationError::OutOfOrder(c));
            }
            if total > u64::MAX - seconds {
                proof {
                    lemma_scan_error_persists(cs@, i + 1);
                }
                return Err(DurationError::Overflow);
            }
            stage = next;
            total = total + seconds;
            n = 0;
            has_digits = false;
        }
        i = i + 1;
    }
    assert(cs@.take(cs.len() as int) =~= cs@);
    if has_digits {
        return Err(DurationError::TrailingDigits);
    }
    Ok(total)
}

/// Parses a timeout such as `2h`, `45m`, `30s` or `1h2m3s`.
///
/// Units must appear once each, in the order `h`, `m`, `s`; `1h1h` and `1m1h`
/// are refused as typos, not summed.
pub fn parse_duration(s: &str) -> (r: Result<Duration, String>)
    ensures
        match duration_of(s@) {
            Ok(v) => r matches Ok(d) && d.secs == v,
            Err(e) => r matches Err(m) && m@ == e.text(),
        },
{
    match scan_duration(s) {
        Ok(v) => Ok(Duration::from_secs(v)),
        Err(e) => Err(e.message()),
    }
}

} // verus!
