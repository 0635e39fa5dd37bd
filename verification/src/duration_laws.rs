use vstd::prelude::*;

use crate::duration::{
    digit_value, duration_of, is_digit, scan, scan_start, scan_step, unit_of, DurationError, Scan,
};

verus! {

/// The value of a numeral written in decimal digits.
pub open spec fn numeral_value(d: Seq<char>) -> nat
    decreases d.len(),
{
    if d.len() == 0 {
        0
    } else {
        numeral_value(d.drop_last()) * 10 + digit_value(d.last())
    }
}

pub open spec fn all_digits(d: Seq<char>) -> bool {
    forall|i: int| 0 <= i < d.len() ==> is_digit(#[trigger] d[i])
}

/// A non-empty run of decimal digits.
pub open spec fn is_numeral(d: Seq<char>) -> bool {
    d.len() > 0 && all_digits(d)
}

/// A duration written as its parts: the numeral before `h`, before `m` and
/// before `s`, each of which may be left out.
pub struct DurationText {
    pub hours: Option<Seq<char>>,
    pub minutes: Option<Seq<char>>,
    pub seconds: Option<Seq<char>>,
}

pub open spec fn part_text(p: Option<Seq<char>>, unit: char) -> Seq<char> {
    match p {
        Some(d) => d.push(unit),
        None => Seq::empty(),
    }
}

pub open spec fn part_value(p: Option<Seq<char>>) -> nat {
    match p {
        Some(d) => numeral_value(d),
        None => 0,
    }
}

pub open spec fn part_ok(p: Option<Seq<char>>) -> bool {
    match p {
        Some(d) => is_numeral(d),
        None => true,
    }
}

impl DurationText {
    /// At least one part is present, and each present part is a numeral.
    pub open spec fn well_formed(self) -> bool {
        &&& (self.hours is Some || self.minutes is Some || self.seconds is Some)
        &&& part_ok(self.hours)
        &&& part_ok(self.minutes)
        &&& part_ok(self.seconds)
    }

    /// The text: the parts that are present, in the order `h`, `m`, `s`.
    pub open spec fn written(self) -> Seq<char> {
        part_text(self.hours, 'h') + part_text(self.minutes, 'm') + part_text(self.seconds, 's')
    }

    /// The number of seconds the parts add up to.
    pub open spec fn total(self) -> nat {
        part_value(self.hours) * 3600 + part_value(self.minutes) * 60 + part_value(self.seconds)
    }
}

// ---------------------------------------------------------------- helpers

proof fn lemma_scan_append_error(p: Seq<char>, q: Seq<char>)
    requires
        scan(p) is Err,
    ensures
        scan(p + q) == scan(p),
    decreases q.len(),
{
    if q.len() == 0 {
        assert(p + q =~= p);
    } else {
        lemma_scan_append_error(p, q.drop_last());
        assert((p + q).drop_last() =~= p + q.drop_last());
    }
}

proof fn lemma_numeral_value_monotone(d: Seq<char>)
    requires
        d.len() > 0,
    ensures
        numeral_value(d.drop_last()) <= numeral_value(d),
{
}

/// Reading a run of digits from a clean state accumulates its value, unless
/// the value grows past `u64::MAX`.
proof fn lemma_scan_digits(p: Seq<char>, st: Scan, d: Seq<char>)
    requires
        scan(p) == Ok::<Scan, DurationError>(st),
        st.pending == 0,
        !st.has_digits,
        all_digits(d),
    ensures
        scan(p + d) == (if numeral_value(d) <= u64::MAX {
            Ok::<Scan, DurationError>(
                Scan { pending: numeral_value(d), has_digits: d.len() > 0, ..st },
            )
        } else {
            Err::<Scan, DurationError>(DurationError::Overflow)
        }),
    decreases d.len(),
{
    if d.len() == 0 {
        assert(p + d =~= p);
    } else {
        let d0 = d.drop_last();
        assert(all_digits(d0)) by {
            assert forall|i: int| 0 <= i < d0.len() implies is_digit(#[trigger] d0[i]) by {
                assert(d0[i] == d[i]);
            }
        }
        assert(is_digit(d[d.len() - 1]));
        lemma_scan_digits(p, st, d0);
        assert((p + d).drop_last() =~= p + d0);
        assert((p + d).last() == d.last());
        if numeral_value(d0) > u64::MAX {
            lemma_numeral_value_monotone(d);
        }
    }
}

/// Reading one part (a numeral and its unit) from a clean state.
proof fn lemma_scan_part(p: Seq<char>, st: Scan, d: Seq<char>, unit: char, per: nat, stage: nat)
    requires
        scan(p) == Ok::<Scan, DurationError>(st),
        st.pending == 0,
        !st.has_digits,
        st.stage < stage,
        is_numeral(d),
        unit_of(unit) == Some((per, stage)),
        per >= 1,
    ensures
        scan(p + d.push(unit)) == (if st.total + numeral_value(d) * per <= u64::MAX {
            Ok::<Scan, DurationError>(
                Scan {
                    stage,
                    total: st.total + numeral_value(d) * per,
                    pending: 0,
                    has_digits: false,
                },
            )
        } else {
            Err::<Scan, DurationError>(DurationError::Overflow)
        }),
{
    lemma_scan_digits(p, st, d);
    let t = p + d.push(unit);
    assert(t.drop_last() =~= p + d);
    assert(t.last() == unit);
    assert(!is_digit(unit));
    let v = numeral_value(d);
    assert(v <= v * per) by (nonlinear_arith)
        requires
            per >= 1,
    ;
}

/// Reading an optional part: a missing part leaves the state as it was.
proof fn lemma_scan_optional_part(
    p: Seq<char>,
    st: Scan,
    part: Option<Seq<char>>,
    unit: char,
    per: nat,
    stage: nat,
)
    requires
        scan(p) == Ok::<Scan, DurationError>(st),
        st.pending == 0,
        !st.has_digits,
        st.stage < stage,
        part_ok(part),
        unit_of(unit) == Some((per, stage)),
        per >= 1,
    ensures
        scan(p + part_text(part, unit)) == (if st.total + part_value(part) * per <= u64::MAX {
            Ok::<Scan, DurationError>(
                Scan {
                    stage: if part is Some {
                        stage
                    } else {
                        st.stage
                    },
                    total: st.total + part_value(part) * per,
                    pending: 0,
                    has_digits: false,
                },
            )
        } else {
            Err::<Scan, DurationError>(DurationError::Overflow)
        }),
{
    match part {
        Some(d) => {
            lemma_scan_part(p, st, d, unit, per, stage);
        },
        None => {
            assert(p + part_text(part, unit) =~= p);
        },
    }
}

// ---------------------------------------------------------------- laws

/// Every well-formed duration text is accepted, and stands for the seconds
/// its parts add up to, unless that sum exceeds `u64::MAX`, in which case it
/// is refused as an overflow.
pub proof fn law_well_formed_text_is_accepted(t: DurationText)
    requires
        t.well_formed(),
    ensures
        duration_of(t.written()) == (if t.total() <= u64::MAX {
            Ok::<nat, DurationError>(t.total())
        } else {
            Err::<nat, DurationError>(DurationError::Overflow)
        }),
{
    let ph = part_text(t.hours, 'h');
    let pm = part_text(t.minutes, 'm');
    let ps = part_text(t.seconds, 's');
    let e = Seq::<char>::empty();
    let st0 = scan_start();
    assert(scan(e) == Ok::<Scan, DurationError>(st0));
    lemma_scan_optional_part(e, st0, t.hours, 'h', 3600, 1);
    assert(e + ph =~= ph);
    let hv = part_value(t.hours);
    let mv = part_value(t.minutes);
    let sv = part_value(t.seconds);
    assert(t.written() == ph + pm + ps);
    assert(t.written().len() > 0) by {
        if t.hours is Some {
            assert(ph.len() > 0);
        } else if t.minutes is Some {
            assert(pm.len() > 0);
        } else {
            assert(ps.len() > 0);
        }
    }
    if hv * 3600 > u64::MAX {
        lemma_scan_append_error(ph, pm + ps);
        assert(ph + (pm + ps) =~= t.written());
    } else {
        let st1 = Scan {
            stage: if t.hours is Some {
                1nat
            } else {
                0nat
            },
            total: hv * 3600,
            pending: 0,
            has_digits: false,
        };
        assert(scan(ph) == Ok::<Scan, DurationError>(st1));
        lemma_scan_optional_part(ph, st1, t.minutes, 'm', 60, 2);
        if hv * 3600 + mv * 60 > u64::MAX {
            lemma_scan_append_error(ph + pm, ps);
        } else {
            let st2 = Scan {
                stage: if t.minutes is Some {
                    2nat
                } else {
                    st1.stage
                },
                total: hv * 3600 + mv * 60,
                pending: 0,
                has_digits: false,
            };
            assert(scan(ph + pm) == Ok::<Scan, DurationError>(st2));
            lemma_scan_optional_part(ph + pm, st2, t.seconds, 's', 1, 3);
        }
    }
}

/// Splits a text into the parts closed so far and the digits read since the
/// last unit.
spec fn split_text(s: Seq<char>) -> (DurationText, Seq<char>)
    decreases s.len(),
{
    if s.len() == 0 {
        (DurationText { hours: None, minutes: None, seconds: None }, Seq::empty())
    } else {
        let (g, pending) = split_text(s.drop_last());
        let c = s.last();
        if c == 'h' {
            (DurationText { hours: Some(pending), ..g }, Seq::empty())
        } else if c == 'm' {
            (DurationText { minutes: Some(pending), ..g }, Seq::empty())
        } else if c == 's' {
            (DurationText { seconds: Some(pending), ..g }, Seq::empty())
        } else {
            (g, pending.push(c))
        }
    }
}

/// What an accepted prefix looks like: parts in order, then pending digits.
spec fn accepted_shape(s: Seq<char>, st: Scan, g: DurationText, pending: Seq<char>) -> bool {
    &&& s == g.written() + pending
    &&& part_ok(g.hours)
    &&& part_ok(g.minutes)
    &&& part_ok(g.seconds)
    &&& all_digits(pending)
    &&& st.pending == numeral_value(pending)
    &&& st.has_digits == (pending.len() > 0)
    &&& st.total == g.total()
    &&& st.stage <= 3
    &&& (st.stage < 1 ==> g.hours is None)
    &&& (st.stage < 2 ==> g.minutes is None)
    &&& (st.stage < 3 ==> g.seconds is None)
    &&& (g.hours is Some || g.minutes is Some || g.seconds is Some || st.stage == 0)
}

proof fn lemma_scan_ok_shape(s: Seq<char>)
    requires
        scan(s) is Ok,
    ensures
        accepted_shape(s, scan(s)->Ok_0, split_text(s).0, split_text(s).1),
    decreases s.len(),
{
    if s.len() == 0 {
        let (g, pending) = split_text(s);
        assert(g.written() =~= Seq::<char>::empty());
        assert(s =~= g.written() + pending);
        assert(accepted_shape(s, scan(s)->Ok_0, g, pending));
    } else {
        let s0 = s.drop_last();
        let c = s.last();
        assert(scan(s0) is Ok);
        lemma_scan_ok_shape(s0);
        let st0 = scan(s0)->Ok_0;
        let st = scan(s)->Ok_0;
        let (g0, p0) = split_text(s0);
        let (g, pending) = split_text(s);
        assert(s =~= s0.push(c));
        if is_digit(c) {
            assert(g == g0);
            assert(pending == p0.push(c));
            assert(all_digits(pending)) by {
                assert forall|i: int| 0 <= i < pending.len() implies is_digit(#[trigger] pending[i]) by {
                    if i < p0.len() {
                        assert(pending[i] == p0[i]);
                    }
                }
            }
            assert(pending.drop_last() =~= p0);
            assert(s =~= g.written() + pending);
            assert(st.total == g.total());
        } else {
            assert(st0.has_digits);
            assert(p0.len() > 0);
            assert(is_numeral(p0));
            if c == 'h' {
                assert(g.written() =~= g0.written() + p0.push('h'));
                assert(part_value(g.hours) == numeral_value(p0));
                assert(part_value(g0.hours) == 0);
                assert(st.total == st0.total + st0.pending * 3600);
                assert(g.total() == g0.total() + numeral_value(p0) * 3600);
            } else if c == 'm' {
                assert(g.written() =~= g0.written() + p0.push('m'));
                assert(part_value(g.minutes) == numeral_value(p0));
                assert(part_value(g0.minutes) == 0);
                assert(st.total == st0.total + st0.pending * 60);
                assert(g.total() == g0.total() + numeral_value(p0) * 60);
            } else {
                assert(c == 's');
                assert(g.written() =~= g0.written() + p0.push('s'));
                assert(part_value(g.seconds) == numeral_value(p0));
                assert(part_value(g0.seconds) == 0);
                assert(st.total == st0.total + st0.pending * 1);
                assert(g.total() == g0.total() + numeral_value(p0) * 1);
            }
            assert(pending =~= Seq::<char>::empty());
            assert(s =~= g.written() + pending);
        }
        assert(accepted_shape(s, st, g, pending));
    }
}

/// Only well-formed texts are accepted: whatever is accepted is a sequence
/// of parts in the order `h`, `m`, `s`, each a numeral and its unit, and it
/// stands for the seconds those parts add up to.
pub proof fn law_accepted_text_is_well_formed(s: Seq<char>)
    requires
        duration_of(s) is Ok,
    ensures
        exists|t: DurationText|
            #![trigger t.written()]
            t.well_formed() && t.written() == s && duration_of(s) == Ok::<nat, DurationError>(
                t.total(),
            ),
{
    lemma_scan_ok_shape(s);
    let (g, pending) = split_text(s);
    assert(pending.len() == 0);
    assert(s =~= g.written());
    assert(g.well_formed()) by {
        if !(g.hours is Some || g.minutes is Some || g.seconds is Some) {
            assert(g.written() =~= Seq::<char>::empty());
        }
    }
    assert(g.written() == s);
}

/// The first character that cannot be read, left to right, decides why a
/// text is refused, and nothing after it changes that: a non-digit where a
/// number is due is a missing number; after a number, a character other than
/// `h`, `m`, `s` is an unknown unit; a number whose digits, or whose seconds,
/// or the running total, pass `u64::MAX` is an overflow (checked in that
/// order); a unit that is not later in `h`, `m`, `s` than the last one is out
/// of order.
pub proof fn law_first_violation_decides(s: Seq<char>, k: int)
    requires
        0 <= k < s.len(),
        scan(s.take(k)) is Ok,
        scan_step(scan(s.take(k))->Ok_0, s[k]) is Err,
    ensures
        duration_of(s) == Err::<nat, DurationError>(scan_step(scan(s.take(k))->Ok_0, s[k])->Err_0),
        forall|rest: Seq<char>| #[trigger] duration_of(s.take(k + 1) + rest) == duration_of(s),
{
    let p = s.take(k + 1);
    assert(p.drop_last() =~= s.take(k));
    assert(p.last() == s[k]);
    assert(scan(p) == scan_step(scan(s.take(k))->Ok_0, s[k]));
    lemma_scan_append_error(p, s.skip(k + 1));
    assert(p + s.skip(k + 1) =~= s);
    assert forall|rest: Seq<char>| #[trigger] duration_of(s.take(k + 1) + rest) == duration_of(s) by {
        lemma_scan_append_error(p, rest);
        assert((p + rest).len() > 0);
    }
}

proof fn lemma_scan_bounded(s: Seq<char>)
    requires
        scan(s) is Ok,
    ensures
        scan(s)->Ok_0.total <= u64::MAX,
        scan(s)->Ok_0.pending <= u64::MAX,
    decreases s.len(),
{
    if s.len() > 0 {
        lemma_scan_bounded(s.drop_last());
    }
}

/// Every accepted duration fits in `u64` seconds.
pub proof fn law_accepted_duration_fits(s: Seq<char>)
    requires
        duration_of(s) is Ok,
    ensures
        duration_of(s)->Ok_0 <= u64::MAX,
{
    lemma_scan_bounded(s);
}

} // verus!
