use vstd::prelude::*;

use crate::cli::{
    is_help_flag, is_timeout_flag, is_version_flag, options_of, parse_from, timeout_value,
    Options,
};
use crate::duration::{duration_of, scan, scan_start, scan_step, DurationError, Scan};
use crate::duration::Duration;
use crate::duration_laws::{law_accepted_duration_fits, law_first_violation_decides};
use crate::text::has_prefix;

verus! {

/// Reading from position `i` depends only on the arguments from `i` on.
#[verifier::rlimit(40)]
proof fn lemma_parse_from_suffix(args: Seq<Seq<char>>, i: int, o: Options)
    requires
        0 <= i <= args.len(),
    ensures
        parse_from(args, i, o) == parse_from(args.skip(i), 0, o),
    decreases args.len() - i,
{
    let t = args.skip(i);
    if i == args.len() {
        assert(t.len() == 0);
    } else {
        assert(t[0] == args[i]);
        let a = args[i];
        if is_help_flag(a) {
            let o2 = Options { show_help: true, ..o };
            lemma_parse_from_suffix(args, i + 1, o2);
            lemma_parse_from_suffix(t, 1, o2);
            assert(t.skip(1) =~= args.skip(i + 1));
        } else if is_version_flag(a) {
            let o2 = Options { show_version: true, ..o };
            lemma_parse_from_suffix(args, i + 1, o2);
            lemma_parse_from_suffix(t, 1, o2);
            assert(t.skip(1) =~= args.skip(i + 1));
        } else if is_timeout_flag(a) {
            if i + 1 < args.len() {
                assert(t[1] == args[i + 1]);
                if let Ok(d) = timeout_value(args[i + 1]) {
                    let o2 = Options { timeout: Some(d), ..o };
                    lemma_parse_from_suffix(args, i + 2, o2);
                    lemma_parse_from_suffix(t, 2, o2);
                    assert(t.skip(2) =~= args.skip(i + 2));
                }
            }
        } else if has_prefix(a, "--timeout="@) {
            if let Ok(d) = timeout_value(a.skip("--timeout="@.len() as int)) {
                let o2 = Options { timeout: Some(d), ..o };
                lemma_parse_from_suffix(args, i + 1, o2);
                lemma_parse_from_suffix(t, 1, o2);
                assert(t.skip(1) =~= args.skip(i + 1));
            }
        } else if has_prefix(a, "-t="@) {
            if let Ok(d) = timeout_value(a.skip("-t="@.len() as int)) {
                let o2 = Options { timeout: Some(d), ..o };
                lemma_parse_from_suffix(args, i + 1, o2);
                lemma_parse_from_suffix(t, 1, o2);
                assert(t.skip(1) =~= args.skip(i + 1));
            }
        }
    }
}

/// What a timeout value does to the rest of the command line.
pub open spec fn after_timeout(v: Seq<char>, rest: Seq<Seq<char>>) -> Result<Options, Seq<char>> {
    match timeout_value(v) {
        Ok(d) => parse_from(rest, 0, Options { timeout: Some(d), ..Options::initial() }),
        Err(m) => Err(m),
    }
}

/// The four ways of giving a timeout mean the same: `-t VALUE`,
/// `--timeout VALUE`, `--timeout=VALUE` and `-t=VALUE`, wherever the rest of
/// the command line goes, for any value that does not start with `-` (such a
/// value after `-t` or `--timeout` is refused as a missing value).
pub proof fn law_timeout_forms_agree(program: Seq<char>, v: Seq<char>, rest: Seq<Seq<char>>)
    requires
        !has_prefix(v, "-"@),
    ensures
        options_of(seq![program, "-t"@, v] + rest) == after_timeout(v, rest),
        options_of(seq![program, "--timeout"@, v] + rest) == after_timeout(v, rest),
        options_of(seq![program, "--timeout="@ + v] + rest) == after_timeout(v, rest),
        options_of(seq![program, "-t="@ + v] + rest) == after_timeout(v, rest),
{
    reveal_strlit("-h");
    reveal_strlit("--help");
    reveal_strlit("help");
    reveal_strlit("-V");
    reveal_strlit("--version");
    reveal_strlit("-t");
    reveal_strlit("--timeout");
    reveal_strlit("--timeout=");
    reveal_strlit("-t=");
    let init = Options::initial();
    // `-t VALUE` and `--timeout VALUE`
    let a1 = seq![program, "-t"@, v] + rest;
    let a2 = seq![program, "--timeout"@, v] + rest;
    assert(a1[1] == "-t"@ && a1[2] == v);
    assert(a2[1] == "--timeout"@ && a2[2] == v);
    assert(!is_help_flag("-t"@) && !is_version_flag("-t"@) && is_timeout_flag("-t"@)) by {
        assert("-t"@[1] != "-h"@[1] && "-t"@[1] != "-V"@[1]);
    }
    assert(!is_help_flag("--timeout"@) && !is_version_flag("--timeout"@) && is_timeout_flag(
        "--timeout"@,
    )) by {
        assert("--timeout"@[2] != "--version"@[2]);
    }
    if let Ok(d) = timeout_value(v) {
        let o2 = Options { timeout: Some(d), ..init };
        lemma_parse_from_suffix(a1, 3, o2);
        lemma_parse_from_suffix(a2, 3, o2);
        assert(a1.skip(3) =~= rest);
        assert(a2.skip(3) =~= rest);
    }
    // `--timeout=VALUE`
    let w3 = "--timeout="@ + v;
    let a3 = seq![program, w3] + rest;
    assert(a3[1] == w3);
    assert(w3.len() >= 10);
    assert(!is_help_flag(w3) && !is_version_flag(w3) && !is_timeout_flag(w3));
    assert(w3.take("--timeout="@.len() as int) =~= "--timeout="@);
    assert(w3.skip("--timeout="@.len() as int) =~= v);
    if let Ok(d) = timeout_value(v) {
        let o2 = Options { timeout: Some(d), ..init };
        lemma_parse_from_suffix(a3, 2, o2);
        assert(a3.skip(2) =~= rest);
    }
    // `-t=VALUE`
    let w4 = "-t="@ + v;
    let a4 = seq![program, w4] + rest;
    assert(a4[1] == w4);
    assert(w4[0] == '-' && w4[1] == 't' && w4[2] == '=');
    assert(w4 != "-h"@ && w4 != "--help"@ && w4 != "help"@) by {
        assert(w4.len() != 2 && w4[1] != "--help"@[1] && w4[0] != "help"@[0]);
    }
    assert(w4 != "-V"@ && w4 != "--version"@) by {
        assert(w4.len() != 2 && w4[1] != "--version"@[1]);
    }
    assert(w4 != "-t"@ && w4 != "--timeout"@) by {
        assert(w4.len() != 2 && w4[1] != "--timeout"@[1]);
    }
    assert(!has_prefix(w4, "--timeout="@)) by {
        if has_prefix(w4, "--timeout="@) {
            assert(w4.take(10)[1] == w4[1]);
        }
    }
    assert(w4.take("-t="@.len() as int) =~= "-t="@);
    assert(w4.skip("-t="@.len() as int) =~= v);
    if let Ok(d) = timeout_value(v) {
        let o2 = Options { timeout: Some(d), ..init };
        lemma_parse_from_suffix(a4, 2, o2);
        assert(a4.skip(2) =~= rest);
    }
}

// ---------------------------------------------------------------- units

/// How the words the command line knows differ: no word is of two kinds, and
/// every one but `help` starts with `-`.
proof fn lemma_word_kinds()
    ensures
        forall|a: Seq<char>|
            #[trigger] is_help_flag(a) ==> !is_version_flag(a) && !is_timeout_flag(a) && !has_prefix(
                a,
                "--timeout="@,
            ) && !has_prefix(a, "-t="@) && (has_prefix(a, "-"@) || a == "help"@),
        forall|a: Seq<char>|
            #[trigger] is_version_flag(a) ==> !is_timeout_flag(a) && !has_prefix(a, "--timeout="@)
                && !has_prefix(a, "-t="@) && has_prefix(a, "-"@),
        forall|a: Seq<char>|
            #[trigger] is_timeout_flag(a) ==> !has_prefix(a, "--timeout="@) && !has_prefix(
                a,
                "-t="@,
            ) && has_prefix(a, "-"@),
        forall|a: Seq<char>|
            #[trigger] has_prefix(a, "--timeout="@) ==> !has_prefix(a, "-t="@) && has_prefix(
                a,
                "-"@,
            ),
        forall|a: Seq<char>| #[trigger] has_prefix(a, "-t="@) ==> has_prefix(a, "-"@),
        timeout_value("help"@) is Err,
{
    reveal_strlit("-h");
    reveal_strlit("--help");
    reveal_strlit("help");
    reveal_strlit("-V");
    reveal_strlit("--version");
    reveal_strlit("-t");
    reveal_strlit("--timeout");
    reveal_strlit("--timeout=");
    reveal_strlit("-t=");
    reveal_strlit("-");
    assert forall|a: Seq<char>| #[trigger] has_prefix(a, "--timeout="@) implies !has_prefix(
        a,
        "-t="@,
    ) && has_prefix(a, "-"@) by {
        assert(a[1] == "--timeout="@[1]);
        if has_prefix(a, "-t="@) {
            assert(a[1] == "-t="@[1]);
        }
        assert(a.take(1) =~= "-"@);
    }
    assert forall|a: Seq<char>| #[trigger] has_prefix(a, "-t="@) implies has_prefix(a, "-"@) by {
        assert(a[0] == "-t="@[0]);
        assert(a.take(1) =~= "-"@);
    }
    assert("-h"@.take(1) =~= "-"@);
    assert("--help"@.take(1) =~= "-"@);
    assert("-V"@.take(1) =~= "-"@);
    assert("--version"@.take(1) =~= "-"@);
    assert("-t"@.take(1) =~= "-"@);
    assert("--timeout"@.take(1) =~= "-"@);
    assert(!has_prefix("--help"@, "-t="@)) by {
        assert("--help"@.take(3)[1] != "-t="@[1]);
    }
    assert(!has_prefix("help"@, "-t="@)) by {
        assert("help"@.take(3)[0] != "-t="@[0]);
    }
    assert(!has_prefix("--version"@, "-t="@)) by {
        assert("--version"@.take(3)[1] != "-t="@[1]);
    }
    assert(!has_prefix("--timeout"@, "-t="@)) by {
        assert("--timeout"@.take(3)[1] != "-t="@[1]);
    }
    assert("-h"@ != "-V"@ && "-h"@ != "-t"@) by {
        assert("-h"@[1] != "-V"@[1] && "-h"@[1] != "-t"@[1]);
    }
    assert("-V"@ != "-t"@) by {
        assert("-V"@[1] != "-t"@[1]);
    }
    assert("--help"@ != "--timeout"@) by {
        assert("--help"@[2] != "--timeout"@[2]);
    }
    assert("--version"@ != "--timeout"@) by {
        assert("--version"@[2] != "--timeout"@[2]);
    }
    assert("help"@ != "--version"@ && "help"@ != "--timeout"@) by {
        assert("help"@[0] != "--version"@[0]);
    }
    // `help` is no duration: it starts with a unit where a number is due.
    let h = "help"@;
    assert(h.take(0) =~= Seq::<char>::empty());
    assert(scan(Seq::<char>::empty()) == Ok::<Scan, DurationError>(
        scan_start(),
    ));
    assert(scan_step(scan_start(), h[0]) is Err);
    law_first_violation_decides(h, 0);
    assert(duration_of(h) is Err);
}

/// How many arguments the unit starting at `i` takes: a timeout flag takes
/// the argument after it, when there is one.
pub open spec fn unit_len(args: Seq<Seq<char>>, i: int) -> int {
    if is_timeout_flag(args[i]) && i + 1 < args.len() {
        2
    } else {
        1
    }
}

/// The error line for the unit starting at `i`, if that unit is refused.
pub open spec fn refusal(args: Seq<Seq<char>>, i: int) -> Option<Seq<char>> {
    let a = args[i];
    if is_help_flag(a) || is_version_flag(a) {
        None
    } else if is_timeout_flag(a) {
        if i + 1 >= args.len() || has_prefix(args[i + 1], "-"@) {
            Some("error: "@ + a + " requires a value"@)
        } else {
            match timeout_value(args[i + 1]) {
                Ok(_) => None,
                Err(m) => Some(m),
            }
        }
    } else if has_prefix(a, "--timeout="@) {
        match timeout_value(a.skip("--timeout="@.len() as int)) {
            Ok(_) => None,
            Err(m) => Some(m),
        }
    } else if has_prefix(a, "-t="@) {
        match timeout_value(a.skip("-t="@.len() as int)) {
            Ok(_) => None,
            Err(m) => Some(m),
        }
    } else {
        Some("error: unknown argument '"@ + a + "'"@)
    }
}

/// A unit starts at `k` when reading from `i`, and every unit before it is
/// accepted.
pub open spec fn unit_starts(args: Seq<Seq<char>>, i: int, k: int) -> bool
    decreases args.len() - i,
{
    if i == k {
        true
    } else if 0 <= i < k && i < args.len() && refusal(args, i) is None {
        unit_starts(args, i + unit_len(args, i), k)
    } else {
        false
    }
}

/// What an accepted unit does to the options.
spec fn effect(args: Seq<Seq<char>>, i: int, o: Options) -> Options {
    let a = args[i];
    if is_help_flag(a) {
        Options { show_help: true, ..o }
    } else if is_version_flag(a) {
        Options { show_version: true, ..o }
    } else if is_timeout_flag(a) {
        Options { timeout: Some(timeout_value(args[i + 1])->Ok_0), ..o }
    } else if has_prefix(a, "--timeout="@) {
        Options { timeout: Some(timeout_value(a.skip("--timeout="@.len() as int))->Ok_0), ..o }
    } else {
        Options { timeout: Some(timeout_value(a.skip("-t="@.len() as int))->Ok_0), ..o }
    }
}

/// Reading one unit: a refused unit ends the reading with its error line.
proof fn lemma_read_unit(args: Seq<Seq<char>>, i: int, o: Options)
    requires
        0 <= i < args.len(),
    ensures
        parse_from(args, i, o) == (match refusal(args, i) {
            Some(m) => Err::<Options, Seq<char>>(m),
            None => parse_from(args, i + unit_len(args, i), effect(args, i, o)),
        }),
{
    lemma_word_kinds();
    let a = args[i];
    let goal = (match refusal(args, i) {
        Some(m) => Err::<Options, Seq<char>>(m),
        None => parse_from(args, i + unit_len(args, i), effect(args, i, o)),
    });
    if is_help_flag(a) {
        assert(parse_from(args, i, o) == goal);
    } else if is_version_flag(a) {
        assert(parse_from(args, i, o) == goal);
    } else if is_timeout_flag(a) {
        if i + 1 >= args.len() || has_prefix(args[i + 1], "-"@) {
            assert(parse_from(args, i, o) == goal);
        } else {
            assert(unit_len(args, i) == 2);
            assert(parse_from(args, i, o) == goal);
        }
    } else if has_prefix(a, "--timeout="@) {
        assert(parse_from(args, i, o) == goal);
    } else if has_prefix(a, "-t="@) {
        assert(parse_from(args, i, o) == goal);
    } else {
        assert(parse_from(args, i, o) == goal);
    }
}

proof fn lemma_unit_starts_bound(args: Seq<Seq<char>>, i: int, k: int)
    requires
        unit_starts(args, i, k),
    ensures
        i <= k,
    decreases args.len() - i,
{
    if i != k {
        lemma_unit_starts_bound(args, i + unit_len(args, i), k);
    }
}

/// Reading from `i` reaches the refused unit at `k` and stops there, on any
/// command line that agrees with `args` up to the end of that unit.
proof fn lemma_reading_stops_at_refusal(
    args: Seq<Seq<char>>,
    args2: Seq<Seq<char>>,
    i: int,
    k: int,
    o: Options,
)
    requires
        0 <= i <= k < args.len(),
        unit_starts(args, i, k),
        refusal(args, k) is Some,
        args2.len() >= k + unit_len(args, k),
        forall|j: int| 0 <= j < k + unit_len(args, k) ==> args2[j] == args[j],
        refusal(args2, k) == refusal(args, k),
    ensures
        parse_from(args2, i, o) == Err::<Options, Seq<char>>(refusal(args, k)->Some_0),
    decreases k - i,
{
    lemma_read_unit(args2, i, o);
    if i < k {
        let u = unit_len(args, i);
        lemma_unit_starts_bound(args, i + u, k);
        assert(args2[i] == args[i]);
        if is_timeout_flag(args[i]) {
            assert(i + 1 < args.len());
            assert(args2[i + 1] == args[i + 1]);
        }
        assert(unit_len(args2, i) == u);
        assert(refusal(args2, i) == refusal(args, i));
        lemma_reading_stops_at_refusal(args, args2, i + u, k, effect(args2, i, o));
    }
}

/// The first refused unit, left to right, decides the error line of the whole
/// command line; no argument after that unit changes it (except that a
/// timeout flag at the very end is refused only while nothing follows it).
pub proof fn law_first_refusal_decides(args: Seq<Seq<char>>, k: int)
    requires
        1 <= k < args.len(),
        unit_starts(args, 1, k),
        refusal(args, k) is Some,
    ensures
        options_of(args) == Err::<Options, Seq<char>>(refusal(args, k)->Some_0),
        !(is_timeout_flag(args[k]) && k + 1 == args.len()) ==> forall|rest: Seq<Seq<char>>|
            #[trigger] options_of(args.take(k + unit_len(args, k)) + rest) == options_of(args),
{
    lemma_reading_stops_at_refusal(args, args, 1, k, Options::initial());
    if !(is_timeout_flag(args[k]) && k + 1 == args.len()) {
        assert forall|rest: Seq<Seq<char>>|
            #[trigger] options_of(args.take(k + unit_len(args, k)) + rest) == options_of(args) by {
            let args2 = args.take(k + unit_len(args, k)) + rest;
            assert(args2[k] == args[k]);
            if is_timeout_flag(args[k]) {
                assert(args2[k + 1] == args[k + 1]);
            }
            assert(refusal(args2, k) == refusal(args, k));
            lemma_reading_stops_at_refusal(args, args2, 1, k, Options::initial());
        }
    }
}

proof fn lemma_find_refusal(args: Seq<Seq<char>>, i: int, o: Options) -> (k: int)
    requires
        0 <= i,
        parse_from(args, i, o) is Err,
    ensures
        i <= k < args.len(),
        unit_starts(args, i, k),
        refusal(args, k) == Some(parse_from(args, i, o)->Err_0),
    decreases args.len() - i,
{
    lemma_read_unit(args, i, o);
    if refusal(args, i) is Some {
        i
    } else {
        lemma_find_refusal(args, i + unit_len(args, i), effect(args, i, o))
    }
}

/// A command line is refused exactly when one of its units is, and then with
/// the error line of the first refused unit.
pub proof fn law_refused_exactly_at_first_refusal(args: Seq<Seq<char>>)
    ensures
        options_of(args) is Err <==> exists|k: int|
            1 <= k < args.len() && unit_starts(args, 1, k) && #[trigger] refusal(args, k) is Some,
        options_of(args) is Err ==> exists|k: int|
            1 <= k < args.len() && unit_starts(args, 1, k) && #[trigger] refusal(args, k) == Some(
                options_of(args)->Err_0,
            ),
{
    if options_of(args) is Err {
        let k = lemma_find_refusal(args, 1, Options::initial());
        assert(refusal(args, k) is Some);
    }
    assert forall|k: int|
        1 <= k < args.len() && unit_starts(args, 1, k) && #[trigger] refusal(args, k) is Some implies options_of(
        args,
    ) is Err by {
        law_first_refusal_decides(args, k);
    }
}

// ---------------------------------------------------------------- accepted

/// The timeout value given by the argument at `j`, if it gives one.
pub open spec fn timeout_word(args: Seq<Seq<char>>, j: int) -> Option<Seq<char>> {
    let a = args[j];
    if is_timeout_flag(a) {
        if j + 1 < args.len() {
            Some(args[j + 1])
        } else {
            None
        }
    } else if has_prefix(a, "--timeout="@) {
        Some(a.skip("--timeout="@.len() as int))
    } else if has_prefix(a, "-t="@) {
        Some(a.skip("-t="@.len() as int))
    } else {
        None
    }
}

/// The last timeout value given from position `i` on.
pub open spec fn last_timeout(args: Seq<Seq<char>>, i: int) -> Option<Seq<char>>
    decreases args.len() - i,
{
    if i < 0 || i >= args.len() {
        None
    } else {
        match last_timeout(args, i + 1) {
            Some(v) => Some(v),
            None => timeout_word(args, i),
        }
    }
}

pub open spec fn has_help_flag(args: Seq<Seq<char>>, i: int) -> bool {
    exists|j: int| i <= j < args.len() && is_help_flag(#[trigger] args[j])
}

pub open spec fn has_version_flag(args: Seq<Seq<char>>, i: int) -> bool {
    exists|j: int| i <= j < args.len() && is_version_flag(#[trigger] args[j])
}

/// What an accepted reading from `i`, on top of `o0`, ends with.
proof fn lemma_accepted_fields(args: Seq<Seq<char>>, i: int, o0: Options)
    requires
        0 <= i,
        parse_from(args, i, o0) is Ok,
    ensures
        parse_from(args, i, o0)->Ok_0.show_help == (o0.show_help || has_help_flag(args, i)),
        parse_from(args, i, o0)->Ok_0.show_version == (o0.show_version || has_version_flag(
            args,
            i,
        )),
        parse_from(args, i, o0)->Ok_0.timeout == (match last_timeout(args, i) {
            None => o0.timeout,
            Some(v) => Some(timeout_value(v)->Ok_0),
        }),
        last_timeout(args, i) matches Some(v) ==> timeout_value(v) is Ok,
    decreases args.len() - i,
{
    lemma_word_kinds();
    if i >= args.len() {
        assert(!has_help_flag(args, i));
        assert(!has_version_flag(args, i));
    } else {
        lemma_read_unit(args, i, o0);
        let a = args[i];
        let u = unit_len(args, i);
        let o1 = effect(args, i, o0);
        assert(refusal(args, i) is None);
        lemma_accepted_fields(args, i + u, o1);
        // the arguments this unit takes hold no help or version flag beyond `a`
        assert(has_help_flag(args, i) == (is_help_flag(a) || has_help_flag(args, i + u))) by {
            if has_help_flag(args, i) {
                let j = choose|j: int| i <= j < args.len() && is_help_flag(#[trigger] args[j]);
                if j != i && j < i + u {
                    assert(j == i + 1);
                    assert(is_timeout_flag(a));
                    assert(!has_prefix(args[i + 1], "-"@));
                    assert(args[j] == "help"@);
                }
            }
            if has_help_flag(args, i + u) {
                let j = choose|j: int| i + u <= j < args.len() && is_help_flag(#[trigger] args[j]);
                assert(i <= j);
            }
            if is_help_flag(a) {
                assert(is_help_flag(args[i]));
            }
        }
        assert(has_version_flag(args, i) == (is_version_flag(a) || has_version_flag(args, i + u)))
            by {
            if has_version_flag(args, i) {
                let j = choose|j: int| i <= j < args.len() && is_version_flag(#[trigger] args[j]);
                if j != i && j < i + u {
                    assert(j == i + 1);
                    assert(!has_prefix(args[i + 1], "-"@));
                }
            }
            if has_version_flag(args, i + u) {
                let j = choose|j: int|
                    i + u <= j < args.len() && is_version_flag(#[trigger] args[j]);
                assert(i <= j);
            }
            if is_version_flag(a) {
                assert(is_version_flag(args[i]));
            }
        }
        // the last timeout from `i` is the one after this unit, else this unit's
        if u == 2 {
            assert(timeout_word(args, i + 1) is None) by {
                assert(!has_prefix(args[i + 1], "-"@));
            }
            assert(last_timeout(args, i + 1) == (match last_timeout(args, i + 2) {
                Some(v) => Some(v),
                None => timeout_word(args, i + 1),
            }));
        }
        assert(last_timeout(args, i) == (match last_timeout(args, i + u) {
            Some(v) => Some(v),
            None => timeout_word(args, i),
        }));
    }
}

/// An accepted command line asks for help exactly when a help flag occurs
/// in it, for the version exactly when a version flag occurs, and for the
/// timeout that its last timeout value gives (none when none is given).
pub proof fn law_accepted_options(args: Seq<Seq<char>>)
    requires
        options_of(args) is Ok,
    ensures
        options_of(args)->Ok_0.show_help == has_help_flag(args, 1),
        options_of(args)->Ok_0.show_version == has_version_flag(args, 1),
        options_of(args)->Ok_0.timeout == (match last_timeout(args, 1) {
            None => None,
            Some(v) => Some(timeout_value(v)->Ok_0),
        }),
        last_timeout(args, 1) matches Some(v) ==> timeout_value(v) is Ok,
{
    lemma_accepted_fields(args, 1, Options::initial());
}

/// The timeout an accepted command line asks for holds exactly the seconds
/// that its last timeout value stands for as a duration text; with no timeout
/// value there is no timeout.
pub proof fn law_accepted_timeout_is_parsed_seconds(args: Seq<Seq<char>>)
    requires
        options_of(args) is Ok,
    ensures
        last_timeout(args, 1) is None ==> options_of(args)->Ok_0.timeout is None,
        forall|v: Seq<char>|
            #[trigger] last_timeout(args, 1) == Some(v) ==> duration_of(v) is Ok
                && options_of(args)->Ok_0.timeout == Some(Duration { secs: duration_of(v)->Ok_0 as u64 })
                && options_of(args)->Ok_0.timeout->Some_0.secs == duration_of(v)->Ok_0,
{
    law_accepted_options(args);
    if let Some(v) = last_timeout(args, 1) {
        law_accepted_duration_fits(v);
    }
}

} // verus!
