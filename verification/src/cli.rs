use vstd::prelude::*;
use vstd::string::*;

use crate::duration::{duration_of, parse_duration, Duration};
use crate::text::{chars_of, contains_text, has_prefix, owned, same_text, starts_with_text};

verus! {

broadcast use vstd::string::group_string_axioms;

/// What the command line asks for.
#[derive(Clone, Copy, Debug, PartialEq, Eq, Structural)]
pub struct Options {
    pub show_help: bool,
    pub show_version: bool,
    /// How long to stay awake; `None` means until interrupted.
    pub timeout: Option<Duration>,
}

impl Options {
    pub open spec fn initial() -> Options {
        Options { show_help: false, show_version: false, timeout: None }
    }

    /// Options as they stand before any argument is read.
    pub fn new() -> (o: Options)
        ensures
            o == Options::initial(),
    {
        Options { show_help: false, show_version: false, timeout: None }
    }
}

/// The timeout a value stands for, or the error line that refuses it.
pub open spec fn timeout_value(v: Seq<char>) -> Result<Duration, Seq<char>> {
    match duration_of(v) {
        Ok(secs) => Ok(Duration { secs: secs as u64 }),
        Err(e) => Err("error: invalid timeout: "@ + e.text()),
    }
}

pub open spec fn is_help_flag(a: Seq<char>) -> bool {
    a == "-h"@ || a == "--help"@ || a == "help"@
}

pub open spec fn is_version_flag(a: Seq<char>) -> bool {
    a == "-V"@ || a == "--version"@
}

pub open spec fn is_timeout_flag(a: Seq<char>) -> bool {
    a == "-t"@ || a == "--timeout"@
}

/// Reads the arguments from position `i` on, on top of `o`.
pub open spec fn parse_from(args: Seq<Seq<char>>, i: int, o: Options) -> Result<Options, Seq<char>>
    decreases args.len() - i,
{
    if i < 0 || i >= args.len() {
        Ok(o)
    } else {
        let a = args[i];
        if is_help_flag(a) {
            parse_from(args, i + 1, Options { show_help: true, ..o })
        } else if is_version_flag(a) {
            parse_from(args, i + 1, Options { show_version: true, ..o })
        } else if is_timeout_flag(a) {
            if i + 1 >= args.len() || has_prefix(args[i + 1], "-"@) {
                Err("error: "@ + a + " requires a value"@)
            } else {
                match timeout_value(args[i + 1]) {
                    Ok(d) => parse_from(args, i + 2, Options { timeout: Some(d), ..o }),
                    Err(m) => Err(m),
                }
            }
        } else if has_prefix(a, "--timeout="@) {
            match timeout_value(a.skip("--timeout="@.len() as int)) {
                Ok(d) => parse_from(args, i + 1, Options { timeout: Some(d), ..o }),
                Err(m) => Err(m),
            }
        } else if has_prefix(a, "-t="@) {
            match timeout_value(a.skip("-t="@.len() as int)) {
                Ok(d) => parse_from(args, i + 1, Options { timeout: Some(d), ..o }),
                Err(m) => Err(m),
            }
        } else {
            Err("error: unknown argument '"@ + a + "'"@)
        }
    }
}

/// What a whole command line asks for; its first word names the program.
pub open spec fn options_of(args: Seq<Seq<char>>) -> Result<Options, Seq<char>> {
    parse_from(args, 1, Options::initial())
}

/// The characters of each argument.
pub open spec fn arg_texts(args: Seq<String>) -> Seq<Seq<char>> {
    args.map_values(|a: String| a@)
}

/// Parses a timeout value and stores it, or reports why it is invalid.
pub fn set_timeout(options: &mut Options, value: &str) -> (r: Result<(), String>)
    ensures
        match timeout_value(value@) {
            Ok(d) => r is Ok && *final(options) == Options { timeout: Some(d), ..*old(options) },
            Err(m) => r matches Err(e) && e@ == m && *final(options) == *old(options),
        },
        duration_of(value@) is Ok ==> r is Ok && final(options).timeout is Some
            && final(options).timeout->Some_0.secs == duration_of(value@)->Ok_0,
        duration_of(value@) is Ok ==> final(options).show_help == old(options).show_help
            && final(options).show_version == old(options).show_version,
        duration_of(value@) is Err ==> r is Err && *final(options) == *old(options),
{
    match parse_duration(value) {
        Ok(d) => {
            options.timeout = Some(d);
            Ok(())
        },
        Err(e) => {
            let mut m = owned("error: invalid timeout: ");
            m.append(e.as_str());
            Err(m)
        },
    }
}

/// Parses the command line; `args[0]` is the program name.
pub fn parse_args(args: &[String]) -> (r: Result<Options, String>)
    ensures
        match options_of(arg_texts(args@)) {
            Ok(o) => r == Ok::<Options, String>(o),
            Err(m) => r matches Err(e) && e@ == m,
        },
{
    let ghost texts = arg_texts(args@);
    let mut options = Options::new();
    let mut i: usize = 1;
    while i < args.len()
        invariant
            texts == arg_texts(args@),
            texts.len() == args@.len(),
            1 <= i,
            parse_from(texts, i as int, options) == options_of(texts),
        decreases args.len() - i,
    {
        let arg: &str = args[i].as_str();
        assert(arg@ == texts[i as int]);
        if same_text(arg, "-h") || same_text(arg, "--help") || same_text(arg, "help") {
            options.show_help = true;
        } else if same_text(arg, "-V") || same_text(arg, "--version") {
            options.show_version = true;
        } else if same_text(arg, "-t") || same_text(arg, "--timeout") {
            if i + 1 >= args.len() {
                let mut m = owned("error: ");
                m.append(arg);
                m.append(" requires a value");
                return Err(m);
            }
            let value: &str = args[i + 1].as_str();
            assert(value@ == texts[i + 1]);
            let value_chars = chars_of(value);
            if starts_with_text(&value_chars, "-") {
                let mut m = owned("error: ");
                m.append(arg);
                m.append(" requires a value");
                return Err(m);
            }
            let stored = set_timeout(&mut options, value);
            if let Err(m) = stored {
                return Err(m);
            }
            i = i + 1;
        } else {
            let arg_chars = chars_of(arg);
            let arg_len = arg.unicode_len();
            if starts_with_text(&arg_chars, "--timeout=") {
                let skip = "--timeout=".unicode_len();
                let value = arg.substring_char(skip, arg_len);
                assert(value@ =~= arg@.skip("--timeout="@.len() as int));
                let stored = set_timeout(&mut options, value);
                if let Err(m) = stored {
                    return Err(m);
                }
            } else if starts_with_text(&arg_chars, "-t=") {
                let skip = "-t=".unicode_len();
                let value = arg.substring_char(skip, arg_len);
                assert(value@ =~= arg@.skip("-t="@.len() as int));
                let stored = set_timeout(&mut options, value);
                if let Err(m) = stored {
                    return Err(m);
                }
            } else {
                let mut m = owned("error: unknown argument '");
                m.append(arg);
                m.append("'");
                return Err(m);
            }
        }
        i = i + 1;
    }
    Ok(options)
}

/// What the program does once its arguments are read: help wins over the
/// version, and either wins over running.
#[derive(Clone, Copy, Debug, PartialEq, Eq, Structural)]
pub enum Plan {
    ShowHelp,
    ShowVersion,
    Run(Option<Duration>),
}

pub fn plan(options: &Options) -> (p: Plan)
    ensures
        p == (if options.show_help {
            Plan::ShowHelp
        } else if options.show_version {
            Plan::ShowVersion
        } else {
            Plan::Run(options.timeout)
        }),
{
    if options.show_help {
        Plan::ShowHelp
    } else if options.show_version {
        Plan::ShowVersion
    } else {
        Plan::Run(options.timeout)
    }
}

pub open spec fn help_spec() -> Seq<char> {
    "Usage: vigil [-t <duration>] [-V] [-h]\n\nKeep your system awake.\n\nFlags:\n  -t, --timeout <duration>  Stay awake for this long (e.g. 2h, 45m, 30s); --timeout=<duration> and -t=<duration> are also accepted. Infinite by default.\n  -h, --help                Print this help.\n  -V, --version             Print the version."@
}

/// The usage text that `--help` prints.
pub fn help_text() -> (text: &'static str)
    ensures
        text@ == help_spec(),
        text@ == "Usage: vigil [-t <duration>] [-V] [-h]\n\nKeep your system awake.\n\nFlags:\n  -t, --timeout <duration>  Stay awake for this long (e.g. 2h, 45m, 30s); --timeout=<duration> and -t=<duration> are also accepted. Infinite by default.\n  -h, --help                Print this help.\n  -V, --version             Print the version."@,
        text@.subrange(0, 12) == "Usage: vigil"@,
        contains_text(text@, "-t, --timeout <duration>  Stay awake for this long"@),
        contains_text(text@, "-h, --help                Print this help."@),
        contains_text(text@, "-V, --version             Print the version."@),
{
    proof {
        reveal_strlit("Usage: vigil [-t <duration>] [-V] [-h]\n\nKeep your system awake.\n\nFlags:\n  -t, --timeout <duration>  Stay awake for this long (e.g. 2h, 45m, 30s); --timeout=<duration> and -t=<duration> are also accepted. Infinite by default.\n  -h, --help                Print this help.\n  -V, --version             Print the version.");
        reveal_strlit("Usage: vigil");
        reveal_strlit("-t, --timeout <duration>  Stay awake for this long");
        reveal_strlit("-h, --help                Print this help.");
        reveal_strlit("-V, --version             Print the version.");
        let t = help_spec();
        assert(t.subrange(0, 12) =~= "Usage: vigil"@);
        assert(t.subrange(74, 74int + "-t, --timeout <duration>  Stay awake for this long"@.len()) =~= "-t, --timeout <duration>  Stay awake for this long"@);
        assert(t.subrange(227, 227int + "-h, --help                Print this help."@.len()) =~= "-h, --help                Print this help."@);
        assert(t.subrange(272, 272int + "-V, --version             Print the version."@.len()) =~= "-V, --version             Print the version."@);
    }
    "Usage: vigil [-t <duration>] [-V] [-h]\n\nKeep your system awake.\n\nFlags:\n  -t, --timeout <duration>  Stay awake for this long (e.g. 2h, 45m, 30s); --timeout=<duration> and -t=<duration> are also accepted. Infinite by default.\n  -h, --help                Print this help.\n  -V, --version             Print the version."
}

/// The line that `--version` prints, for the given package version.
pub fn version_string(version: &str) -> (s: String)
    ensures
        s@ == "vigil "@ + version@,
{
    let mut s = owned("vigil ");
    s.append(version);
    s
}

} // verus!
