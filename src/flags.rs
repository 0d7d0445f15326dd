//! Reading the global flags out of an argument list, and removing them from it.
use vstd::prelude::*;

use crate::text::str_eq;

verus! {

/// What one argument means to the global-flag scan.
#[derive(PartialEq, Eq, Structural, Clone, Copy, Debug)]
pub enum FlagKind {
    /// `--json`
    Json,
    /// `--full` or `-f`
    Full,
    /// `--headed`
    Headed,
    /// `--debug`
    Debug,
    /// `--session <value>`
    Session,
    /// `--executable-path <value>`
    ExecutablePath,
    /// Anything else: a command or one of its arguments.
    Other,
}

/// The kind of a token, by its characters.
pub open spec fn flag_kind(t: Seq<char>) -> FlagKind {
    if t == "--json"@ {
        FlagKind::Json
    } else if t == "--full"@ || t == "-f"@ {
        FlagKind::Full
    } else if t == "--headed"@ {
        FlagKind::Headed
    } else if t == "--debug"@ {
        FlagKind::Debug
    } else if t == "--session"@ {
        FlagKind::Session
    } else if t == "--executable-path"@ {
        FlagKind::ExecutablePath
    } else {
        FlagKind::Other
    }
}

/// A flag that takes the next token as its value.
pub open spec fn takes_value(k: FlagKind) -> bool {
    k == FlagKind::Session || k == FlagKind::ExecutablePath
}

/// The characters of each argument.
pub open spec fn tokens(args: Seq<String>) -> Seq<Seq<char>> {
    args.map_values(|s: String| s@)
}

/// Classifies one argument.
pub fn classify(arg: &str) -> (r: FlagKind)
    ensures
        r == flag_kind(arg@),
{
    if str_eq(arg, "--json") {
        FlagKind::Json
    } else if str_eq(arg, "--full") || str_eq(arg, "-f") {
        FlagKind::Full
    } else if str_eq(arg, "--headed") {
        FlagKind::Headed
    } else if str_eq(arg, "--debug") {
        FlagKind::Debug
    } else if str_eq(arg, "--session") {
        FlagKind::Session
    } else if str_eq(arg, "--executable-path") {
        FlagKind::ExecutablePath
    } else {
        FlagKind::Other
    }
}

/// The configuration that the global flags set.
#[derive(Debug, PartialEq, Eq)]
pub struct Flags {
    pub json: bool,
    pub full: bool,
    pub headed: bool,
    pub debug: bool,
    pub session: String,
    pub executable_path: Option<String>,
}

/// `Flags` with its text as characters.
pub struct FlagsModel {
    pub json: bool,
    pub full: bool,
    pub headed: bool,
    pub debug: bool,
    pub session: Seq<char>,
    pub executable_path: Option<Seq<char>>,
}

/// An optional string as optional characters.
pub open spec fn opt_view(o: Option<String>) -> Option<Seq<char>> {
    match o {
        Some(s) => Some(s@),
        None => None,
    }
}

impl View for Flags {
    type V = FlagsModel;

    open spec fn view(&self) -> FlagsModel {
        FlagsModel {
            json: self.json,
            full: self.full,
            headed: self.headed,
            debug: self.debug,
            session: self.session@,
            executable_path: opt_view(self.executable_path),
        }
    }
}

/// The configuration before any flag is read: every switch off, the session
/// from the environment's value or else `default`, the executable path from
/// the environment's value if there is one.
pub open spec fn initial_model(
    session_env: Option<Seq<char>>,
    executable_path_env: Option<Seq<char>>,
) -> FlagsModel {
    FlagsModel {
        json: false,
        full: false,
        headed: false,
        debug: false,
        session: match session_env {
            Some(s) => s,
            None => "default"@,
        },
        executable_path: executable_path_env,
    }
}

/// The configuration after scanning `a` from the left, starting from `m`.
/// A value flag takes the next token, whatever it is, as its value; a value
/// flag with nothing after it changes nothing. Other tokens are passed over.
pub open spec fn parse_from(a: Seq<Seq<char>>, m: FlagsModel) -> FlagsModel
    decreases a.len(),
{
    if a.len() == 0 {
        m
    } else {
        let rest = a.drop_first();
        match flag_kind(a[0]) {
            FlagKind::Json => parse_from(rest, FlagsModel { json: true, ..m }),
            FlagKind::Full => parse_from(rest, FlagsModel { full: true, ..m }),
            FlagKind::Headed => parse_from(rest, FlagsModel { headed: true, ..m }),
            FlagKind::Debug => parse_from(rest, FlagsModel { debug: true, ..m }),
            FlagKind::Session => if a.len() >= 2 {
                parse_from(a.subrange(2, a.len() as int), FlagsModel { session: a[1], ..m })
            } else {
                m
            },
            FlagKind::ExecutablePath => if a.len() >= 2 {
                parse_from(
                    a.subrange(2, a.len() as int),
                    FlagsModel { executable_path: Some(a[1]), ..m },
                )
            } else {
                m
            },
            FlagKind::Other => parse_from(rest, m),
        }
    }
}

/// Marks, token by token, what the scan of `parse_from` reads as a flag or as
/// a flag's value (`true`) and what it passes over (`false`).
pub open spec fn consumed_by_scan(a: Seq<Seq<char>>) -> Seq<bool>
    decreases a.len(),
{
    if a.len() == 0 {
        Seq::empty()
    } else {
        let k = flag_kind(a[0]);
        if takes_value(k) {
            if a.len() >= 2 {
                seq![true, true] + consumed_by_scan(a.subrange(2, a.len() as int))
            } else {
                seq![true]
            }
        } else if k != FlagKind::Other {
            seq![true] + consumed_by_scan(a.drop_first())
        } else {
            seq![false] + consumed_by_scan(a.drop_first())
        }
    }
}

/// Whether the scan of `a` ends on a value flag that has no value after it.
pub open spec fn ends_on_open_flag(a: Seq<Seq<char>>) -> bool
    decreases a.len(),
{
    if a.len() == 0 {
        false
    } else if takes_value(flag_kind(a[0])) {
        if a.len() >= 2 {
            ends_on_open_flag(a.subrange(2, a.len() as int))
        } else {
            true
        }
    } else {
        ends_on_open_flag(a.drop_first())
    }
}

/// The tokens of `a` whose mark is `false`, in order.
pub open spec fn unmarked(a: Seq<Seq<char>>, marks: Seq<bool>) -> Seq<Seq<char>>
    decreases a.len(),
{
    if a.len() == 0 {
        Seq::empty()
    } else {
        let head: Seq<Seq<char>> = if marks[0] {
            Seq::empty()
        } else {
            seq![a[0]]
        };
        head + unmarked(a.drop_first(), marks.drop_first())
    }
}

impl Flags {
    /// The configuration before any flag is read, from the values of the
    /// session and executable-path environment variables.
    pub fn with_defaults(session_env: Option<String>, executable_path_env: Option<String>) -> (r:
        Flags)
        ensures
            r@ == initial_model(opt_view(session_env), opt_view(executable_path_env)),
    {
        let session = match session_env {
            Some(s) => s,
            None => String::from_str("default"),
        };
        Flags {
            json: false,
            full: false,
            headed: false,
            debug: false,
            session,
            executable_path: executable_path_env,
        }
    }
}

/// Reads the global flags in `args` over the defaults that the two
/// environment values give. Never fails.
pub fn parse_flags(
    args: &[String],
    session_env: Option<String>,
    executable_path_env: Option<String>,
) -> (r: Flags)
    ensures
        r@ == parse_from(
            tokens(args@),
            initial_model(opt_view(session_env), opt_view(executable_path_env)),
        ),
{
    let ghost all = tokens(args@);
    let mut flags = Flags::with_defaults(session_env, executable_path_env);
    let ghost start = flags@;
    let n = args.len();
    let mut i: usize = 0;
    assert(all.subrange(0, n as int) =~= all);
    while i < n
        invariant
            n == args@.len(),
            all == tokens(args@),
            i <= n,
            parse_from(all.subrange(i as int, n as int), flags@) == parse_from(all, start),
        decreases n - i,
    {
        let ghost rest = all.subrange(i as int, n as int);
        let arg = &args[i];
        assert(rest[0] == arg@);
        assert(rest.drop_first() =~= all.subrange(i + 1, n as int));
        match classify(arg.as_str()) {
            FlagKind::Json => flags.json = true,
            FlagKind::Full => flags.full = true,
            FlagKind::Headed => flags.headed = true,
            FlagKind::Debug => flags.debug = true,
            FlagKind::Session => {
                if i + 1 < n {
                    assert(rest[1] == args@[i + 1]@);
                    assert(rest.subrange(2, rest.len() as int) =~= all.subrange(i + 2, n as int));
                    flags.session = args[i + 1].clone();
                    i = i + 1;
                }
            },
            FlagKind::ExecutablePath => {
                if i + 1 < n {
                    assert(rest[1] == args@[i + 1]@);
                    assert(rest.subrange(2, rest.len() as int) =~= all.subrange(i + 2, n as int));
                    flags.executable_path = Some(args[i + 1].clone());
                    i = i + 1;
                }
            },
            FlagKind::Other => {},
        }
        proof {
            if i + 1 == n {
                assert(all.subrange(n as int, n as int) =~= Seq::<Seq<char>>::empty());
            }
        }
        i = i + 1;
    }
    assert(all.subrange(n as int, n as int) =~= Seq::<Seq<char>>::empty());
    flags
}

/// The cleaned argument list: each switch is dropped, each value flag is
/// dropped together with the token after it (alone when it is last), and every
/// other token is kept in order.
pub open spec fn clean_spec(a: Seq<Seq<char>>) -> Seq<Seq<char>>
    decreases a.len(),
{
    if a.len() == 0 {
        Seq::empty()
    } else {
        let k = flag_kind(a[0]);
        if takes_value(k) {
            if a.len() >= 2 {
                clean_spec(a.subrange(2, a.len() as int))
            } else {
                Seq::empty()
            }
        } else if k != FlagKind::Other {
            clean_spec(a.drop_first())
        } else {
            seq![a[0]] + clean_spec(a.drop_first())
        }
    }
}

/// Removes the global flags, and the values of the value flags, from `args`.
pub fn clean_args(args: &[String]) -> (r: Vec<String>)
    ensures
        tokens(r@) == clean_spec(tokens(args@)),
{
    let ghost all = tokens(args@);
    let n = args.len();
    let mut result: Vec<String> = Vec::new();
    let mut i: usize = 0;
    assert(all.subrange(0, n as int) =~= all);
    assert(tokens(result@) + clean_spec(all) =~= clean_spec(all));
    while i < n
        invariant
            n == args@.len(),
            all == tokens(args@),
            i <= n,
            tokens(result@) + clean_spec(all.subrange(i as int, n as int)) == clean_spec(all),
        decreases n - i,
    {
        let ghost rest = all.subrange(i as int, n as int);
        let arg = &args[i];
        let k = classify(arg.as_str());
        assert(rest[0] == arg@);
        if k == FlagKind::Session || k == FlagKind::ExecutablePath {
            if i + 1 < n {
                assert(rest.subrange(2, rest.len() as int) =~= all.subrange(i + 2, n as int));
                i = i + 2;
            } else {
                assert(all.subrange(n as int, n as int) =~= Seq::<Seq<char>>::empty());
                i = n;
            }
        } else if k != FlagKind::Other {
            assert(rest.drop_first() =~= all.subrange(i + 1, n as int));
            i = i + 1;
        } else {
            assert(rest.drop_first() =~= all.subrange(i + 1, n as int));
            let ghost before = tokens(result@);
            result.push(arg.clone());
            assert(tokens(result@) =~= before + seq![arg@]);
            i = i + 1;
        }
    }
    assert(all.subrange(n as int, n as int) =~= Seq::<Seq<char>>::empty());
    assert(tokens(result@) + Seq::<Seq<char>>::empty() =~= tokens(result@));
    result
}

} // verus!
