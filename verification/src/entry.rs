//! From the raw arguments to the arguments that are parsed, and from a parse error to the end.

use crate::argv;
use crate::argv::Grammar;
use crate::env_expand;
use crate::env_expand::Environment;
use crate::error::{ErrorView, Exit};
use crate::os_text::OsText;
use vstd::prelude::*;

verus! {

/// The arguments to parse.
#[derive(Debug)]
pub struct Prepared {
    pub args: Vec<OsText>,
    /// Whether they ask for silence.
    pub quiet: bool,
}

/// Whether the arguments ask for silence.
pub open spec fn asks_quiet(args: Seq<Seq<u8>>, grammar: Grammar) -> bool {
    argv::quiet_from(args, 1, grammar, None, false, false)
}

/// The arguments to parse: those that ask for help or a version alone where these ask for it, else
/// these with their environment variables expanded. Where one cannot be expanded, the process ends
/// with the code of an invalid configuration, and without a word where what comes before it asks
/// for silence.
pub fn prepare_args(raw_args: Vec<OsText>, env: &Environment, grammar: &Grammar) -> (r:
    core::result::Result<Prepared, Exit>)
    ensures
        ({
            let raw = env_expand::os_views(raw_args@);
            match argv::help_from(raw, 1, *grammar, None) {
                Some(control) => r matches Ok(p) && env_expand::os_views(p.args@) == control,
                None => match r {
                    Ok(p) => p.args@.len() == raw_args@.len() && env_expand::expands_to(
                        raw,
                        env_expand::os_views(p.args@),
                        env@,
                    ),
                    Err(exit) => exists|k: int, partial: Seq<Seq<u8>>, e: ErrorView|
                        {
                            &&& 1 <= k < raw.len()
                            &&& partial.len() == k
                            &&& #[trigger] env_expand::expands_to(raw, partial, env@)
                            &&& #[trigger] env_expand::arg_expansion(raw[k], env@)
                                == core::result::Result::<Seq<u8>, ErrorView>::Err(e)
                            &&& exit.code == #[trigger] e.code()
                            &&& exit.line is Some <==> !asks_quiet(partial + raw.skip(k), *grammar)
                            &&& exit.line matches Some(line) ==> line@ == e.message()
                        },
                },
            }
        }),
        r matches Ok(p) ==> p.quiet == asks_quiet(env_expand::os_views(p.args@), *grammar),
{
    let args = match argv::help_or_version_args(raw_args.as_slice(), grammar) {
        Some(args) => args,
        None => match env_expand::expand_argv_with_partial(raw_args, env) {
            Ok(args) => args,
            Err(failed) => {
                let (e, partial_args, raw_tail) = failed.into_parts();
                let ghost raw = env_expand::os_views(raw_args@);
                let ghost partial = env_expand::os_views(partial_args@);
                let ghost k = partial_args@.len() as int;
                let all = argv::with_raw_tail(partial_args, raw_tail);
                let quiet = argv::requests_quiet(all.as_slice(), grammar);
                proof {
                    assert(env_expand::os_views(all@) =~= partial + raw.skip(k)) by {
                        assert(env_expand::os_views(raw_tail@) == raw.skip(k));
                    }
                    assert(raw[k] == raw_args@[k]@);
                    assert(env_expand::expands_to(raw, partial, env@));
                    assert(env_expand::arg_expansion(raw[k], env@) == core::result::Result::<
                        Seq<u8>,
                        ErrorView,
                    >::Err(e@));
                }
                let exit = e.print_and_exit_code_with_quiet(quiet);
                assert(exit.code == e@.code());
                return Err(exit);
            },
        },
    };
    let quiet = argv::requests_quiet(args.as_slice(), grammar);
    Ok(Prepared { args, quiet })
}

/// How the process ends when the arguments cannot be parsed.
#[derive(Debug)]
pub struct ParseExit {
    pub code: i32,
    /// Whether the message of the parser is printed.
    pub print: bool,
    /// Whether it goes to the standard output.
    pub to_stdout: bool,
}

/// Help and a version are asked for and go to the standard output with code 0; any other parse
/// error ends with code 3, and goes to the standard error unless silence was asked for.
pub fn parse_exit(shows_help_or_version: bool, quiet: bool) -> (r: ParseExit)
    ensures
        r.code == if shows_help_or_version {
            0int
        } else {
            3
        },
        r.print == (shows_help_or_version || !quiet),
        r.to_stdout == shows_help_or_version,
{
    let code: i32 = if shows_help_or_version {
        0
    } else {
        3
    };
    ParseExit {
        code,
        print: shows_help_or_version || !quiet,
        to_stdout: shows_help_or_version,
    }
}

} // verus!
