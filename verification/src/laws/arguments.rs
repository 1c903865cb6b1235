//! Laws of what the arguments ask for before they are parsed: help, a version, silence.

use crate::argv;
use crate::argv::{Grammar, LongOption, NamedOption, Subcommand};
use crate::laws::response;
use crate::laws::texts;
use crate::os_text;
use crate::text;
use vstd::prelude::*;
use vstd::utf8;

verus! {

/// An option is found by its name, the first of those that have it.
pub proof fn lemma_option_by_name(options: Seq<LongOption>, name: Seq<char>)
    ensures
        argv::find_option(options, name) is None <==> forall|i: int|
            0 <= i < options.len() ==> (#[trigger] options[i]).long@ != name,
        argv::find_option(options, name) matches Some(option) ==> option.long@ == name && exists|
            i: int,
        |
            0 <= i < options.len() && #[trigger] options[i] == option && forall|j: int|
                0 <= j < i ==> (#[trigger] options[j]).long@ != name,
    decreases options.len(),
{
    if options.len() > 0 && options[0].long@ != name {
        let rest = options.skip(1);
        lemma_option_by_name(rest, name);
        match argv::find_option(rest, name) {
            None => {
                assert forall|i: int| 0 <= i < options.len() implies (#[trigger] options[i]).long@
                    != name by {
                    if i > 0 {
                        assert(rest[i - 1] == options[i]);
                    }
                }
            },
            Some(option) => {
                let i = choose|i: int|
                    0 <= i < rest.len() && #[trigger] rest[i] == option && forall|j: int|
                        0 <= j < i ==> (#[trigger] rest[j]).long@ != name;
                assert(options[i + 1] == option);
                assert forall|j: int| 0 <= j < i + 1 implies (#[trigger] options[j]).long@ != name by {
                    if j > 0 {
                        assert(rest[j - 1] == options[j]);
                    }
                }
            },
        }
    } else if options.len() > 0 {
        assert(options[0] == argv::find_option(options, name)->0);
    }
}

/// Whether a command is called by a name: it is its name or one of its aliases.
pub open spec fn is_called(command: Subcommand, name: Seq<char>) -> bool {
    ||| command.name@ == name
    ||| exists|i: int| 0 <= i < command.aliases@.len() && (#[trigger] command.aliases@[i])@ == name
}

/// A command is found by its name or by an alias, the first of those that are called by it.
pub proof fn lemma_command_by_name(commands: Seq<Subcommand>, name: Seq<char>)
    ensures
        ({
            let k = argv::find_command(commands, name);
            &&& 0 <= k <= commands.len()
            &&& k < commands.len() ==> is_called(commands[k], name)
            &&& forall|j: int| 0 <= j < k ==> !is_called(#[trigger] commands[j], name)
        }),
    decreases commands.len(),
{
    if commands.len() > 0 && !argv::goes_by(commands[0], name) {
        let rest = commands.skip(1);
        lemma_command_by_name(rest, name);
        let k = argv::find_command(commands, name);
        assert forall|j: int| 0 <= j < k implies !is_called(#[trigger] commands[j], name) by {
            if j > 0 {
                assert(rest[j - 1] == commands[j]);
            }
        }
    }
}

/// A long option is written as two dashes and its name, and it may have a value behind an equals
/// sign.
pub proof fn lemma_long_option(arg: Seq<char>, name: Seq<char>)
    requires
        !name.contains('='),
    ensures
        argv::long_name(arg) == Some((name, false)) <==> name.len() > 0 && arg == seq!['-', '-']
            + name,
        argv::long_name(arg) == Some((name, true)) <==> name.len() > 0 && exists|value: Seq<char>|
            arg == #[trigger] (seq!['-'] + seq!['-'] + name + seq!['='] + value),
        argv::long_name(arg) matches Some((found, _)) ==> !found.contains('='),
{
    reveal_strlit("--");
    let dashes = seq!['-', '-'];
    assert("--"@ =~= dashes);
    if arg.len() >= 2 {
        let body = arg.skip(2);
        texts::lemma_split_is_at_the_first(body, '=');
        if arg == dashes + name {
            assert(arg.take(2) =~= dashes);
            assert(body =~= name);
        }
        if argv::long_name(arg) == Some((name, false)) {
            assert(arg =~= dashes + name) by {
                assert(arg =~= arg.take(2) + body);
            }
        }
        if argv::long_name(arg) == Some((name, true)) {
            let value = (text::split_once(body, '=')->0).1;
            assert(arg =~= seq!['-'] + seq!['-'] + name + seq!['='] + value) by {
                assert(arg =~= arg.take(2) + body);
            }
        }
        if exists|value: Seq<char>|
            arg == #[trigger] (seq!['-'] + seq!['-'] + name + seq!['='] + value) {
            let value = choose|value: Seq<char>|
                arg == #[trigger] (seq!['-'] + seq!['-'] + name + seq!['='] + value);
            assert(arg.take(2) =~= dashes);
            assert(body =~= name + seq!['='] + value);
            response::lemma_split_at(body, '=', name, value);
        }
    }
}

/// An option of the command that was chosen goes before one of the same name that stands anywhere.
pub proof fn lemma_own_options_first(arg: Seq<char>, grammar: Grammar, k: int)
    ensures
        argv::option_of(arg, grammar, Some(k)) == match argv::long_name(arg) {
            None => None,
            Some((name, inline)) => match argv::find_option(grammar.commands@[k].options@, name) {
                Some(option) => Some(NamedOption { option, inline }),
                None => argv::option_of(arg, grammar, None),
            },
        },
        argv::option_of(arg, grammar, None) matches Some(found) ==> {
            &&& argv::long_name(arg) == Some((found.option.long@, found.inline))
            &&& argv::find_option(grammar.options@, found.option.long@) == Some(found.option)
        },
{
    if let Some((name, inline)) = argv::long_name(arg) {
        lemma_option_by_name(grammar.options@, name);
    }
}

/// Two dashes alone are never a value. What does not begin with a dash always can be, and so can
/// what is no text; what begins with one can be where the option takes such values, or takes
/// negative numbers and it looks like one.
pub proof fn lemma_what_can_be_a_value(value: Seq<u8>, option: LongOption)
    ensures
        !utf8::valid_utf8(value) ==> argv::can_be_value(value, option),
        utf8::valid_utf8(value) ==> ({
            let s = utf8::decode_utf8(value);
            &&& s == seq!['-', '-'] ==> !argv::can_be_value(value, option)
            &&& s.len() == 0 || s[0] != '-' ==> argv::can_be_value(value, option)
            &&& s != seq!['-', '-'] && option.allow_hyphen_value ==> argv::can_be_value(value, option)
            &&& s.len() > 0 && s[0] == '-' && !option.allow_hyphen_value
                && !option.allow_negative_number ==> !argv::can_be_value(value, option)
            &&& s.len() > 0 && s[0] == '-' && !option.allow_hyphen_value && !argv::looks_negative(s)
                ==> !argv::can_be_value(value, option)
            &&& s != seq!['-', '-'] && option.allow_negative_number && argv::looks_negative(s)
                ==> argv::can_be_value(value, option)
        }),
{
    reveal_strlit("--");
    assert("--"@ =~= seq!['-', '-']);
}

/// A dash and digits look like a negative number. What looks like one is a dash with nothing behind
/// it but digits, at most one point and at most one exponent mark, with a digit before the point and
/// something before and after the mark.
pub proof fn lemma_negative_numbers(s: Seq<char>)
    ensures
        s.len() > 0 && s[0] == '-' && (forall|i: int|
            1 <= i < s.len() ==> '0' <= #[trigger] s[i] <= '9') ==> argv::looks_negative(s),
        argv::looks_negative(s) ==> {
            &&& s.len() > 0 && s[0] == '-'
            &&& forall|i: int|
                1 <= i < s.len() ==> ('0' <= #[trigger] s[i] <= '9' || s[i] == '.' || s[i] == 'e'
                    || s[i] == 'E')
            &&& forall|i: int, j: int|
                1 <= i < j < s.len() ==> !(#[trigger] s[i] == '.' && #[trigger] s[j] == '.')
            &&& forall|i: int, j: int|
                1 <= i < j < s.len() ==> !((#[trigger] s[i] == 'e' || s[i] == 'E') && (
                #[trigger] s[j] == 'e' || s[j] == 'E' || s[j] == '.'))
            &&& s.len() > 1 ==> '0' <= s[1] <= '9' && s.last() != 'e' && s.last() != 'E'
        },
{
    let n = s.skip(1);
    if s.len() > 0 && s[0] == '-' && (forall|i: int|
        1 <= i < s.len() ==> '0' <= #[trigger] s[i] <= '9') {
        assert forall|k: int| 0 <= k < n.len() implies text::is_digit(#[trigger] n[k]) by {
            assert(n[k] == s[k + 1]);
        }
    }
    if argv::looks_negative(s) {
        assert forall|i: int| 1 <= i < s.len() implies ('0' <= #[trigger] s[i] <= '9' || s[i] == '.'
            || s[i] == 'e' || s[i] == 'E') by {
            assert(s[i] == n[i - 1]);
        }
        assert forall|i: int, j: int| 1 <= i < j < s.len() implies !(#[trigger] s[i] == '.'
            && #[trigger] s[j] == '.') by {
            assert(s[i] == n[i - 1]);
            assert(s[j] == n[j - 1]);
        }
        assert forall|i: int, j: int| 1 <= i < j < s.len() implies !((#[trigger] s[i] == 'e' || s[i]
            == 'E') && (#[trigger] s[j] == 'e' || s[j] == 'E' || s[j] == '.')) by {
            assert(s[i] == n[i - 1]);
            assert(s[j] == n[j - 1]);
            assert(argv::is_exponent(n[i - 1]) == (s[i] == 'e' || s[i] == 'E'));
        }
        if s.len() > 1 {
            assert(s[1] == n[0]);
            assert(s.last() == n[n.len() - 1]);
        }
    }
}

/// Whether an argument is a flag of its own: a text that is no option with a value.
pub open spec fn is_flag(arg: Seq<u8>, grammar: Grammar, command: Option<int>, flag: Seq<char>) -> bool {
    &&& os_text::text_of(arg) == Some(flag)
    &&& argv::option_of(flag, grammar, command) matches Some(found) ==> !found.option.takes_value
    &&& arg != argv::separator()
}

/// Once `--quiet` has been seen, silence is asked for unless `--verbose` is somewhere or something
/// is no text.
pub proof fn lemma_quiet_holds(
    args: Seq<Seq<u8>>,
    i: int,
    grammar: Grammar,
    command: Option<int>,
)
    requires
        0 <= i,
        forall|k: int|
            i <= k < args.len() ==> (os_text::text_of(#[trigger] args[k]) matches Some(s) && s
                != "--verbose"@),
    ensures
        argv::quiet_from(args, i, grammar, command, true, false),
    decreases args.len() - i,
{
    if i < args.len() && args[i] != argv::separator() {
        let arg = os_text::text_of(args[i])->0;
        let option = argv::option_of(arg, grammar, command);
        if option is Some && option->0.option.takes_value {
            if let Some(j) = argv::behind_value(args, i, option->0.option, option->0.inline) {
                lemma_quiet_holds(args, j, grammar, command);
            }
        } else {
            lemma_quiet_holds(args, i + 1, grammar, command);
            if command is None {
                lemma_quiet_holds(
                    args,
                    i + 1,
                    grammar,
                    Some(argv::find_command(grammar.commands@, arg)),
                );
            }
        }
    }
}

/// `--quiet` asks for silence, and `--verbose` takes it back, whichever comes first.
pub proof fn lemma_flags_for_silence(
    args: Seq<Seq<u8>>,
    i: int,
    grammar: Grammar,
    command: Option<int>,
    quiet: bool,
    verbose: bool,
)
    requires
        0 <= i < args.len(),
    ensures
        is_flag(args[i], grammar, command, "--verbose"@) ==> !argv::quiet_from(
            args,
            i,
            grammar,
            command,
            quiet,
            verbose,
        ),
        verbose ==> !argv::quiet_from(args, i, grammar, command, quiet, verbose),
        is_flag(args[i], grammar, command, "--quiet"@) && !verbose && (forall|k: int|
            i < k < args.len() ==> (os_text::text_of(#[trigger] args[k]) matches Some(s) && s
                != "--verbose"@)) ==> argv::quiet_from(args, i, grammar, command, quiet, verbose),
{
    reveal_strlit("--verbose");
    reveal_strlit("--quiet");
    assert("--verbose"@.len() != "--quiet"@.len());
    if argv::quiet_from(args, i, grammar, command, quiet, verbose) {
        argv::lemma_quiet_needs_its_flag(args, i, grammar, command, quiet, verbose);
    }
    if is_flag(args[i], grammar, command, "--verbose"@) {
        if argv::quiet_from(args, i + 1, grammar, command, quiet, true) {
            argv::lemma_quiet_needs_its_flag(args, i + 1, grammar, command, quiet, true);
        }
    }
    if is_flag(args[i], grammar, command, "--quiet"@) && (forall|k: int|
        i < k < args.len() ==> (os_text::text_of(#[trigger] args[k]) matches Some(s) && s
            != "--verbose"@)) {
        lemma_quiet_holds(args, i + 1, grammar, command);
    }
}

/// Help is asked for by `-h` and `--help` anywhere, and then the command that was chosen is asked
/// for its help; a version by `-V` and `--version` before any command. Nothing else of the arguments
/// is kept, but for the name of the program.
pub proof fn lemma_help_flags(
    args: Seq<Seq<u8>>,
    i: int,
    grammar: Grammar,
    command: Option<int>,
    flag: Seq<char>,
)
    requires
        0 <= i < args.len(),
        is_flag(args[i], grammar, command, flag),
    ensures
        flag == "-h"@ || flag == "--help"@ ==> (argv::help_from(args, i, grammar, command) matches Some(
            control,
        ) && control == match command {
            Some(k) => seq![
                args[0],
                utf8::encode_utf8(grammar.commands@[k].name@),
                utf8::encode_utf8(flag),
            ],
            None => seq![args[0], utf8::encode_utf8(flag)],
        }),
        (flag == "-V"@ || flag == "--version"@) && command is None ==> (argv::help_from(
            args,
            i,
            grammar,
            command,
        ) matches Some(control) && control == seq![args[0], utf8::encode_utf8(flag)]),
        flag == "help"@ && command is None ==> (argv::help_from(args, i, grammar, command) matches Some(
            control,
        ) && control[0] == args[0] && control[1] == utf8::encode_utf8("help"@) && control.len()
            == if i + 1 < args.len() {
            3int
        } else {
            2
        }),
        flag == "help"@ && command is None && i + 1 < args.len() ==> argv::help_from(
            args,
            i,
            grammar,
            command,
        )->0[2] == if os_text::text_of(args[i + 1]) == Some("-h"@) || os_text::text_of(args[i + 1])
            == Some("--help"@) {
            utf8::encode_utf8("help"@)
        } else {
            args[i + 1]
        },
{
    reveal_strlit("-h");
    reveal_strlit("--help");
    reveal_strlit("-V");
    reveal_strlit("--version");
    reveal_strlit("help");
    assert("-h"@[1] == 'h');
    assert("-V"@[1] == 'V');
    assert(args.skip(i + 1).len() == args.len() - i - 1);
    if i + 1 < args.len() {
        assert(args.skip(i + 1)[0] == args[i + 1]);
    }
}

/// Help or a version is given only where it is asked for, and then all that is left of the arguments
/// is the name of the program and one or two words.
pub proof fn lemma_help_needs_asking(
    args: Seq<Seq<u8>>,
    i: int,
    grammar: Grammar,
    command: Option<int>,
)
    requires
        argv::help_from(args, i, grammar, command) is Some,
    ensures
        exists|k: int|
            i <= k < args.len() && (os_text::text_of(#[trigger] args[k]) matches Some(s) && (s
                == "-h"@ || s == "--help"@ || s == "-V"@ || s == "--version"@ || s == "help"@)),
        argv::help_from(args, i, grammar, command)->0.len() == 2 || argv::help_from(
            args,
            i,
            grammar,
            command,
        )->0.len() == 3,
        argv::help_from(args, i, grammar, command)->0[0] == args[0],
    decreases args.len() - i,
{
    let arg = os_text::text_of(args[i])->0;
    let option = argv::option_of(arg, grammar, command);
    if option is Some && option->0.option.takes_value {
        let j = argv::behind_value(args, i, option->0.option, option->0.inline)->0;
        lemma_help_needs_asking(args, j, grammar, command);
    } else if argv::asks_help(arg) || (command is None && (argv::asks_version(arg) || arg
        == "help"@)) {
        assert(os_text::text_of(args[i]) == Some(arg));
    } else if option is Some && !option->0.inline {
        lemma_help_needs_asking(args, i + 1, grammar, command);
    } else {
        lemma_help_needs_asking(
            args,
            i + 1,
            grammar,
            Some(argv::find_command(grammar.commands@, arg)),
        );
    }
}

/// The value of an option is passed over: neither silence nor help is asked for by it, whatever it
/// is.
pub proof fn lemma_values_ask_for_nothing(
    a: Seq<Seq<u8>>,
    value: Seq<u8>,
    i: int,
    grammar: Grammar,
    command: Option<int>,
    quiet: bool,
    verbose: bool,
)
    requires
        1 <= i,
        i + 1 < a.len(),
        a[i] != argv::separator(),
        os_text::text_of(a[i]) matches Some(arg) && (argv::option_of(arg, grammar, command) matches
            Some(found) && found.option.takes_value && !found.inline && argv::can_be_value(
            a[i + 1],
            found.option,
        ) && argv::can_be_value(value, found.option)),
    ensures
        ({
            let b = a.update(i + 1, value);
            &&& argv::quiet_from(a, i, grammar, command, quiet, verbose) == argv::quiet_from(
                b,
                i,
                grammar,
                command,
                quiet,
                verbose,
            )
            &&& argv::help_from(a, i, grammar, command) == argv::help_from(b, i, grammar, command)
        }),
{
    let b = a.update(i + 1, value);
    assert(a[i] == b[i]);
    lemma_same_behind(a, b, i + 2, grammar, command, quiet, verbose);
}

/// The first argument that is no option and calls a command chooses it, and what follows is read
/// with the options of that command. Without a command chosen, and with one behind its first
/// positional argument, nothing more is looked at.
pub proof fn lemma_positional_arguments(
    a: Seq<Seq<u8>>,
    b: Seq<Seq<u8>>,
    i: int,
    grammar: Grammar,
    k: int,
    quiet: bool,
    verbose: bool,
)
    requires
        1 <= i < a.len(),
        i < b.len(),
        a.take(i + 1) == b.take(i + 1),
        os_text::text_of(a[i]) matches Some(arg) && !(arg.len() > 0 && arg[0] == '-') && arg
            != "help"@,
    ensures
        ({
            let arg = os_text::text_of(a[i])->0;
            let called = argv::find_command(grammar.commands@, arg);
            &&& called < grammar.commands@.len() ==> argv::quiet_from(
                a,
                i,
                grammar,
                None,
                quiet,
                verbose,
            ) == argv::quiet_from(a, i + 1, grammar, Some(called), quiet, verbose)
            &&& called < grammar.commands@.len() ==> argv::help_from(a, i, grammar, None)
                == argv::help_from(a, i + 1, grammar, Some(called))
            &&& called >= grammar.commands@.len() ==> argv::quiet_from(
                a,
                i,
                grammar,
                None,
                quiet,
                verbose,
            ) == argv::quiet_from(b, i, grammar, None, quiet, verbose)
            &&& called >= grammar.commands@.len() ==> argv::help_from(a, i, grammar, None) is None
            &&& argv::quiet_from(a, i, grammar, Some(k), quiet, verbose) == argv::quiet_from(
                b,
                i,
                grammar,
                Some(k),
                quiet,
                verbose,
            )
            &&& argv::quiet_from(a, i, grammar, Some(k), quiet, verbose) == (quiet && !verbose)
            &&& argv::help_from(a, i, grammar, Some(k)) is None
        }),
{
    reveal_strlit("--");
    reveal_strlit("--quiet");
    reveal_strlit("--verbose");
    reveal_strlit("-h");
    reveal_strlit("--help");
    reveal_strlit("-V");
    reveal_strlit("--version");
    let arg = os_text::text_of(a[i])->0;
    assert(a.take(i + 1)[i] == b.take(i + 1)[i]);
    assert(a[i] == b[i]);
    assert(argv::long_name(arg) is None) by {
        if text::begins(arg, "--"@) {
            assert(arg.take(2)[0] == '-');
        }
    }
    assert(a[i] != argv::separator()) by {
        argv::lemma_separator_is_no_value(grammar.options@[0]);
        assert("--"@[0] == '-');
    }
    lemma_command_by_name(grammar.commands@, arg);
}

proof fn lemma_same_behind(
    a: Seq<Seq<u8>>,
    b: Seq<Seq<u8>>,
    i: int,
    grammar: Grammar,
    command: Option<int>,
    quiet: bool,
    verbose: bool,
)
    requires
        1 <= i,
        a.len() == b.len(),
        a.len() > 0,
        a[0] == b[0],
        forall|k: int| i <= k < a.len() ==> #[trigger] a[k] == b[k],
    ensures
        argv::quiet_from(a, i, grammar, command, quiet, verbose) == argv::quiet_from(
            b,
            i,
            grammar,
            command,
            quiet,
            verbose,
        ),
        argv::help_from(a, i, grammar, command) == argv::help_from(b, i, grammar, command),
    decreases a.len() - i,
{
    if i < a.len() && a[i] != argv::separator() && os_text::text_of(a[i]) is Some {
        let arg = os_text::text_of(a[i])->0;
        let option = argv::option_of(arg, grammar, command);
        assert(a.skip(i + 1) =~= b.skip(i + 1));
        if i + 1 < a.len() {
            assert(a[i + 1] == b[i + 1]);
        }
        if option is Some && option->0.option.takes_value {
            if let Some(j) = argv::behind_value(a, i, option->0.option, option->0.inline) {
                lemma_same_behind(a, b, j, grammar, command, quiet, verbose);
            }
        } else {
            lemma_same_behind(a, b, i + 1, grammar, command, quiet, verbose);
            lemma_same_behind(a, b, i + 1, grammar, command, true, verbose);
            lemma_same_behind(a, b, i + 1, grammar, command, quiet, true);
            let chosen = Some(argv::find_command(grammar.commands@, arg));
            if command is None {
                lemma_same_behind(a, b, i + 1, grammar, chosen, quiet, verbose);
            }
        }
    }
}

} // verus!
