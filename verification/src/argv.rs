//! What the arguments ask for before they are parsed: help, a version, or silence.

use crate::env_expand;
use crate::os_text;
use crate::os_text::OsText;
use crate::text;
use vstd::prelude::*;
use vstd::utf8;

verus! {

/// A long option of a command.
#[derive(Debug)]
pub struct LongOption {
    /// Its name without the leading dashes.
    pub long: String,
    /// Whether a value belongs to it.
    pub takes_value: bool,
    /// Whether that value may begin with a dash.
    pub allow_hyphen_value: bool,
    /// Whether that value may be a negative number.
    pub allow_negative_number: bool,
}

/// A subcommand.
#[derive(Debug)]
pub struct Subcommand {
    /// Its name.
    pub name: String,
    /// Other names that it goes by.
    pub aliases: Vec<String>,
    /// Its own long options.
    pub options: Vec<LongOption>,
    /// Whether everything behind its first positional argument belongs to that argument.
    pub trailing: bool,
}

/// The grammar of the command line as far as it matters before parsing.
#[derive(Debug)]
pub struct Grammar {
    /// The long options that stand anywhere.
    pub options: Vec<LongOption>,
    /// The subcommands.
    pub commands: Vec<Subcommand>,
}

/// The raw bytes of `--`.
pub open spec fn separator() -> Seq<u8> {
    seq![0x2du8, 0x2du8]
}

/// The first option with this name.
pub open spec fn find_option(options: Seq<LongOption>, long: Seq<char>) -> Option<LongOption>
    decreases options.len(),
{
    if options.len() == 0 {
        None
    } else if options[0].long@ == long {
        Some(options[0])
    } else {
        find_option(options.skip(1), long)
    }
}

/// Whether a subcommand goes by this name.
pub open spec fn goes_by(command: Subcommand, name: Seq<char>) -> bool {
    command.name@ == name || exists|i: int|
        0 <= i < command.aliases@.len() && (#[trigger] command.aliases@[i])@ == name
}

/// The index of the first subcommand that goes by this name, or the number of subcommands.
pub open spec fn find_command(commands: Seq<Subcommand>, name: Seq<char>) -> int
    decreases commands.len(),
{
    if commands.len() == 0 || goes_by(commands[0], name) {
        0
    } else {
        1 + find_command(commands.skip(1), name)
    }
}

/// The name of the long option that an argument is, and whether a value stands behind a `=`.
pub open spec fn long_name(arg: Seq<char>) -> Option<(Seq<char>, bool)> {
    if !text::begins(arg, "--"@) {
        None
    } else {
        let (name, inline) = match text::split_once(arg.skip(2), '=') {
            Some((name, _)) => (name, true),
            None => (arg.skip(2), false),
        };
        if name.len() == 0 {
            None
        } else {
            Some((name, inline))
        }
    }
}

/// An option as an argument names it.
pub struct NamedOption {
    pub option: LongOption,
    /// Whether a value stands behind a `=`.
    pub inline: bool,
}

/// The option that an argument names, looked up in the subcommand first.
pub open spec fn option_of(arg: Seq<char>, grammar: Grammar, command: Option<int>) -> Option<
    NamedOption,
> {
    match long_name(arg) {
        None => None,
        Some((name, inline)) => {
            let own = match command {
                Some(k) => find_option(grammar.commands@[k].options@, name),
                None => None,
            };
            match own {
                Some(option) => Some(NamedOption { option, inline }),
                None => match find_option(grammar.options@, name) {
                    Some(option) => Some(NamedOption { option, inline }),
                    None => None,
                },
            }
        },
    }
}

/// Whether `c` marks an exponent.
pub open spec fn is_exponent(c: char) -> bool {
    c == 'e' || c == 'E'
}

/// Whether a text looks like a negative number: a dash, then digits with at most one dot and
/// behind it at most one exponent mark, neither of which comes first, and the mark not last.
pub open spec fn looks_negative(s: Seq<char>) -> bool {
    let n = s.skip(1);
    &&& text::begins_with(s, '-')
    &&& forall|k: int|
        0 <= k < n.len() ==> {
            ||| text::is_digit(#[trigger] n[k])
            ||| n[k] == '.' && k > 0 && forall|j: int|
                0 <= j < k ==> n[j] != '.' && !is_exponent(n[j])
            ||| is_exponent(n[k]) && k > 0 && k < n.len() - 1 && forall|j: int|
                0 <= j < k ==> !is_exponent(n[j])
        }
}

/// Whether an argument can be the value of the option before it.
pub open spec fn can_be_value(value: Seq<u8>, option: LongOption) -> bool {
    match os_text::text_of(value) {
        None => true,
        Some(s) => s != "--"@ && {
            ||| !text::begins_with(s, '-')
            ||| option.allow_hyphen_value
            ||| option.allow_negative_number && looks_negative(s)
        },
    }
}

/// The index behind an option at `i` and its value, if the value is there.
pub open spec fn behind_value(args: Seq<Seq<u8>>, i: int, option: LongOption, inline: bool) -> Option<
    int,
> {
    if inline {
        Some(i + 1)
    } else if i + 1 < args.len() && can_be_value(args[i + 1], option) {
        Some(i + 2)
    } else {
        None
    }
}

/// Whether an argument asks for help.
pub open spec fn asks_help(arg: Seq<char>) -> bool {
    arg == "-h"@ || arg == "--help"@
}

/// Whether an argument asks for the version.
pub open spec fn asks_version(arg: Seq<char>) -> bool {
    arg == "-V"@ || arg == "--version"@
}

/// The arguments that ask for help or a version and nothing else.
pub open spec fn control(program: Seq<u8>, command: Option<Seq<char>>, flag: Seq<char>) -> Seq<
    Seq<u8>,
> {
    match command {
        Some(name) => seq![program, utf8::encode_utf8(name), utf8::encode_utf8(flag)],
        None => seq![program, utf8::encode_utf8(flag)],
    }
}

/// The arguments that ask for help by the word `help`.
pub open spec fn help_word(program: Seq<u8>, rest: Seq<Seq<u8>>) -> Seq<Seq<u8>> {
    let word = utf8::encode_utf8("help"@);
    if rest.len() == 0 {
        seq![program, word]
    } else if os_text::text_of(rest[0]) matches Some(s) && asks_help(s) {
        seq![program, word, word]
    } else {
        seq![program, word, rest[0]]
    }
}

/// The name of the chosen subcommand.
pub open spec fn chosen_name(grammar: Grammar, command: Option<int>) -> Option<Seq<char>> {
    match command {
        Some(k) => Some(grammar.commands@[k].name@),
        None => None,
    }
}

/// The arguments that ask for the same help or version, read from index `i` on.
pub open spec fn help_from(args: Seq<Seq<u8>>, i: int, grammar: Grammar, command: Option<int>) -> Option<
    Seq<Seq<u8>>,
>
    decreases args.len() - i,
{
    if i < 0 || i >= args.len() || args[i] == separator() {
        None
    } else {
        match os_text::text_of(args[i]) {
            None => None,
            Some(arg) => {
                let option = option_of(arg, grammar, command);
                if option is Some && option->0.option.takes_value {
                    match behind_value(args, i, option->0.option, option->0.inline) {
                        Some(j) => if j > i {
                            help_from(args, j, grammar, command)
                        } else {
                            None
                        },
                        None => None,
                    }
                } else if asks_help(arg) {
                    Some(control(args[0], chosen_name(grammar, command), arg))
                } else if command is None && asks_version(arg) {
                    Some(control(args[0], None, arg))
                } else if command is None && arg == "help"@ {
                    Some(help_word(args[0], args.skip(i + 1)))
                } else if option is Some && !option->0.inline {
                    help_from(args, i + 1, grammar, command)
                } else if command is None && find_command(grammar.commands@, arg)
                    < grammar.commands@.len() {
                    help_from(args, i + 1, grammar, Some(find_command(grammar.commands@, arg)))
                } else {
                    None
                }
            },
        }
    }
}

/// Whether the arguments ask for silence, read from index `i` on, where `quiet` and `verbose` tell
/// what has been asked for before it.
pub open spec fn quiet_from(
    args: Seq<Seq<u8>>,
    i: int,
    grammar: Grammar,
    command: Option<int>,
    quiet: bool,
    verbose: bool,
) -> bool
    decreases args.len() - i,
{
    if i < 0 || i >= args.len() || args[i] == separator() {
        quiet && !verbose
    } else {
        match os_text::text_of(args[i]) {
            None => false,
            Some(arg) => {
                let option = option_of(arg, grammar, command);
                if option is Some && option->0.option.takes_value {
                    match behind_value(args, i, option->0.option, option->0.inline) {
                        Some(j) => if j > i {
                            quiet_from(args, j, grammar, command, quiet, verbose)
                        } else {
                            false
                        },
                        None => quiet && !verbose,
                    }
                } else if arg == "--quiet"@ {
                    quiet_from(args, i + 1, grammar, command, true, verbose)
                } else if arg == "--verbose"@ {
                    quiet_from(args, i + 1, grammar, command, quiet, true)
                } else if option is Some && !option->0.inline {
                    quiet_from(args, i + 1, grammar, command, quiet, verbose)
                } else if command is None && find_command(grammar.commands@, arg)
                    < grammar.commands@.len() {
                    quiet_from(
                        args,
                        i + 1,
                        grammar,
                        Some(find_command(grammar.commands@, arg)),
                        quiet,
                        verbose,
                    )
                } else if command is Some && grammar.commands@[command->0].trailing && asks_help(
                    arg,
                ) {
                    quiet_from(args, i + 1, grammar, command, quiet, verbose)
                } else {
                    quiet && !verbose
                }
            },
        }
    }
}

/// Two dashes alone are never the value of an option.
pub proof fn lemma_separator_is_no_value(option: LongOption)
    ensures
        !can_be_value(separator(), option),
        os_text::text_of(separator()) == Some("--"@),
{
    reveal_strlit("--");
    let dashes = "--"@;
    assert(dashes =~= seq!['-', '-']);
    utf8::is_ascii_chars_encode_utf8(dashes);
    assert(dashes[0] as u8 == 0x2d && dashes[1] as u8 == 0x2d);
    assert(utf8::encode_utf8(dashes) =~= separator());
    utf8::encode_utf8_valid_utf8(dashes);
    utf8::encode_utf8_decode_utf8(dashes);
}

/// What stands behind a `--` has no say in whether the arguments ask for silence.
pub proof fn lemma_quiet_stops_at_separator(
    a: Seq<Seq<u8>>,
    b: Seq<Seq<u8>>,
    end: int,
    i: int,
    grammar: Grammar,
    command: Option<int>,
    quiet: bool,
    verbose: bool,
)
    requires
        0 <= i <= end < a.len(),
        end < b.len(),
        a.take(end + 1) == b.take(end + 1),
        a[end] == separator(),
    ensures
        quiet_from(a, i, grammar, command, quiet, verbose) == quiet_from(
            b,
            i,
            grammar,
            command,
            quiet,
            verbose,
        ),
    decreases end - i,
{
    assert(forall|k: int| 0 <= k <= end ==> a[k] == a.take(end + 1)[k]);
    assert(forall|k: int| 0 <= k <= end ==> b[k] == b.take(end + 1)[k]);
    assert(a[i] == b[i]);
    if i < end && a[i] != separator() {
        if let Some(arg) = os_text::text_of(a[i]) {
            let option = option_of(arg, grammar, command);
            assert(a[i + 1] == b[i + 1]);
            if option is Some {
                lemma_separator_is_no_value(option->0.option);
            }
            lemma_quiet_stops_at_separator(
                a,
                b,
                end,
                i + 1,
                grammar,
                command,
                quiet,
                verbose,
            );
            lemma_quiet_stops_at_separator(a, b, end, i + 1, grammar, command, true, verbose);
            lemma_quiet_stops_at_separator(a, b, end, i + 1, grammar, command, quiet, true);
            lemma_quiet_stops_at_separator(
                a,
                b,
                end,
                i + 1,
                grammar,
                Some(find_command(grammar.commands@, arg)),
                quiet,
                verbose,
            );
            if i + 2 <= end {
                lemma_quiet_stops_at_separator(
                    a,
                    b,
                    end,
                    i + 2,
                    grammar,
                    command,
                    quiet,
                    verbose,
                );
            }
        }
    }
}

/// What stands behind a `--` has no say in whether the arguments ask for help or a version.
pub proof fn lemma_help_stops_at_separator(
    a: Seq<Seq<u8>>,
    b: Seq<Seq<u8>>,
    end: int,
    i: int,
    grammar: Grammar,
    command: Option<int>,
)
    requires
        0 <= i <= end < a.len(),
        end < b.len(),
        a.take(end + 1) == b.take(end + 1),
        a[end] == separator(),
    ensures
        help_from(a, i, grammar, command) == help_from(b, i, grammar, command),
    decreases end - i,
{
    assert(forall|k: int| 0 <= k <= end ==> a[k] == a.take(end + 1)[k]);
    assert(forall|k: int| 0 <= k <= end ==> b[k] == b.take(end + 1)[k]);
    assert(a[i] == b[i] && a[0] == b[0]);
    if i < end && a[i] != separator() {
        if let Some(arg) = os_text::text_of(a[i]) {
            let option = option_of(arg, grammar, command);
            assert(a[i + 1] == b[i + 1]);
            assert(a.skip(i + 1)[0] == b.skip(i + 1)[0]);
            if option is Some {
                lemma_separator_is_no_value(option->0.option);
            }
            lemma_help_stops_at_separator(a, b, end, i + 1, grammar, command);
            lemma_help_stops_at_separator(
                a,
                b,
                end,
                i + 1,
                grammar,
                Some(find_command(grammar.commands@, arg)),
            );
            if i + 2 <= end {
                lemma_help_stops_at_separator(a, b, end, i + 2, grammar, command);
            }
        }
    }
}

/// Silence is asked for only where an argument is `--quiet`, and never once `--verbose` has been
/// read.
pub proof fn lemma_quiet_needs_its_flag(
    args: Seq<Seq<u8>>,
    i: int,
    grammar: Grammar,
    command: Option<int>,
    quiet: bool,
    verbose: bool,
)
    requires
        quiet_from(args, i, grammar, command, quiet, verbose),
    ensures
        !verbose,
        quiet || exists|k: int|
            i <= k < args.len() && os_text::text_of(#[trigger] args[k]) == Some("--quiet"@),
    decreases args.len() - i,
{
    if 0 <= i < args.len() && args[i] != separator() {
        if let Some(arg) = os_text::text_of(args[i]) {
            let option = option_of(arg, grammar, command);
            if option is Some && option->0.option.takes_value {
                if let Some(j) = behind_value(args, i, option->0.option, option->0.inline) {
                    lemma_quiet_needs_its_flag(args, j, grammar, command, quiet, verbose);
                }
            } else if arg == "--quiet"@ {
                assert(os_text::text_of(args[i]) == Some("--quiet"@));
                lemma_quiet_needs_its_flag(args, i + 1, grammar, command, true, verbose);
            } else if arg == "--verbose"@ {
                lemma_quiet_needs_its_flag(args, i + 1, grammar, command, quiet, true);
            } else if option is Some && !option->0.inline {
                lemma_quiet_needs_its_flag(args, i + 1, grammar, command, quiet, verbose);
            } else if command is None && find_command(grammar.commands@, arg)
                < grammar.commands@.len() {
                lemma_quiet_needs_its_flag(
                    args,
                    i + 1,
                    grammar,
                    Some(find_command(grammar.commands@, arg)),
                    quiet,
                    verbose,
                );
            } else if command is Some && grammar.commands@[command->0].trailing && asks_help(arg) {
                lemma_quiet_needs_its_flag(args, i + 1, grammar, command, quiet, verbose);
            }
        }
    }
}

/// The expanded arguments followed by those that are left as they were given.
pub fn with_raw_tail(partial_args: Vec<OsText>, raw_tail: Vec<OsText>) -> (r: Vec<OsText>)
    ensures
        r@ == partial_args@ + raw_tail@,
{
    let mut all = partial_args;
    let mut tail = raw_tail;
    all.append(&mut tail);
    all
}

/// Whether an argument is `--`.
fn is_separator(arg: &OsText) -> (r: bool)
    ensures
        r == (arg@ == separator()),
{
    if arg.bytes.len() == 2 && arg.bytes[0] == 0x2d && arg.bytes[1] == 0x2d {
        assert(arg@ =~= separator());
        true
    } else {
        false
    }
}

/// Whether an argument asks for help.
fn is_help(arg: &str) -> (r: bool)
    ensures
        r == asks_help(arg@),
{
    text::same(arg, "-h") || text::same(arg, "--help")
}

/// Whether an argument asks for the version.
fn is_version(arg: &str) -> (r: bool)
    ensures
        r == asks_version(arg@),
{
    text::same(arg, "-V") || text::same(arg, "--version")
}

/// The name of the long option that an argument is, and whether a value stands behind a `=`.
fn split_long_option(arg: &str) -> (r: Option<(&str, bool)>)
    ensures
        match r {
            Some((name, inline)) => long_name(arg@) == Some((name@, inline)),
            None => long_name(arg@) is None,
        },
{
    if !text::starts_with(arg, "--") {
        return None;
    }
    proof {
        reveal_strlit("--");
    }
    let n: usize = arg.unicode_len();
    let rest = arg.substring_char(2, n);
    assert(rest@ =~= arg@.skip(2));
    let (name, inline) = match text::split_once_char(rest, '=') {
        Some((name, _)) => (name, true),
        None => (rest, false),
    };
    if name.is_empty() {
        return None;
    }
    Some((name, inline))
}

/// The first option with this name.
fn find_long_option<'a>(options: &'a Vec<LongOption>, long: &str) -> (r: Option<&'a LongOption>)
    ensures
        match r {
            Some(option) => find_option(options@, long@) == Some(*option),
            None => find_option(options@, long@) is None,
        },
{
    let mut i: usize = 0;
    assert(options@.skip(0) =~= options@);
    while i < options.len()
        invariant
            i <= options@.len(),
            find_option(options@, long@) == find_option(options@.skip(i as int), long@),
        decreases options.len() - i,
    {
        assert(options@.skip(i as int).skip(1) =~= options@.skip(i + 1));
        if text::same(options[i].long.as_str(), long) {
            return Some(&options[i]);
        }
        i = i + 1;
    }
    None
}

/// Whether a subcommand goes by this name.
fn command_goes_by(command: &Subcommand, name: &str) -> (r: bool)
    ensures
        r == goes_by(*command, name@),
{
    if text::same(command.name.as_str(), name) {
        return true;
    }
    let mut i: usize = 0;
    while i < command.aliases.len()
        invariant
            i <= command.aliases@.len(),
            forall|j: int| 0 <= j < i ==> (#[trigger] command.aliases@[j])@ != name@,
        decreases command.aliases.len() - i,
    {
        if text::same(command.aliases[i].as_str(), name) {
            return true;
        }
        i = i + 1;
    }
    false
}

/// The index of the first subcommand that goes by this name.
fn find_subcommand(commands: &Vec<Subcommand>, name: &str) -> (r: Option<usize>)
    ensures
        match r {
            Some(k) => k == find_command(commands@, name@) && k < commands@.len(),
            None => find_command(commands@, name@) >= commands@.len(),
        },
{
    let mut i: usize = 0;
    assert(commands@.skip(0) =~= commands@);
    while i < commands.len()
        invariant
            i <= commands@.len(),
            find_command(commands@, name@) == i + find_command(commands@.skip(i as int), name@),
        decreases commands.len() - i,
    {
        assert(commands@.skip(i as int).skip(1) =~= commands@.skip(i + 1));
        if command_goes_by(&commands[i], name) {
            return Some(i);
        }
        i = i + 1;
    }
    None
}

/// Whether a text looks like a negative number.
fn is_negative_number_like(value: &str) -> (r: bool)
    ensures
        r == looks_negative(value@),
{
    if !text::starts_with_char(value, '-') {
        return false;
    }
    let v = text::chars_of(text::after_first(value));
    let n: usize = v.len();
    let ghost s = value@.skip(1);
    let mut seen_dot = false;
    let mut exponent: Option<usize> = None;
    let mut i: usize = 0;
    while i < n
        invariant
            text::begins_with(value@, '-'),
            s == value@.skip(1),
            v@ == s,
            n == s.len(),
            i <= n,
            seen_dot <==> exists|j: int| 0 <= j < i && s[j] == '.',
            exponent is None ==> forall|j: int| 0 <= j < i ==> !is_exponent(#[trigger] s[j]),
            exponent matches Some(e) ==> 0 < e < i && is_exponent(s[e as int]) && forall|j: int|
                0 <= j < e ==> !is_exponent(#[trigger] s[j]),
            forall|k: int|
                0 <= k < i ==> {
                    ||| text::is_digit(#[trigger] s[k])
                    ||| s[k] == '.' && k > 0 && forall|j: int|
                        0 <= j < k ==> s[j] != '.' && !is_exponent(s[j])
                    ||| is_exponent(s[k]) && exponent == Some(k as usize)
                },
        decreases n - i,
    {
        let c: char = v[i];
        assert(s[i as int] == c);
        if '0' <= c && c <= '9' {
        } else if c == '.' {
            if seen_dot || exponent.is_some() || i == 0 {
                return false;
            }
            seen_dot = true;
        } else if c == 'e' || c == 'E' {
            if exponent.is_some() || i == 0 {
                return false;
            }
            exponent = Some(i);
        } else {
            return false;
        }
        i = i + 1;
    }
    match exponent {
        Some(e) => {
            assert(is_exponent(s[e as int]));
            e != n - 1
        },
        None => true,
    }
}

/// Whether an argument can be the value of the option before it.
fn value_can_follow_option(value: &OsText, option: &LongOption) -> (r: bool)
    ensures
        r == can_be_value(value@, *option),
{
    match value.to_str() {
        None => true,
        Some(value) => {
            if text::same(value, "--") {
                return false;
            }
            !text::starts_with_char(value, '-') || option.allow_hyphen_value || (
            option.allow_negative_number && is_negative_number_like(value))
        },
    }
}

/// A position in the arguments, and the subcommand that has been read.
struct Scanner<'a> {
    args: &'a [OsText],
    grammar: &'a Grammar,
    command: Option<usize>,
    index: usize,
}

/// What an option that takes a value asks of the scanner.
enum Skip {
    /// Its value has been skipped.
    Consumed,
    /// Its value is missing.
    Missing,
    /// The argument is no such option.
    NotOptionValue,
}

impl<'a> Scanner<'a> {
    spec fn wf(&self) -> bool {
        self.command matches Some(k) ==> k < self.grammar.commands@.len()
    }

    spec fn views(&self) -> Seq<Seq<u8>> {
        env_expand::os_views(self.args@)
    }

    spec fn chosen(&self) -> Option<int> {
        match self.command {
            Some(k) => Some(k as int),
            None => None,
        }
    }

    /// The option that an argument names, and whether a value stands behind a `=`.
    fn option_spec(&self, arg: &str) -> (r: Option<(&'a LongOption, bool)>)
        requires
            self.wf(),
        ensures
            match r {
                Some((option, inline)) => option_of(arg@, *self.grammar, self.chosen()) == Some(
                    NamedOption { option: *option, inline },
                ),
                None => option_of(arg@, *self.grammar, self.chosen()) is None,
            },
    {
        match split_long_option(arg) {
            None => None,
            Some((long, inline)) => {
                if let Some(k) = self.command {
                    if let Some(option) = find_long_option(&self.grammar.commands[k].options, long) {
                        return Some((option, inline));
                    }
                }
                match find_long_option(&self.grammar.options, long) {
                    Some(option) => Some((option, inline)),
                    None => None,
                }
            },
        }
    }

    /// Moves behind an option that takes a value, and behind its value.
    fn skip_option_value(&mut self, arg: &str) -> (r: Skip)
        requires
            old(self).wf(),
            old(self).index < old(self).args@.len(),
        ensures
            ({
                let option = option_of(arg@, *old(self).grammar, old(self).chosen());
                let valued = option is Some && option->0.option.takes_value;
                let end = behind_value(
                    old(self).views(),
                    old(self).index as int,
                    option->0.option,
                    option->0.inline,
                );
                &&& final(self).args == old(self).args
                &&& final(self).grammar == old(self).grammar
                &&& final(self).command == old(self).command
                &&& r is NotOptionValue <==> !valued
                &&& r is Consumed ==> end == Some(final(self).index as int)
                &&& r is Missing ==> end is None
                &&& !(r is Consumed) ==> final(self).index == old(self).index
            }),
            final(self).index >= old(self).index,
            r is Consumed ==> final(self).index > old(self).index,
            final(self).index <= final(self).args@.len(),
    {
        match self.option_spec(arg) {
            None => Skip::NotOptionValue,
            Some((option, inline)) => {
                if !option.takes_value {
                    return Skip::NotOptionValue;
                }
                let n: usize = self.args.len();
                if inline {
                    self.index = self.index + 1;
                    return Skip::Consumed;
                }
                if n - self.index > 1 && value_can_follow_option(
                    &self.args[self.index + 1],
                    option,
                ) {
                    self.index = self.index + 2;
                    return Skip::Consumed;
                }
                Skip::Missing
            },
        }
    }

    /// Whether an argument is a known flag without a value.
    fn is_flag(&self, arg: &str) -> (r: bool)
        requires
            self.wf(),
        ensures
            ({
                let option = option_of(arg@, *self.grammar, self.chosen());
                r == (option is Some && !option->0.option.takes_value && !option->0.inline)
            }),
    {
        match self.option_spec(arg) {
            None => false,
            Some((option, inline)) => !option.takes_value && !inline,
        }
    }

    /// The arguments that ask for the help or the version that these ask for.
    fn help_or_version_args(&mut self) -> (r: Option<Vec<OsText>>)
        requires
            old(self).wf(),
            0 < old(self).args@.len(),
            old(self).index <= old(self).args@.len(),
        ensures
            match r {
                Some(args) => help_from(
                    old(self).views(),
                    old(self).index as int,
                    *old(self).grammar,
                    old(self).chosen(),
                ) == Some(env_expand::os_views(args@)),
                None => help_from(
                    old(self).views(),
                    old(self).index as int,
                    *old(self).grammar,
                    old(self).chosen(),
                ) is None,
            },
    {
        let ghost expected = help_from(
            self.views(),
            self.index as int,
            *self.grammar,
            self.chosen(),
        );
        while self.index < self.args.len()
            invariant
                self.wf(),
                0 < self.args@.len(),
                self.index <= self.args@.len(),
                expected == help_from(
                    old(self).views(),
                    old(self).index as int,
                    *old(self).grammar,
                    old(self).chosen(),
                ),
                expected == help_from(
                    self.views(),
                    self.index as int,
                    *self.grammar,
                    self.chosen(),
                ),
            ensures
                expected is None,
            decreases self.args@.len() - self.index,
        {
            let args = self.args;
            let raw = &args[self.index];
            assert(self.views()[self.index as int] == raw@);
            if is_separator(raw) {
                return None;
            }
            let arg = match raw.to_str() {
                Some(arg) => arg,
                None => {
                    return None;
                },
            };
            match self.skip_option_value(arg) {
                Skip::Consumed => {
                    continue;
                },
                Skip::Missing => {
                    return None;
                },
                Skip::NotOptionValue => {},
            }
            if is_help(arg) {
                let name = match self.command {
                    Some(k) => Some(self.grammar.commands[k].name.as_str()),
                    None => None,
                };
                return Some(control_args(&args[0], name, arg));
            }
            if self.command.is_none() && is_version(arg) {
                return Some(control_args(&args[0], None, arg));
            }
            if self.command.is_none() && text::same(arg, "help") {
                let rest = vstd::slice::slice_subrange(args, self.index + 1, args.len());
                assert(env_expand::os_views(rest@) =~= self.views().skip(self.index + 1));
                return Some(help_subcommand_args(&args[0], rest));
            }
            if self.is_flag(arg) {
                self.index = self.index + 1;
                continue;
            }
            if self.command.is_none() {
                if let Some(k) = find_subcommand(&self.grammar.commands, arg) {
                    self.command = Some(k);
                    self.index = self.index + 1;
                    continue;
                }
            }
            return None;
        }
        None
    }

    /// Whether the arguments ask for silence.
    fn requests_quiet(&mut self) -> (r: bool)
        requires
            old(self).wf(),
            old(self).index <= old(self).args@.len(),
        ensures
            r == quiet_from(
                old(self).views(),
                old(self).index as int,
                *old(self).grammar,
                old(self).chosen(),
                false,
                false,
            ),
    {
        let ghost expected = quiet_from(
            self.views(),
            self.index as int,
            *self.grammar,
            self.chosen(),
            false,
            false,
        );
        let mut quiet = false;
        let mut verbose = false;
        while self.index < self.args.len()
            invariant
                self.wf(),
                self.index <= self.args@.len(),
                expected == quiet_from(
                    old(self).views(),
                    old(self).index as int,
                    *old(self).grammar,
                    old(self).chosen(),
                    false,
                    false,
                ),
                expected == quiet_from(
                    self.views(),
                    self.index as int,
                    *self.grammar,
                    self.chosen(),
                    quiet,
                    verbose,
                ),
            ensures
                expected == (quiet && !verbose),
            decreases self.args@.len() - self.index,
        {
            let args = self.args;
            let raw = &args[self.index];
            assert(self.views()[self.index as int] == raw@);
            if is_separator(raw) {
                return quiet && !verbose;
            }
            let arg = match raw.to_str() {
                Some(arg) => arg,
                None => {
                    return false;
                },
            };
            match self.skip_option_value(arg) {
                Skip::Consumed => {
                    continue;
                },
                Skip::Missing => {
                    return quiet && !verbose;
                },
                Skip::NotOptionValue => {},
            }
            if text::same(arg, "--quiet") {
                quiet = true;
                self.index = self.index + 1;
                continue;
            }
            if text::same(arg, "--verbose") {
                verbose = true;
                self.index = self.index + 1;
                continue;
            }
            if self.is_flag(arg) {
                self.index = self.index + 1;
                continue;
            }
            match self.command {
                None => {
                    if let Some(k) = find_subcommand(&self.grammar.commands, arg) {
                        self.command = Some(k);
                        self.index = self.index + 1;
                        continue;
                    }
                },
                Some(k) => {
                    if self.grammar.commands[k].trailing && is_help(arg) {
                        self.index = self.index + 1;
                        continue;
                    }
                },
            }
            return quiet && !verbose;
        }
        quiet && !verbose
    }
}

/// The arguments that ask for help or a version and nothing else.
fn control_args(program: &OsText, command: Option<&str>, flag: &str) -> (r: Vec<OsText>)
    ensures
        env_expand::os_views(r@) == control(
            program@,
            match command {
                Some(name) => Some(name@),
                None => None,
            },
            flag@,
        ),
{
    let mut args: Vec<OsText> = Vec::new();
    args.push(program.copy());
    if let Some(command) = command {
        args.push(OsText::new(command));
    }
    args.push(OsText::new(flag));
    proof {
        let want = control(
            program@,
            match command {
                Some(name) => Some(name@),
                None => None,
            },
            flag@,
        );
        assert(env_expand::os_views(args@) =~= want);
    }
    args
}

/// The arguments that ask for help by the word `help`.
fn help_subcommand_args(program: &OsText, rest: &[OsText]) -> (r: Vec<OsText>)
    ensures
        env_expand::os_views(r@) == help_word(program@, env_expand::os_views(rest@)),
{
    let mut args: Vec<OsText> = Vec::new();
    args.push(program.copy());
    args.push(OsText::new("help"));
    if rest.len() > 0 {
        let asks = match rest[0].to_str() {
            Some(arg) => is_help(arg),
            None => false,
        };
        if asks {
            args.push(OsText::new("help"));
        } else {
            args.push(rest[0].copy());
        }
    }
    assert(env_expand::os_views(args@) =~= help_word(program@, env_expand::os_views(rest@)));
    args
}

/// The arguments that ask for the help or the version that these ask for, if they ask for one. No
/// argument that stands behind is taken into account, so that help is given whatever else is wrong.
pub fn help_or_version_args(args: &[OsText], grammar: &Grammar) -> (r: Option<Vec<OsText>>)
    ensures
        match r {
            Some(control) => help_from(env_expand::os_views(args@), 1, *grammar, None) == Some(
                env_expand::os_views(control@),
            ),
            None => help_from(env_expand::os_views(args@), 1, *grammar, None) is None,
        },
{
    if args.len() == 0 {
        return None;
    }
    let mut scanner = Scanner { args, grammar, command: None, index: 1 };
    scanner.help_or_version_args()
}

/// Whether the arguments ask for silence: `--quiet` and not `--verbose`, as far as they can be
/// read.
pub fn requests_quiet(args: &[OsText], grammar: &Grammar) -> (r: bool)
    ensures
        r == quiet_from(env_expand::os_views(args@), 1, *grammar, None, false, false),
{
    if args.len() == 0 {
        return false;
    }
    let mut scanner = Scanner { args, grammar, command: None, index: 1 };
    scanner.requests_quiet()
}

} // verus!
