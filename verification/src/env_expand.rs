//! Environment variables in arguments: `${VAR}`, `${VAR:-default}` and `$$`.

use crate::diagnostic;
use crate::error;
use crate::error::{AppError, ErrorView, Result};
use crate::os_text;
use crate::os_text::OsText;
use crate::text;
use vstd::prelude::*;
use vstd::utf8;

verus! {

/// The environment as it was when the program started: names with their values.
#[derive(Debug)]
pub struct Environment {
    pub vars: Vec<(String, OsText)>,
}

impl View for Environment {
    type V = Seq<(Seq<char>, Seq<u8>)>;

    open spec fn view(&self) -> Seq<(Seq<char>, Seq<u8>)> {
        Seq::new(self.vars@.len(), |i: int| (self.vars@[i].0@, self.vars@[i].1@))
    }
}

/// Arguments of which one could not be expanded.
#[derive(Debug)]
pub struct ExpandError {
    /// What is wrong with it.
    pub error: AppError,
    /// The arguments before it, expanded.
    pub partial_args: Vec<OsText>,
    /// It and the arguments behind it, as they were given.
    pub raw_tail: Vec<OsText>,
}

/// A text, or the message of an error.
pub type Expansion = core::result::Result<Seq<char>, Seq<char>>;

/// The bytes of each argument.
pub open spec fn os_views(args: Seq<OsText>) -> Seq<Seq<u8>> {
    Seq::new(args.len(), |i: int| args[i]@)
}

/// The value of the first variable with this name.
pub open spec fn variable(vars: Seq<(Seq<char>, Seq<u8>)>, name: Seq<char>) -> Option<Seq<u8>>
    decreases vars.len(),
{
    if vars.len() == 0 {
        None
    } else if vars[0].0 == name {
        Some(vars[0].1)
    } else {
        variable(vars.skip(1), name)
    }
}

/// Whether a text is the name of a variable: a letter or underscore, then letters, digits and
/// underscores.
pub open spec fn is_name(name: Seq<char>) -> bool {
    &&& name.len() > 0
    &&& name[0] == '_' || text::is_letter(name[0])
    &&& forall|i: int|
        0 < i < name.len() ==> #[trigger] name[i] == '_' || text::is_letter(name[i])
            || text::is_digit(name[i])
}

/// What stands between the braces: a name, and a default where there is one.
pub open spec fn name_and_default(expr: Seq<char>) -> (Seq<char>, Option<Seq<char>>) {
    match text::split_pair(expr, ':', '-') {
        Some((name, default)) => (name, Some(default)),
        None => (expr, None),
    }
}

/// What `${expr}` expands to.
pub open spec fn expression(expr: Seq<char>, vars: Seq<(Seq<char>, Seq<u8>)>) -> Expansion {
    let (name, default) = name_and_default(expr);
    if !is_name(name) {
        Err("invalid environment variable name "@ + diagnostic::debug_text(name))
    } else {
        match variable(vars, name) {
            Some(bytes) => match os_text::text_of(bytes) {
                None => Err("environment variable "@ + name + " is not valid UTF-8"@),
                Some(value) => match default {
                    Some(default) if value.len() == 0 => Ok(default),
                    _ => Ok(value),
                },
            },
            None => match default {
                Some(default) => Ok(default),
                None => Err("environment variable "@ + name + " is not set"@),
            },
        }
    }
}

/// An expansion with `head` in front of its text.
pub open spec fn after(head: Seq<char>, rest: Expansion) -> Expansion {
    match rest {
        Ok(text) => Ok(head + text),
        Err(message) => Err(message),
    }
}

/// What a text expands to, or the message of the first error in it.
pub open spec fn expansion(s: Seq<char>, vars: Seq<(Seq<char>, Seq<u8>)>) -> Expansion
    decreases s.len(),
    via expansion_shrinks
{
    if s.len() == 0 {
        Ok(Seq::empty())
    } else if s[0] != '$' {
        after(seq![s[0]], expansion(s.skip(1), vars))
    } else if s.len() > 1 && s[1] == '$' {
        after(seq!['$'], expansion(s.skip(2), vars))
    } else if s.len() > 1 && s[1] == '{' {
        match text::split_once(s.skip(2), '}') {
            None => Err("unterminated environment expansion"@),
            Some((expr, rest)) => match expression(expr, vars) {
                Err(message) => Err(message),
                Ok(value) => after(value, expansion(rest, vars)),
            },
        }
    } else {
        after(seq!['$'], expansion(s.skip(1), vars))
    }
}

#[via_fn]
proof fn expansion_shrinks(s: Seq<char>, vars: Seq<(Seq<char>, Seq<u8>)>) {
    if s.len() >= 2 {
        text::lemma_find(s.skip(2), '}');
    }
}

/// What an argument expands to as bytes: one without a dollar sign stays as it is.
pub open spec fn arg_expansion(
    bytes: Seq<u8>,
    vars: Seq<(Seq<char>, Seq<u8>)>,
) -> core::result::Result<Seq<u8>, ErrorView> {
    if !bytes.contains(0x24u8) {
        Ok(bytes)
    } else {
        match os_text::text_of(bytes) {
            None => Err(
                ErrorView::InvalidConfig("environment expansion only supports UTF-8 arguments"@),
            ),
            Some(raw) => match expansion(raw, vars) {
                Ok(expanded) => Ok(utf8::encode_utf8(expanded)),
                Err(message) => Err(ErrorView::InvalidConfig(message)),
            },
        }
    }
}

/// Whether `expanded` is how the first arguments expand: the program name as it is, each other
/// argument by itself.
pub open spec fn expands_to(
    args: Seq<Seq<u8>>,
    expanded: Seq<Seq<u8>>,
    vars: Seq<(Seq<char>, Seq<u8>)>,
) -> bool {
    &&& expanded.len() <= args.len()
    &&& expanded.len() > 0 ==> expanded[0] == args[0]
    &&& forall|i: int|
        1 <= i < expanded.len() ==> arg_expansion(#[trigger] args[i], vars)
            == core::result::Result::<Seq<u8>, ErrorView>::Ok(expanded[i])
}

/// A text without a dollar sign expands to itself.
pub proof fn lemma_plain_text_stays(s: Seq<char>, vars: Seq<(Seq<char>, Seq<u8>)>)
    requires
        !s.contains('$'),
    ensures
        expansion(s, vars) == Expansion::Ok(s),
    decreases s.len(),
{
    if s.len() > 0 {
        assert(s[0] != '$');
        let rest = s.skip(1);
        assert(!rest.contains('$')) by {
            if rest.contains('$') {
                let i = choose|i: int| 0 <= i < rest.len() && rest[i] == '$';
                assert(s[i + 1] == '$');
            }
        }
        lemma_plain_text_stays(rest, vars);
        assert(seq![s[0]] + rest =~= s);
    } else {
        assert(s =~= Seq::empty());
    }
}

/// A text with every dollar sign doubled.
pub open spec fn doubled(s: Seq<char>) -> Seq<char>
    decreases s.len(),
{
    if s.len() == 0 {
        Seq::empty()
    } else if s[0] == '$' {
        seq!['$', '$'] + doubled(s.skip(1))
    } else {
        seq![s[0]] + doubled(s.skip(1))
    }
}

/// Doubling every dollar sign of a text and expanding it gives the text back, whatever it holds
/// and whatever the environment is.
pub proof fn lemma_doubled_dollars_expand_back(s: Seq<char>, vars: Seq<(Seq<char>, Seq<u8>)>)
    ensures
        expansion(doubled(s), vars) == Expansion::Ok(s),
    decreases s.len(),
{
    if s.len() == 0 {
        assert(s =~= Seq::empty());
    } else {
        let rest = s.skip(1);
        lemma_doubled_dollars_expand_back(rest, vars);
        let d = doubled(s);
        assert(seq![s[0]] + rest =~= s);
        if s[0] == '$' {
            assert(d.skip(2) =~= doubled(rest));
        } else {
            assert(d.skip(1) =~= doubled(rest));
        }
    }
}

proof fn lemma_braces_expand(expr: Seq<char>, rest: Seq<char>, vars: Seq<(Seq<char>, Seq<u8>)>)
    requires
        !expr.contains('}'),
    ensures
        expansion(seq!['$', '{'] + expr + seq!['}'] + rest, vars) == match expression(expr, vars) {
            Err(message) => Expansion::Err(message),
            Ok(value) => after(value, expansion(rest, vars)),
        },
{
    let s = seq!['$', '{'] + expr + seq!['}'] + rest;
    let t = s.skip(2);
    assert(t =~= expr + seq!['}'] + rest);
    assert forall|j: int| 0 <= j < expr.len() implies t[j] != '}' by {
        assert(t[j] == expr[j]);
    }
    text::lemma_find_at(t, '}', expr.len() as int);
    assert(t.take(expr.len() as int) =~= expr);
    assert(t.skip(expr.len() as int + 1) =~= rest);
}

/// The value of a variable goes into the text as it is: it is not expanded again.
pub proof fn lemma_value_goes_in_unchanged(
    name: Seq<char>,
    value: Seq<char>,
    rest: Seq<char>,
    vars: Seq<(Seq<char>, Seq<u8>)>,
)
    requires
        is_name(name),
        variable(vars, name) == Some(utf8::encode_utf8(value)),
    ensures
        expansion(seq!['$', '{'] + name + seq!['}'] + rest, vars) == after(
            value,
            expansion(rest, vars),
        ),
{
    utf8::encode_utf8_valid_utf8(value);
    utf8::encode_utf8_decode_utf8(value);
    lemma_name_is_plain(name);
    lemma_braces_expand(name, rest, vars);
}

/// The default of a variable that is not set, or set to nothing, goes into the text as it is: it
/// is not expanded again.
pub proof fn lemma_default_goes_in_unchanged(
    name: Seq<char>,
    default: Seq<char>,
    rest: Seq<char>,
    vars: Seq<(Seq<char>, Seq<u8>)>,
)
    requires
        is_name(name),
        !default.contains('}'),
        variable(vars, name) is None || variable(vars, name) == Some(Seq::<u8>::empty()),
    ensures
        expansion(seq!['$', '{'] + (name + seq![':', '-'] + default) + seq!['}'] + rest, vars)
            == after(default, expansion(rest, vars)),
{
    lemma_name_is_plain(name);
    let expr = name + seq![':', '-'] + default;
    assert forall|j: int| 0 <= j < name.len() && j + 1 < expr.len() implies expr[j] != ':'
        || #[trigger] expr[j + 1] != '-' by {
        assert(expr[j] == name[j]);
    }
    text::lemma_find_pair_at(expr, ':', '-', name.len() as int);
    assert(expr.take(name.len() as int) =~= name);
    assert(expr.skip(name.len() as int + 2) =~= default);
    assert(!expr.contains('}')) by {
        if expr.contains('}') {
            let i = choose|i: int| 0 <= i < expr.len() && expr[i] == '}';
            if i < name.len() {
                assert(name[i] == '}');
            } else if i >= name.len() + 2 {
                assert(default[i - name.len() - 2] == '}');
            }
        }
    }
    let none = Seq::<u8>::empty();
    let empty = Seq::<char>::empty();
    assert(utf8::encode_utf8(empty) =~= none);
    utf8::encode_utf8_valid_utf8(empty);
    utf8::encode_utf8_decode_utf8(empty);
    lemma_braces_expand(expr, rest, vars);
}

proof fn lemma_name_is_plain(name: Seq<char>)
    requires
        is_name(name),
    ensures
        !name.contains('}'),
        forall|i: int| 0 <= i < name.len() ==> #[trigger] name[i] != ':',
        text::split_pair(name, ':', '-') is None,
{
    assert forall|i: int| 0 <= i < name.len() implies #[trigger] name[i] != ':' && name[i] != '}' by {
        if i > 0 {
            assert(name[i] == '_' || text::is_letter(name[i]) || text::is_digit(name[i]));
        }
    }
    assert forall|j: int| 0 <= j < name.len() && j + 1 < name.len() implies name[j] != ':'
        || #[trigger] name[j + 1] != '-' by {
        assert(name[j] != ':');
    }
    text::lemma_find_pair_at(name, ':', '-', name.len() as int);
}

impl Environment {
    /// The value of a variable, where it is set; an error where it is not text.
    pub fn lookup_env(&self, name: &str) -> (r: Result<Option<&str>>)
        ensures
            match r {
                Ok(None) => variable(self@, name@) is None,
                Ok(Some(value)) => {
                    &&& variable(self@, name@) is Some
                    &&& os_text::text_of(variable(self@, name@)->0) == Some(value@)
                },
                Err(e) => {
                    &&& variable(self@, name@) is Some
                    &&& os_text::text_of(variable(self@, name@)->0) is None
                    &&& e@ == ErrorView::InvalidConfig(
                        "environment variable "@ + name@ + " is not valid UTF-8"@,
                    )
                },
            },
    {
        let mut i: usize = 0;
        assert(self@.skip(0) =~= self@);
        while i < self.vars.len()
            invariant
                i <= self.vars@.len(),
                variable(self@, name@) == variable(self@.skip(i as int), name@),
            decreases self.vars.len() - i,
        {
            assert(self@.skip(i as int).skip(1) =~= self@.skip(i + 1));
            if text::same(self.vars[i].0.as_str(), name) {
                return match self.vars[i].1.to_str() {
                    Some(value) => Ok(Some(value)),
                    None => {
                        let mut message = "environment variable ".to_owned();
                        message.append(name);
                        message.append(" is not valid UTF-8");
                        Err(AppError::invalid_config(message))
                    },
                };
            }
            i = i + 1;
        }
        Ok(None)
    }
}

/// Whether a text is the name of a variable.
fn validate_env_name(name: &str) -> (r: Result<()>)
    ensures
        error::fault(r) == if is_name(name@) {
            None
        } else {
            error::config_fault(
                "invalid environment variable name "@ + diagnostic::debug_text(name@),
            )
        },
{
    let v = text::chars_of(name);
    let mut ok = v.len() > 0 && (v[0] == '_' || ('a' <= v[0] && v[0] <= 'z') || ('A' <= v[0]
        && v[0] <= 'Z'));
    let mut i: usize = 1;
    while ok && i < v.len()
        invariant
            v@ == name@,
            1 <= i,
            ok ==> name@.len() > 0 && (name@[0] == '_' || text::is_letter(name@[0])),
            ok ==> forall|j: int|
                0 < j < i && j < name@.len() ==> #[trigger] name@[j] == '_' || text::is_letter(
                    name@[j],
                ) || text::is_digit(name@[j]),
            !ok ==> !is_name(name@),
        decreases v.len() - i,
    {
        let c: char = v[i];
        if !(c == '_' || ('a' <= c && c <= 'z') || ('A' <= c && c <= 'Z') || ('0' <= c && c
            <= '9')) {
            assert(name@[i as int] == c);
            ok = false;
        }
        i = i + 1;
    }
    if ok {
        Ok(())
    } else {
        let mut message = "invalid environment variable name ".to_owned();
        message.append(diagnostic::debug(name).as_str());
        Err(AppError::invalid_config(message))
    }
}

/// Whether a result is the one that an expansion gives.
pub open spec fn is_expansion(r: Result<String>, e: Expansion) -> bool {
    match e {
        Ok(text) => r matches Ok(s) && s@ == text,
        Err(message) => error::fault(r) == error::config_fault(message),
    }
}

/// What stands between the braces expands to the value of the variable, or to the default where
/// the variable is not set or is empty.
fn expand_expression(expr: &str, env: &Environment) -> (r: Result<String>)
    ensures
        is_expansion(r, expression(expr@, env@)),
{
    let (name, default) = match text::split_once_pair(expr, ':', '-') {
        Some((name, default)) => (name, Some(default)),
        None => (expr, None),
    };
    validate_env_name(name)?;
    match env.lookup_env(name)? {
        Some(value) => match default {
            Some(default) => if value.is_empty() {
                Ok(default.to_owned())
            } else {
                Ok(value.to_owned())
            },
            None => Ok(value.to_owned()),
        },
        None => match default {
            Some(default) => Ok(default.to_owned()),
            None => {
                let mut message = "environment variable ".to_owned();
                message.append(name);
                message.append(" is not set");
                Err(AppError::invalid_config(message))
            },
        },
    }
}

/// The text with its expansions carried out, or the first error in it.
pub fn expand_text(raw: &str, env: &Environment) -> (r: Result<String>)
    ensures
        is_expansion(r, expansion(raw@, env@)),
{
    let n: usize = raw.unicode_len();
    let mut expanded = String::new();
    let mut i: usize = 0;
    assert(raw@.skip(0) =~= raw@);
    assert(after(expanded@, expansion(raw@, env@)) == expansion(raw@, env@)) by {
        if let Ok(t) = expansion(raw@, env@) {
            assert(expanded@ + t =~= t);
        }
    }
    while i < n
        invariant
            n == raw@.len(),
            i <= n,
            expansion(raw@, env@) == after(expanded@, expansion(raw@.skip(i as int), env@)),
        decreases n - i,
    {
        let ghost rest = raw@.skip(i as int);
        let ghost before = expanded@;
        let ch: char = raw.get_char(i);
        assert(rest[0] == ch);
        if ch != '$' {
            expanded.push(ch);
            proof {
                assert(rest.skip(1) =~= raw@.skip(i + 1));
                lemma_after(before, seq![ch], expanded@, expansion(rest.skip(1), env@));
            }
            i = i + 1;
            continue;
        }
        if n - i > 1 && raw.get_char(i + 1) == '$' {
            expanded.push('$');
            proof {
                assert(rest.skip(2) =~= raw@.skip(i + 2));
                lemma_after(before, seq!['$'], expanded@, expansion(rest.skip(2), env@));
            }
            i = i + 2;
        } else if n - i > 1 && raw.get_char(i + 1) == '{' {
            let inner = raw.substring_char(i + 2, n);
            assert(inner@ =~= rest.skip(2));
            match text::split_once_char(inner, '}') {
                None => {
                    return Err(
                        AppError::invalid_config("unterminated environment expansion".to_owned()),
                    );
                },
                Some((expr, _)) => {
                    let value = expand_expression(expr, env)?;
                    let used: usize = expr.unicode_len();
                    expanded.append(value.as_str());
                    proof {
                        text::lemma_find(inner@, '}');
                        assert(inner@.skip(used + 1) =~= raw@.skip(i + 3 + used));
                        lemma_after(
                            before,
                            value@,
                            expanded@,
                            expansion(raw@.skip(i + 3 + used), env@),
                        );
                    }
                    i = i + 3 + used;
                },
            }
        } else {
            expanded.push('$');
            proof {
                assert(rest.skip(1) =~= raw@.skip(i + 1));
                lemma_after(before, seq!['$'], expanded@, expansion(rest.skip(1), env@));
            }
            i = i + 1;
        }
    }
    proof {
        assert(raw@.skip(n as int).len() == 0);
        assert(expanded@ + Seq::<char>::empty() =~= expanded@);
    }
    Ok(expanded)
}

proof fn lemma_after(a: Seq<char>, b: Seq<char>, ab: Seq<char>, rest: Expansion)
    requires
        ab =~= a + b,
    ensures
        after(a, after(b, rest)) == after(ab, rest),
{
    if let Ok(t) = rest {
        assert(a + (b + t) =~= ab + t);
    }
}

/// An argument with its expansions carried out.
fn expand_arg_os(arg: OsText, env: &Environment) -> (r: core::result::Result<OsText, (AppError, OsText)>)
    ensures
        match r {
            Ok(expanded) => arg_expansion(arg@, env@) == core::result::Result::<Seq<u8>, ErrorView>::Ok(
                expanded@,
            ),
            Err((e, raw)) => raw@ == arg@ && arg_expansion(arg@, env@) == core::result::Result::<
                Seq<u8>,
                ErrorView,
            >::Err(e@),
        },
{
    let mut i: usize = 0;
    while i < arg.bytes.len() && arg.bytes[i] != 0x24
        invariant
            i <= arg.bytes@.len(),
            forall|j: int| 0 <= j < i ==> arg.bytes@[j] != 0x24,
        decreases arg.bytes.len() - i,
    {
        i = i + 1;
    }
    if i == arg.bytes.len() {
        return Ok(arg);
    }
    assert(arg@[i as int] == 0x24);
    let failed = match arg.to_str() {
        None => AppError::invalid_config(
            "environment expansion only supports UTF-8 arguments".to_owned(),
        ),
        Some(raw) => match expand_text(raw, env) {
            Ok(expanded) => {
                return Ok(OsText::new(expanded.as_str()));
            },
            Err(e) => e,
        },
    };
    Err((failed, arg))
}

/// The arguments with their expansions carried out, but for the program name. Where one cannot be
/// expanded, the error says what came before it and what is left.
pub fn expand_argv_with_partial(args: Vec<OsText>, env: &Environment) -> (r: core::result::Result<
    Vec<OsText>,
    ExpandError,
>)
    ensures
        match r {
            Ok(expanded) => expanded@.len() == args@.len() && expands_to(
                os_views(args@),
                os_views(expanded@),
                env@,
            ),
            Err(e) => {
                let k = e.partial_args@.len() as int;
                &&& 1 <= k < args@.len()
                &&& expands_to(os_views(args@), os_views(e.partial_args@), env@)
                &&& arg_expansion(args@[k]@, env@) == core::result::Result::<Seq<u8>, ErrorView>::Err(
                    e.error@,
                )
                &&& os_views(e.raw_tail@) == os_views(args@).skip(k)
            },
        },
{
    let ghost all = os_views(args@);
    let mut left = args;
    let mut expanded: Vec<OsText> = Vec::new();
    if left.len() > 0 {
        expanded.push(left.remove(0));
        assert(os_views(left@) =~= all.skip(1));
        assert(os_views(expanded@)[0] == all[0]);
    }
    while left.len() > 0
        invariant
            all == os_views(args@),
            args@.len() > 0 ==> expanded@.len() > 0,
            expands_to(all, os_views(expanded@), env@),
            os_views(left@) == all.skip(expanded@.len() as int),
            expanded@.len() + left@.len() == args@.len(),
        decreases left@.len(),
    {
        let ghost k = expanded@.len() as int;
        let ghost was = os_views(expanded@);
        let ghost before = os_views(left@);
        let next = left.remove(0);
        assert(next@ == before[0]);
        assert(forall|i: int| 0 <= i < left@.len() ==> #[trigger] os_views(left@)[i] == before[i + 1]);
        assert(os_views(left@) =~= all.skip(k + 1));
        match expand_arg_os(next, env) {
            Ok(arg) => {
                expanded.push(arg);
                proof {
                    let now = os_views(expanded@);
                    assert(forall|i: int| 0 <= i < k ==> now[i] == was[i]);
                    assert(now[k] == arg@);
                    assert(all[k] == next@);
                }
            },
            Err((e, raw)) => {
                let mut raw_tail: Vec<OsText> = Vec::new();
                raw_tail.push(raw);
                raw_tail.append(&mut left);
                assert(os_views(raw_tail@) =~= all.skip(k));
                return Err(ExpandError { error: e, partial_args: expanded, raw_tail });
            },
        }
    }
    Ok(expanded)
}

impl ExpandError {
    /// The error, the expanded arguments before it and the arguments from it on.
    pub fn into_parts(self) -> (r: (AppError, Vec<OsText>, Vec<OsText>))
        ensures
            r == (self.error, self.partial_args, self.raw_tail),
    {
        (self.error, self.partial_args, self.raw_tail)
    }
}

/// The arguments with their expansions carried out, but for the program name, or the first error.
pub fn expand_argv(args: Vec<OsText>, env: &Environment) -> (r: Result<Vec<OsText>>)
    ensures
        match r {
            Ok(expanded) => expanded@.len() == args@.len() && expands_to(
                os_views(args@),
                os_views(expanded@),
                env@,
            ),
            Err(e) => exists|k: int|
                {
                    &&& 1 <= k < args@.len()
                    &&& arg_expansion(#[trigger] args@[k]@, env@) == core::result::Result::<
                        Seq<u8>,
                        ErrorView,
                    >::Err(e@)
                    &&& forall|i: int| 1 <= i < k ==> arg_expansion(#[trigger] args@[i]@, env@) is Ok
                },
        },
{
    match expand_argv_with_partial(args, env) {
        Ok(expanded) => Ok(expanded),
        Err(e) => {
            proof {
                let k = e.partial_args@.len() as int;
                assert(arg_expansion(args@[k]@, env@) is Err);
                assert forall|i: int| 1 <= i < k implies arg_expansion(#[trigger] args@[i]@, env@) is Ok by {
                    assert(os_views(args@)[i] == args@[i]@);
                }
            }
            Err(e.error)
        },
    }
}

} // verus!
