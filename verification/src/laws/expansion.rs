//! Laws of the environment variables in the arguments.

use crate::env_expand;
use crate::env_expand::Expansion;
use crate::laws::response;
use crate::laws::texts;
use crate::text;
use vstd::prelude::*;
use vstd::utf8;

verus! {

/// Whether a text can be the name of a variable: a letter or an underscore, and then letters, digits
/// and underscores.
pub open spec fn names_a_variable(name: Seq<char>) -> bool {
    &&& name.len() > 0
    &&& !('0' <= name[0] <= '9')
    &&& forall|i: int|
        0 <= i < name.len() ==> #[trigger] name[i] == '_' || 'a' <= name[i] <= 'z' || 'A' <= name[i]
            <= 'Z' || '0' <= name[i] <= '9'
}

proof fn lemma_names(name: Seq<char>)
    ensures
        env_expand::is_name(name) <==> names_a_variable(name),
{
    if names_a_variable(name) {
        assert(name[0] == '_' || text::is_letter(name[0]));
    }
}

/// A variable has the value of its first entry, and none where it has no entry.
pub proof fn lemma_first_entry_counts(vars: Seq<(Seq<char>, Seq<u8>)>, name: Seq<char>)
    ensures
        env_expand::variable(vars, name) is None <==> forall|i: int|
            0 <= i < vars.len() ==> (#[trigger] vars[i]).0 != name,
        env_expand::variable(vars, name) matches Some(value) ==> exists|i: int|
            0 <= i < vars.len() && #[trigger] vars[i] == (name, value) && forall|j: int|
                0 <= j < i ==> (#[trigger] vars[j]).0 != name,
    decreases vars.len(),
{
    if vars.len() > 0 && vars[0].0 != name {
        let rest = vars.skip(1);
        lemma_first_entry_counts(rest, name);
        match env_expand::variable(rest, name) {
            None => {
                assert forall|i: int| 0 <= i < vars.len() implies (#[trigger] vars[i]).0 != name by {
                    if i > 0 {
                        assert(rest[i - 1] == vars[i]);
                    }
                }
            },
            Some(value) => {
                let i = choose|i: int|
                    0 <= i < rest.len() && #[trigger] rest[i] == (name, value) && forall|j: int|
                        0 <= j < i ==> (#[trigger] rest[j]).0 != name;
                assert(vars[i + 1] == (name, value));
                assert forall|j: int| 0 <= j < i + 1 implies (#[trigger] vars[j]).0 != name by {
                    if j > 0 {
                        assert(rest[j - 1] == vars[j]);
                    }
                }
            },
        }
    } else if vars.len() > 0 {
        assert(vars[0] == (name, vars[0].1));
    }
}

proof fn lemma_braces(expr: Seq<char>, rest: Seq<char>, vars: Seq<(Seq<char>, Seq<u8>)>)
    requires
        !expr.contains('}'),
    ensures
        env_expand::expansion(seq!['$', '{'] + expr + seq!['}'] + rest, vars)
            == match env_expand::expression(expr, vars) {
            Err(message) => Expansion::Err(message),
            Ok(value) => env_expand::after(value, env_expand::expansion(rest, vars)),
        },
{
    let s = seq!['$', '{'] + expr + seq!['}'] + rest;
    assert(s.skip(2) =~= expr + seq!['}'] + rest);
    response::lemma_split_at(s.skip(2), '}', expr, rest);
}

/// A variable between `${` and `}` is replaced by its value, whatever comes after it; it is an error
/// where the variable is not set or is no text.
pub proof fn lemma_variable(name: Seq<char>, rest: Seq<char>, vars: Seq<(Seq<char>, Seq<u8>)>)
    requires
        names_a_variable(name),
    ensures
        ({
            let all = env_expand::expansion(seq!['$', '{'] + name + seq!['}'] + rest, vars);
            let others = env_expand::expansion(rest, vars);
            match env_expand::variable(vars, name) {
                None => all is Err,
                Some(bytes) => if utf8::valid_utf8(bytes) {
                    match others {
                        Ok(tail) => all == Expansion::Ok(utf8::decode_utf8(bytes) + tail),
                        Err(message) => all == Expansion::Err(message),
                    }
                } else {
                    all is Err
                },
            }
        }),
{
    lemma_names(name);
    lemma_name_is_plain(name);
    lemma_braces(name, rest, vars);
}

/// Where a default stands behind `:-`, it is taken exactly where the variable is not set or is
/// empty. A value beats it, and what is no text is still an error.
pub proof fn lemma_default(
    name: Seq<char>,
    default: Seq<char>,
    rest: Seq<char>,
    vars: Seq<(Seq<char>, Seq<u8>)>,
)
    requires
        names_a_variable(name),
        !default.contains('}'),
    ensures
        ({
            let all = env_expand::expansion(
                seq!['$', '{'] + (name + seq![':', '-'] + default) + seq!['}'] + rest,
                vars,
            );
            let others = env_expand::expansion(rest, vars);
            let unset = env_expand::variable(vars, name) is None;
            let bytes = env_expand::variable(vars, name)->0;
            &&& others matches Ok(tail) ==> {
                &&& unset || utf8::valid_utf8(bytes) && utf8::decode_utf8(bytes).len() == 0 ==> all
                    == Expansion::Ok(default + tail)
                &&& !unset && utf8::valid_utf8(bytes) && utf8::decode_utf8(bytes).len() > 0 ==> all
                    == Expansion::Ok(utf8::decode_utf8(bytes) + tail)
            }
            &&& !unset && !utf8::valid_utf8(bytes) ==> all is Err
            &&& others is Err ==> all is Err
        }),
{
    lemma_names(name);
    lemma_name_is_plain(name);
    let expr = name + seq![':', '-'] + default;
    assert(!expr.contains('}')) by {
        assert forall|i: int| 0 <= i < expr.len() implies expr[i] != '}' by {
            if i < name.len() {
                assert(expr[i] == name[i]);
                assert(name.contains(name[i]));
            } else if i >= name.len() + 2 {
                assert(expr[i] == default[i - name.len() - 2]);
                assert(default.contains(default[i - name.len() - 2]));
            }
        }
    }
    assert forall|j: int| 0 <= j < name.len() && j + 1 < expr.len() implies expr[j] != ':'
        || #[trigger] expr[j + 1] != '-' by {
        assert(expr[j] == name[j]);
    }
    text::lemma_find_pair_at(expr, ':', '-', name.len() as int);
    assert(expr.take(name.len() as int) =~= name);
    assert(expr.skip(name.len() as int + 2) =~= default);
    lemma_braces(expr, rest, vars);
}

/// What is between `${` and `}`, or before the first `:-` in it, must be the name of a variable; and
/// the brace must be closed.
pub proof fn lemma_bad_expression(
    name: Seq<char>,
    default: Seq<char>,
    rest: Seq<char>,
    vars: Seq<(Seq<char>, Seq<u8>)>,
)
    requires
        !name.contains('}'),
        !default.contains('}'),
        forall|j: int| 0 <= j && j + 1 < name.len() ==> name[j] != ':' || #[trigger] name[j + 1]
            != '-',
    ensures
        !names_a_variable(name) ==> env_expand::expansion(
            seq!['$', '{'] + name + seq!['}'] + rest,
            vars,
        ) is Err,
        !names_a_variable(name) ==> env_expand::expansion(
            seq!['$', '{'] + (name + seq![':', '-'] + default) + seq!['}'] + rest,
            vars,
        ) is Err,
        env_expand::expansion(seq!['$', '{'] + name, vars) is Err,
{
    lemma_names(name);
    lemma_braces(name, rest, vars);
    texts::lemma_pair_split_is_at_the_first(name, ':', '-');
    let expr = name + seq![':', '-'] + default;
    assert(!expr.contains('}')) by {
        assert forall|i: int| 0 <= i < expr.len() implies expr[i] != '}' by {
            if i < name.len() {
                assert(expr[i] == name[i]);
                assert(name.contains(name[i]));
            } else if i >= name.len() + 2 {
                assert(expr[i] == default[i - name.len() - 2]);
                assert(default.contains(default[i - name.len() - 2]));
            }
        }
    }
    assert forall|j: int| 0 <= j < name.len() && j + 1 < expr.len() implies expr[j] != ':'
        || #[trigger] expr[j + 1] != '-' by {
        assert(expr[j] == name[j]);
        if j + 1 < name.len() {
            assert(expr[j + 1] == name[j + 1]);
        } else {
            assert(expr[j + 1] == ':');
        }
    }
    text::lemma_find_pair_at(expr, ':', '-', name.len() as int);
    assert(expr.take(name.len() as int) =~= name);
    lemma_braces(expr, rest, vars);
    let open = seq!['$', '{'] + name;
    assert(open.skip(2) =~= name);
    texts::lemma_split_is_at_the_first(name, '}');
}

/// A text without dollars goes before whatever follows it. A dollar stays where neither a dollar nor
/// a brace follows it, and of two dollars one stays.
pub proof fn lemma_text_around(front: Seq<char>, rest: Seq<char>, vars: Seq<(Seq<char>, Seq<u8>)>)
    requires
        !front.contains('$'),
    ensures
        ({
            let others = env_expand::expansion(rest, vars);
            &&& others matches Ok(tail) ==> env_expand::expansion(front + rest, vars)
                == Expansion::Ok(front + tail)
            &&& others matches Err(message) ==> env_expand::expansion(front + rest, vars)
                == Expansion::Err(message)
            &&& others matches Ok(tail) ==> env_expand::expansion(seq!['$', '$'] + rest, vars)
                == Expansion::Ok(seq!['$'] + tail)
            &&& rest.len() > 0 && rest[0] != '$' && rest[0] != '{' ==> (others matches Ok(tail)
                ==> env_expand::expansion(seq!['$'] + rest, vars) == Expansion::Ok(
                seq!['$'] + tail,
            ))
            &&& env_expand::expansion(seq!['$'], vars) == Expansion::Ok(seq!['$'])
        }),
    decreases front.len(),
{
    assert((seq!['$', '$'] + rest).skip(2) =~= rest);
    assert((seq!['$'] + rest).skip(1) =~= rest);
    assert(seq!['$'].skip(1) =~= Seq::empty());
    assert(env_expand::expansion(Seq::<char>::empty(), vars) == Expansion::Ok(Seq::empty()));
    assert(seq!['$'] + Seq::<char>::empty() =~= seq!['$']);
    let all = front + rest;
    if front.len() > 0 {
        let tail = front.skip(1);
        assert(!tail.contains('$')) by {
            if tail.contains('$') {
                let i = choose|i: int| 0 <= i < tail.len() && tail[i] == '$';
                assert(front[i + 1] == '$');
            }
        }
        lemma_text_around(tail, rest, vars);
        assert(all.skip(1) =~= tail + rest);
        assert(all[0] == front[0]);
        assert(front.contains(front[0]));
        if let Ok(t) = env_expand::expansion(rest, vars) {
            assert(seq![all[0]] + (tail + t) =~= front + t);
        }
    } else {
        assert(all =~= rest);
        if let Ok(t) = env_expand::expansion(rest, vars) {
            assert(front + t =~= t);
        }
    }
}

/// An argument without a dollar is left alone, whatever its bytes are. One with a dollar must be a
/// text, and is replaced by what the text expands to. What cannot be expanded is the fault of the
/// configuration.
pub proof fn lemma_argument(bytes: Seq<u8>, vars: Seq<(Seq<char>, Seq<u8>)>)
    ensures
        ({
            let expanded = env_expand::arg_expansion(bytes, vars);
            &&& (forall|i: int| 0 <= i < bytes.len() ==> #[trigger] bytes[i] != 0x24) ==> (expanded
                matches Ok(same) && same == bytes)
            &&& (exists|i: int| 0 <= i < bytes.len() && #[trigger] bytes[i] == 0x24) ==> {
                &&& !utf8::valid_utf8(bytes) ==> expanded is Err
                &&& utf8::valid_utf8(bytes) ==> match env_expand::expansion(
                    utf8::decode_utf8(bytes),
                    vars,
                ) {
                    Ok(text) => expanded matches Ok(new) && new == utf8::encode_utf8(text),
                    Err(_) => expanded is Err,
                }
            }
            &&& expanded matches Err(e) ==> e is InvalidConfig
        }),
{
    if exists|i: int| 0 <= i < bytes.len() && #[trigger] bytes[i] == 0x24 {
        let i = choose|i: int| 0 <= i < bytes.len() && #[trigger] bytes[i] == 0x24;
        assert(bytes.contains(0x24u8));
    }
}

/// The name of the program is never expanded; every other argument is, one for one and in order.
pub proof fn lemma_arguments(
    args: Seq<Seq<u8>>,
    expanded: Seq<Seq<u8>>,
    vars: Seq<(Seq<char>, Seq<u8>)>,
)
    requires
        env_expand::expands_to(args, expanded, vars),
        expanded.len() == args.len(),
    ensures
        args.len() > 0 ==> expanded[0] == args[0],
        forall|i: int|
            1 <= i < args.len() ==> (env_expand::arg_expansion(#[trigger] args[i], vars) matches Ok(
                new,
            ) && new == expanded[i]),
        forall|i: int|
            1 <= i < args.len() && !(#[trigger] args[i]).contains(0x24u8) ==> expanded[i] == args[i],
{
}

proof fn lemma_name_is_plain(name: Seq<char>)
    requires
        names_a_variable(name),
    ensures
        !name.contains('}'),
        forall|i: int| 0 <= i < name.len() ==> #[trigger] name[i] != ':',
        text::split_pair(name, ':', '-') is None,
{
    texts::lemma_pair_split_is_at_the_first(name, ':', '-');
    assert forall|i: int| 0 <= i < name.len() implies #[trigger] name[i] != ':' && name[i] != '}' by {
    }
}

} // verus!
