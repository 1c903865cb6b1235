//! Values from outside as they are shown in messages.

use crate::os_text;
use crate::os_text::OsText;
use crate::text;
use vstd::prelude::*;

verus! {

/// A text as `{:?}` writes it: in double quotes, with each character escaped.
pub open spec fn debug_text(s: Seq<char>) -> Seq<char> {
    seq!['"'] + os_text::escaped_text(s) + seq!['"']
}

/// `<str as core::fmt::Debug>::fmt` through `format!("{:?}", ..)`: the text in double quotes, each
/// character as `char::escape_debug` writes it, but for the single quote, which stands as it is.
#[verifier::external_body]
pub(crate) fn debug(s: &str) -> (r: String)
    ensures
        r@ == debug_text(s@),
{
    format!("{s:?}")
}

/// Whether a text is shown in quotes: it is empty, or holds whitespace, a control character, a
/// double quote or a backslash.
pub open spec fn needs_quotes(s: Seq<char>) -> bool {
    s.len() == 0 || exists|i: int|
        0 <= i < s.len() && (text::is_white(#[trigger] s[i]) || text::is_ctl(s[i]) || s[i] == '"'
            || s[i] == '\\')
}

/// A text as it is shown.
pub open spec fn shown(s: Seq<char>) -> Seq<char> {
    if needs_quotes(s) {
        debug_text(s)
    } else {
        s
    }
}

/// Raw bytes as they are shown.
pub open spec fn shown_os(bytes: Seq<u8>) -> Seq<char> {
    match os_text::text_of(bytes) {
        Some(s) => shown(s),
        None => os_text::quoted_bytes(bytes),
    }
}

/// Raw bytes as they stand in a field that is quoted later.
pub open spec fn field_os(bytes: Seq<u8>) -> Seq<char> {
    match os_text::text_of(bytes) {
        Some(s) => s,
        None => os_text::quoted_bytes(bytes),
    }
}

/// A shown text is never empty and holds no control character, so a message stays on one line.
pub proof fn lemma_value_stays_on_one_line(s: Seq<char>)
    ensures
        shown(s).len() > 0,
        forall|i: int| 0 <= i < shown(s).len() ==> !text::is_ctl(#[trigger] shown(s)[i]),
{
    if needs_quotes(s) {
        let inner = os_text::escaped_text(s);
        os_text::lemma_escaped_has_no_control(s);
        assert forall|i: int| 0 <= i < shown(s).len() implies !text::is_ctl(#[trigger] shown(s)[i]) by {
            if 0 < i < shown(s).len() - 1 {
                assert(shown(s)[i] == inner[i - 1]);
            }
        }
    }
}

/// Two different texts are shown differently, so a message still tells which text it speaks of.
pub proof fn lemma_value_tells_texts_apart(a: Seq<char>, b: Seq<char>)
    requires
        shown(a) == shown(b),
    ensures
        a == b,
{
    if needs_quotes(a) && needs_quotes(b) {
        let x = debug_text(a);
        let y = debug_text(b);
        assert(os_text::escaped_text(a) =~= x.subrange(1, x.len() - 1));
        assert(os_text::escaped_text(b) =~= y.subrange(1, y.len() - 1));
        os_text::lemma_escaped_reads_back(a, b);
    } else if needs_quotes(a) {
        assert(debug_text(a)[0] == '"');
        assert(b[0] == '"');
    } else if needs_quotes(b) {
        assert(debug_text(b)[0] == '"');
        assert(a[0] == '"');
    }
}

/// Whether the text holds whitespace, a control character, a double quote or a backslash.
fn contains_special(raw: &str) -> (r: bool)
    ensures
        r == exists|i: int|
            0 <= i < raw@.len() && (text::is_white(#[trigger] raw@[i]) || text::is_ctl(raw@[i])
                || raw@[i] == '"' || raw@[i] == '\\'),
{
    for ch in it: raw.chars()
        invariant
            it.seq() == raw@,
            forall|j: int|
                0 <= j < it.index() ==> !text::is_white(#[trigger] raw@[j]) && !text::is_ctl(raw@[j])
                    && raw@[j] != '"' && raw@[j] != '\\',
    {
        if text::is_whitespace(ch) || text::is_control(ch) || ch == '"' || ch == '\\' {
            assert(raw@[it.index()] == ch);
            return true;
        }
    }
    false
}

/// The text itself, or its quoted form where it is empty or could mislead a reader.
pub fn value(raw: &str) -> (r: String)
    ensures
        r@ == shown(raw@),
{
    if raw.is_empty() || contains_special(raw) {
        debug(raw)
    } else {
        raw.to_owned()
    }
}

/// A command or an argument as it is shown.
pub fn os_str(raw: &OsText) -> (r: String)
    ensures
        r@ == shown_os(raw@),
{
    match raw.to_str() {
        Some(raw) => value(raw),
        None => raw.quoted(),
    }
}

/// A path as it is shown.
pub fn path(raw: &OsText) -> (r: String)
    ensures
        r@ == shown_os(raw@),
{
    match raw.to_str() {
        Some(raw) => value(raw),
        None => raw.quoted(),
    }
}

/// A path as it stands in a field that is quoted later.
pub fn path_field(path: &OsText) -> (r: String)
    ensures
        r@ == field_os(path@),
{
    match path.to_str() {
        Some(raw) => raw.to_owned(),
        None => path.quoted(),
    }
}

} // verus!
