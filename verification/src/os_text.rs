//! Arguments and paths as the operating system hands them over: bytes that need not be UTF-8.

use crate::number;
use crate::text;
use vstd::prelude::*;
use vstd::string::StringSliceAdditionalSpecFns;
use vstd::utf8;

verus! {

/// An argument, a path or a command as raw bytes.
#[derive(Debug)]
pub struct OsText {
    pub bytes: Vec<u8>,
}

impl View for OsText {
    type V = Seq<u8>;

    open spec fn view(&self) -> Seq<u8> {
        self.bytes@
    }
}

/// Whether `char::escape_debug` writes a character as it is.
pub uninterp spec fn printed_as_is(c: char) -> bool;

/// The letter that stands for a character behind a backslash, where there is one.
pub open spec fn short_escape(c: char) -> Option<char> {
    if c == '\0' {
        Some('0')
    } else if c == '\t' {
        Some('t')
    } else if c == '\r' {
        Some('r')
    } else if c == '\n' {
        Some('n')
    } else if c == '\\' || c == '"' || c == '\'' {
        Some(c)
    } else {
        None
    }
}

/// A character as a Rust literal writes it: a short escape where there is one, the code in
/// hexadecimal for a control character and for what cannot be printed by itself, else the character
/// itself. The rest of ASCII can be printed.
pub open spec fn escaped_char(c: char) -> Seq<char> {
    match short_escape(c) {
        Some(letter) => seq!['\\', letter],
        None => if text::is_ctl(c) || (c > '~' && !printed_as_is(c)) {
            seq!['\\', 'u', '{'] + number::hex_text(c as nat) + seq!['}']
        } else {
            seq![c]
        },
    }
}

/// What `String::from_utf8_lossy` makes of bytes.
pub uninterp spec fn lossy_text(bytes: Seq<u8>) -> Seq<char>;

/// `core::str::from_utf8`: the text that the bytes encode, or nothing exactly when they are not
/// valid UTF-8.
#[verifier::external_body]
pub(crate) fn from_utf8(bytes: &[u8]) -> (r: Option<&str>)
    ensures
        match r {
            Some(text) => text.spec_bytes() == bytes@,
            None => !utf8::valid_utf8(bytes@),
        },
{
    core::str::from_utf8(bytes).ok()
}

/// `char::escape_debug`: the literal escape code of a character, which is the character itself
/// where it can be printed. Which characters those are goes under the name `printed_as_is`: no
/// control character, and all other ASCII characters but those with a short escape.
#[verifier::external_body]
fn escape_char(c: char) -> (r: String)
    ensures
        r@ == escaped_char(c),
        printed_as_is(c) <==> r@ == seq![c],
{
    c.escape_debug().to_string()
}

/// `String::from_utf8_lossy`: valid UTF-8 is decoded as it stands; what becomes of other bytes
/// goes under the name `lossy_text`.
#[verifier::external_body]
fn from_utf8_lossy(bytes: &[u8]) -> (r: String)
    ensures
        r@ == lossy_text(bytes@),
        utf8::valid_utf8(bytes@) ==> r@ == utf8::decode_utf8(bytes@),
{
    String::from_utf8_lossy(bytes).into_owned()
}

/// The text that the bytes encode, when they are valid UTF-8.
pub open spec fn text_of(bytes: Seq<u8>) -> Option<Seq<char>> {
    if utf8::valid_utf8(bytes) {
        Some(utf8::decode_utf8(bytes))
    } else {
        None
    }
}

/// How many bytes the first character takes, or 0 when no character begins here.
pub open spec fn first_char_len(bytes: Seq<u8>) -> int {
    if bytes.len() >= 1 && utf8::valid_utf8(bytes.take(1)) {
        1
    } else if bytes.len() >= 2 && utf8::valid_utf8(bytes.take(2)) {
        2
    } else if bytes.len() >= 3 && utf8::valid_utf8(bytes.take(3)) {
        3
    } else if bytes.len() >= 4 && utf8::valid_utf8(bytes.take(4)) {
        4
    } else {
        0
    }
}

/// A character as it stands between double quotes, where a single quote needs no escape.
pub open spec fn char_in_quotes(c: char) -> Seq<char> {
    if c == '\'' {
        seq!['\'']
    } else {
        escaped_char(c)
    }
}

/// A text with each character as it stands between double quotes.
pub open spec fn escaped_text(s: Seq<char>) -> Seq<char>
    decreases s.len(),
{
    if s.len() == 0 {
        Seq::empty()
    } else {
        char_in_quotes(s[0]) + escaped_text(s.skip(1))
    }
}

/// What stands between double quotes holds no control character.
pub proof fn lemma_escaped_has_no_control(s: Seq<char>)
    ensures
        forall|i: int| 0 <= i < escaped_text(s).len() ==> !text::is_ctl(#[trigger] escaped_text(s)[i]),
    decreases s.len(),
{
    if s.len() > 0 {
        let c = s[0];
        let head = char_in_quotes(c);
        let rest = escaped_text(s.skip(1));
        lemma_escaped_has_no_control(s.skip(1));
        number::lemma_hex_text(c as nat);
        assert forall|i: int| 0 <= i < head.len() implies !text::is_ctl(#[trigger] head[i]) by {
            let code = number::hex_text(c as nat);
            if head.len() > 2 && 3 <= i < head.len() - 1 {
                assert(head[i] == code[i - 3]);
            }
        }
        assert forall|i: int| 0 <= i < escaped_text(s).len() implies !text::is_ctl(
            #[trigger] escaped_text(s)[i],
        ) by {
            if i < head.len() {
                assert(escaped_text(s)[i] == head[i]);
            } else {
                assert(escaped_text(s)[i] == rest[i - head.len()]);
            }
        }
    }
}

/// A character between double quotes can be told from what follows it.
proof fn lemma_char_reads(c: char, d: char, x: Seq<char>, y: Seq<char>)
    requires
        char_in_quotes(c) + x == char_in_quotes(d) + y,
    ensures
        c == d,
        x == y,
{
    let e = char_in_quotes(c);
    let f = char_in_quotes(d);
    let a = e + x;
    let b = f + y;
    assert(e.len() > 0 && f.len() > 0);
    assert(a[0] == e[0] && b[0] == f[0]);
    if a[0] == '\\' {
        assert(e.len() >= 2 && f.len() >= 2);
        assert(a[1] == e[1] && b[1] == f[1]);
        if a[1] == 'u' {
            let m = number::hex_text(c as nat);
            let n = number::hex_text(d as nat);
            number::lemma_hex_text(c as nat);
            number::lemma_hex_text(d as nat);
            assert(e =~= seq!['\\', 'u', '{'] + m + seq!['}']);
            assert(f =~= seq!['\\', 'u', '{'] + n + seq!['}']);
            assert forall|i: int| 0 <= i < m.len() implies a[i + 3] == #[trigger] m[i] by {}
            assert forall|i: int| 0 <= i < n.len() implies b[i + 3] == #[trigger] n[i] by {}
            assert(a[3 + m.len() as int] == '}' && b[3 + n.len() as int] == '}');
            if m.len() < n.len() {
                assert(b[3 + m.len() as int] == n[m.len() as int]);
            }
            if n.len() < m.len() {
                assert(a[3 + n.len() as int] == m[n.len() as int]);
            }
            assert(m =~= n) by {
                assert forall|i: int| 0 <= i < m.len() implies m[i] == n[i] by {
                    assert(a[i + 3] == m[i] && b[i + 3] == n[i]);
                }
            }
            number::lemma_hex_text_reads_back(c as nat, d as nat);
        }
    }
    assert(c == d);
    assert(x =~= a.skip(e.len() as int));
    assert(y =~= b.skip(f.len() as int));
}

/// Two different texts differ between double quotes too.
pub proof fn lemma_escaped_reads_back(s: Seq<char>, t: Seq<char>)
    requires
        escaped_text(s) == escaped_text(t),
    ensures
        s == t,
    decreases s.len(),
{
    if s.len() > 0 && t.len() > 0 {
        lemma_char_reads(s[0], t[0], escaped_text(s.skip(1)), escaped_text(t.skip(1)));
        lemma_escaped_reads_back(s.skip(1), t.skip(1));
        assert(s =~= seq![s[0]] + s.skip(1));
        assert(t =~= seq![t[0]] + t.skip(1));
    } else {
        if s.len() > 0 {
            assert(char_in_quotes(s[0]).len() > 0);
            assert(escaped_text(s) == char_in_quotes(s[0]) + escaped_text(s.skip(1)));
            assert(escaped_text(t).len() == 0);
        }
        if t.len() > 0 {
            assert(char_in_quotes(t[0]).len() > 0);
            assert(escaped_text(t) == char_in_quotes(t[0]) + escaped_text(t.skip(1)));
            assert(escaped_text(s).len() == 0);
        }
        assert(s =~= t);
    }
}

/// The bytes with each character escaped and each byte that belongs to none written in
/// hexadecimal.
pub open spec fn escaped_bytes(bytes: Seq<u8>) -> Seq<char>
    decreases bytes.len(),
{
    if bytes.len() == 0 {
        Seq::empty()
    } else {
        let n = first_char_len(bytes);
        if n > 0 {
            char_in_quotes(utf8::decode_utf8(bytes.take(n))[0]) + escaped_bytes(bytes.skip(n))
        } else {
            seq![
                '\\',
                'x',
                number::hex_digit((bytes[0] / 16) as nat),
                number::hex_digit((bytes[0] % 16) as nat),
            ] + escaped_bytes(bytes.skip(1))
        }
    }
}

/// The escaped bytes in double quotes.
pub open spec fn quoted_bytes(bytes: Seq<u8>) -> Seq<char> {
    seq!['"'] + escaped_bytes(bytes) + seq!['"']
}

/// The length of the first character of the bytes, and the character.
fn first_char(bytes: &[u8]) -> (r: Option<(usize, char)>)
    ensures
        match r {
            Some((n, c)) => {
                &&& n == first_char_len(bytes@)
                &&& 0 < n <= bytes@.len()
                &&& c == utf8::decode_utf8(bytes@.take(n as int))[0]
            },
            None => first_char_len(bytes@) == 0,
        },
{
    let mut n: usize = 1;
    while n <= 4 && n <= bytes.len()
        invariant
            1 <= n <= 5,
            forall|k: int| 1 <= k < n && k <= bytes@.len() ==> !utf8::valid_utf8(#[trigger] bytes@.take(k)),
        decreases 5 - n,
    {
        let part = vstd::slice::slice_subrange(bytes, 0, n);
        assert(part@ =~= bytes@.take(n as int));
        match from_utf8(part) {
            Some(text) => {
                proof {
                    utf8::encode_utf8_decode_utf8(text@);
                    utf8::encode_utf8_valid_utf8(text@);
                    assert(text@.len() > 0) by {
                        if text@.len() == 0 {
                            assert(utf8::encode_utf8(text@).len() == 0);
                        }
                    }
                    assert(forall|k: int| 1 <= k < n ==> !utf8::valid_utf8(#[trigger] bytes@.take(k)));
                }
                return Some((n, text.get_char(0)));
            },
            None => {},
        }
        n = n + 1;
    }
    proof {
        assert(bytes@.len() >= 1 ==> !utf8::valid_utf8(bytes@.take(1)));
        assert(bytes@.len() >= 2 ==> !utf8::valid_utf8(bytes@.take(2)));
        assert(bytes@.len() >= 3 ==> !utf8::valid_utf8(bytes@.take(3)));
        assert(bytes@.len() >= 4 ==> !utf8::valid_utf8(bytes@.take(4)));
    }
    None
}

impl OsText {
    /// The raw bytes of `text`.
    pub fn new(text: &str) -> (r: OsText)
        ensures
            r@ == utf8::encode_utf8(text@),
            text_of(r@) == Some(text@),
    {
        proof {
            utf8::encode_utf8_decode_utf8(text@);
            utf8::encode_utf8_valid_utf8(text@);
        }
        OsText { bytes: text.as_bytes_vec() }
    }

    /// These raw bytes.
    pub fn from_bytes(bytes: Vec<u8>) -> (r: OsText)
        ensures
            r@ == bytes@,
    {
        OsText { bytes }
    }

    /// The text, when the bytes are valid UTF-8.
    pub fn to_str(&self) -> (r: Option<&str>)
        ensures
            match r {
                Some(text) => text_of(self@) == Some(text@),
                None => text_of(self@) is None,
            },
    {
        let r = from_utf8(self.bytes.as_slice());
        proof {
            if let Some(text) = r {
                utf8::encode_utf8_decode_utf8(text@);
                utf8::encode_utf8_valid_utf8(text@);
            }
        }
        r
    }

    /// Whether there are no bytes.
    pub fn is_empty(&self) -> (r: bool)
        ensures
            r == (self@.len() == 0),
    {
        self.bytes.len() == 0
    }

    /// The same bytes once more.
    pub fn copy(&self) -> (r: OsText)
        ensures
            r@ == self@,
    {
        let mut bytes: Vec<u8> = Vec::new();
        let mut i: usize = 0;
        while i < self.bytes.len()
            invariant
                i <= self.bytes.len(),
                bytes@ == self.bytes@.take(i as int),
            decreases self.bytes.len() - i,
        {
            bytes.push(self.bytes[i]);
            i = i + 1;
        }
        assert(bytes@ =~= self.bytes@);
        OsText { bytes }
    }

    /// The bytes in double quotes, with each character escaped and each byte that belongs to none
    /// written in hexadecimal.
    pub fn quoted(&self) -> (r: String)
        ensures
            r@ == quoted_bytes(self@),
    {
        let bytes = self.bytes.as_slice();
        let mut r = String::new();
        r.push('"');
        let mut i: usize = 0;
        assert(bytes@.skip(0) =~= bytes@);
        assert(r@ =~= seq!['"']);
        while i < bytes.len()
            invariant
                i <= bytes@.len(),
                bytes@ == self@,
                r@ + escaped_bytes(bytes@.skip(i as int)) == seq!['"'] + escaped_bytes(bytes@),
            decreases bytes.len() - i,
        {
            let rest = vstd::slice::slice_subrange(bytes, i, bytes.len());
            assert(rest@ =~= bytes@.skip(i as int));
            let ghost before = r@;
            match first_char(rest) {
                Some((n, c)) => {
                    if c == '\'' {
                        r.push(c);
                    } else {
                        r.append(escape_char(c).as_str());
                    }
                    proof {
                        assert(r@ =~= before + char_in_quotes(c));
                        assert(rest@.skip(n as int) =~= bytes@.skip(i + n));
                        assert(r@ + escaped_bytes(bytes@.skip(i + n)) =~= before + escaped_bytes(
                            rest@,
                        ));
                    }
                    i = i + n;
                },
                None => {
                    let b: u8 = bytes[i];
                    r.push('\\');
                    r.push('x');
                    r.push(number::hex_upper(b / 16));
                    r.push(number::hex_upper(b % 16));
                    proof {
                        assert(rest@.skip(1) =~= bytes@.skip(i + 1));
                        assert(r@ + escaped_bytes(bytes@.skip(i + 1)) =~= before + escaped_bytes(
                            rest@,
                        ));
                    }
                    i = i + 1;
                },
            }
        }
        assert(bytes@.skip(i as int).len() == 0);
        assert(r@ =~= seq!['"'] + escaped_bytes(bytes@));
        r.push('"');
        assert(r@ =~= quoted_bytes(self@));
        r
    }

    /// The text, with what is not valid UTF-8 replaced.
    pub fn to_string_lossy(&self) -> (r: String)
        ensures
            r@ == lossy_text(self@),
            text_of(self@) matches Some(text) ==> r@ == text,
    {
        from_utf8_lossy(self.bytes.as_slice())
    }
}

} // verus!
