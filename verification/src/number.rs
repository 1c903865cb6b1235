//! Decimal and hexadecimal numbers as text.

use crate::text;
use vstd::prelude::*;

verus! {

/// The character of the decimal digit `d`.
pub open spec fn digit_char(d: nat) -> char {
    ('0' as u32 + d) as char
}

/// The decimal digits of `n`, without leading zeros.
pub open spec fn digits(n: nat) -> Seq<char>
    decreases n,
{
    if n < 10 {
        seq![digit_char(n)]
    } else {
        digits(n / 10).push(digit_char(n % 10))
    }
}

/// `n` in decimal, with a minus sign when it is negative.
pub open spec fn signed_digits(n: int) -> Seq<char> {
    if n < 0 {
        seq!['-'] + digits((-n) as nat)
    } else {
        digits(n as nat)
    }
}

/// Whether every character is a decimal digit.
pub open spec fn all_digits(s: Seq<char>) -> bool {
    forall|i: int| 0 <= i < s.len() ==> text::is_digit(#[trigger] s[i])
}

/// The number that a run of decimal digits writes.
pub open spec fn value_of(s: Seq<char>) -> nat
    decreases s.len(),
{
    if s.len() == 0 {
        0
    } else {
        value_of(s.drop_last()) * 10 + (s.last() as u32 - '0' as u32) as nat
    }
}

/// The number that a text writes as decimal digits after an optional plus sign.
pub open spec fn unsigned_value(s: Seq<char>) -> Option<nat> {
    let t = if text::begins_with(s, '+') {
        s.skip(1)
    } else {
        s
    };
    if t.len() > 0 && all_digits(t) {
        Some(value_of(t))
    } else {
        None
    }
}

/// Reading the decimal digits of a number gives the number back.
pub proof fn lemma_digits_read_back(n: nat)
    ensures
        all_digits(digits(n)),
        digits(n).len() > 0,
        value_of(digits(n)) == n,
        unsigned_value(digits(n)) == Some(n),
    decreases n,
{
    reveal_with_fuel(value_of, 2);
    if n >= 10 {
        lemma_digits_read_back(n / 10);
        let s = digits(n);
        assert(s.drop_last() =~= digits(n / 10));
        assert(s.last() == digit_char(n % 10));
        assert(text::is_digit(s.last()));
        assert forall|i: int| 0 <= i < s.len() implies text::is_digit(#[trigger] s[i]) by {
            if i < s.len() - 1 {
                assert(s[i] == s.drop_last()[i]);
            }
        }
    } else {
        let s = digits(n);
        assert(s.drop_last() =~= Seq::<char>::empty());
        assert(s.last() == digit_char(n));
    }
    assert(text::is_digit(digits(n)[0]));
}

/// A longer run of digits never writes a smaller number than its beginning.
pub proof fn lemma_value_grows(s: Seq<char>, i: int)
    requires
        0 <= i <= s.len(),
        all_digits(s),
    ensures
        value_of(s.take(i)) <= value_of(s),
    decreases s.len() - i,
{
    if i < s.len() {
        let t = s.drop_last();
        assert(all_digits(t));
        lemma_value_grows(t, i);
        assert(t.take(i) =~= s.take(i));
        assert(text::is_digit(s[s.len() - 1]));
    } else {
        assert(s.take(i) =~= s);
    }
}

/// `n` in decimal.
pub fn decimal(n: u128) -> (r: String)
    ensures
        r@ == digits(n as nat),
    decreases n,
{
    let d: u8 = (n % 10) as u8;
    let c: char = (48u8 + d) as char;
    if n < 10 {
        let mut r = String::new();
        r.push(c);
        assert(r@ =~= digits(n as nat));
        r
    } else {
        let mut r = decimal(n / 10);
        r.push(c);
        r
    }
}

/// `n` in decimal, with a minus sign when it is negative.
pub fn signed_decimal(n: i32) -> (r: String)
    ensures
        r@ == signed_digits(n as int),
{
    if n < 0 {
        let m: i64 = -(n as i64);
        let mut r = String::new();
        r.push('-');
        let d = decimal(m as u128);
        r.append(d.as_str());
        assert(r@ =~= signed_digits(n as int));
        r
    } else {
        decimal(n as u128)
    }
}

/// Whether every character of `s` is a decimal digit.
pub fn only_digits(s: &str) -> (r: bool)
    ensures
        r == all_digits(s@),
{
    for ch in it: s.chars()
        invariant
            it.seq() == s@,
            forall|j: int| 0 <= j < it.index() ==> text::is_digit(s@[j]),
    {
        if !('0' <= ch && ch <= '9') {
            assert(!text::is_digit(s@[it.index()]));
            return false;
        }
    }
    true
}

/// The number that a run of decimal digits writes, when it fits 16 bits.
pub fn digits_u16(s: &str) -> (r: Option<u16>)
    requires
        all_digits(s@),
    ensures
        r matches Some(n) ==> n == value_of(s@),
        r is Some <==> value_of(s@) <= u16::MAX,
{
    let mut n: u32 = 0;
    for ch in it: s.chars()
        invariant
            it.seq() == s@,
            all_digits(s@),
            n == value_of(s@.take(it.index())),
            n <= u16::MAX,
    {
        proof {
            let k = it.index();
            assert(text::is_digit(s@[k]));
            assert(s@.take(k + 1).drop_last() =~= s@.take(k));
            assert(s@.take(k + 1).last() == ch);
            lemma_value_grows(s@, k + 1);
        }
        n = n * 10 + (ch as u32 - 48);
        if n > 65535 {
            return None;
        }
    }
    assert(s@.take(s@.len() as int) =~= s@);
    Some(n as u16)
}

/// The number that `s` writes as decimal digits after an optional plus sign, when it fits 16
/// bits.
pub fn parse_u16(s: &str) -> (r: Option<u16>)
    ensures
        r matches Some(n) ==> unsigned_value(s@) == Some(n as nat),
        r is None ==> match unsigned_value(s@) {
            Some(n) => n > u16::MAX,
            None => true,
        },
{
    let t = if text::starts_with_char(s, '+') {
        text::after_first(s)
    } else {
        s
    };
    if t.is_empty() || !only_digits(t) {
        return None;
    }
    digits_u16(t)
}

/// The upper-case hexadecimal digit of `d`.
pub open spec fn hex_digit(d: nat) -> char {
    if d < 10 {
        digit_char(d)
    } else {
        ('A' as u32 + (d - 10)) as char
    }
}

/// The lower-case hexadecimal digit of `d`.
pub open spec fn lower_hex_digit(d: nat) -> char {
    if d < 10 {
        digit_char(d)
    } else {
        ('a' as u32 + (d - 10)) as char
    }
}

/// The lower-case hexadecimal digits of `n`, without leading zeros.
pub open spec fn hex_text(n: nat) -> Seq<char>
    decreases n,
{
    if n < 16 {
        seq![lower_hex_digit(n)]
    } else {
        hex_text(n / 16).push(lower_hex_digit(n % 16))
    }
}

/// A number in hexadecimal has a digit, and nothing but digits.
pub proof fn lemma_hex_text(n: nat)
    ensures
        hex_text(n).len() > 0,
        forall|i: int| 0 <= i < hex_text(n).len() ==> text::is_hex(#[trigger] hex_text(n)[i]),
    decreases n,
{
    if n >= 16 {
        lemma_hex_text(n / 16);
    }
}

/// Two different numbers differ in hexadecimal.
pub proof fn lemma_hex_text_reads_back(n: nat, m: nat)
    requires
        hex_text(n) == hex_text(m),
    ensures
        n == m,
    decreases n,
{
    lemma_hex_text(n / 16);
    lemma_hex_text(m / 16);
    assert(hex_text(n).last() == lower_hex_digit(n % 16));
    assert(hex_text(m).last() == lower_hex_digit(m % 16));
    assert(n % 16 == m % 16);
    if n >= 16 && m >= 16 {
        assert(hex_text(n).drop_last() =~= hex_text(n / 16));
        assert(hex_text(m).drop_last() =~= hex_text(m / 16));
        lemma_hex_text_reads_back(n / 16, m / 16);
    }
}

/// The upper-case hexadecimal digit of `d`.
pub fn hex_upper(d: u8) -> (r: char)
    requires
        d < 16,
    ensures
        r == hex_digit(d as nat),
{
    if d < 10 {
        (48u8 + d) as char
    } else {
        (65u8 + (d - 10)) as char
    }
}

} // verus!
