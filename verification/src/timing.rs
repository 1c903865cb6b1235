//! Spans of time and how they are written.

use crate::text;
use core::time::Duration;
use vstd::prelude::*;

verus! {

/// How many nanoseconds make a second.
pub const NANOS_PER_SEC: u32 = 1_000_000_000;

/// A span of time: whole seconds and the nanoseconds beyond them.
#[derive(Clone, Copy, Debug, PartialEq, Eq, Structural)]
pub struct Span {
    secs: u64,
    nanos: u32,
}

impl View for Span {
    type V = nat;

    /// The span in nanoseconds.
    closed spec fn view(&self) -> nat {
        (self.secs * NANOS_PER_SEC + self.nanos) as nat
    }
}

/// The longest span in nanoseconds.
pub const LONGEST: u128 = 18_446_744_073_709_551_615_999_999_999;

/// The longest span in nanoseconds.
pub open spec fn longest() -> nat {
    (u64::MAX * NANOS_PER_SEC + NANOS_PER_SEC - 1) as nat
}

impl Span {
    #[verifier::type_invariant]
    spec fn wf(self) -> bool {
        self.nanos < NANOS_PER_SEC
    }

    /// Whole seconds and the nanoseconds beyond them.
    pub fn new(secs: u64, nanos: u32) -> (r: Span)
        requires
            nanos < NANOS_PER_SEC,
        ensures
            r@ == secs * NANOS_PER_SEC + nanos,
    {
        Span { secs, nanos }
    }

    /// Whole seconds.
    pub fn from_secs(secs: u64) -> (r: Span)
        ensures
            r@ == secs * NANOS_PER_SEC,
    {
        Span { secs, nanos: 0 }
    }

    /// Milliseconds.
    pub fn from_millis(millis: u64) -> (r: Span)
        ensures
            r@ == millis * 1_000_000,
    {
        Span { secs: millis / 1000, nanos: (millis % 1000) as u32 * 1_000_000 }
    }

    /// A number of nanoseconds that fits.
    pub fn from_nanos(nanos: u128) -> (r: Span)
        requires
            nanos <= longest(),
        ensures
            r@ == nanos,
    {
        Span {
            secs: (nanos / 1_000_000_000) as u64,
            nanos: (nanos % 1_000_000_000) as u32,
        }
    }

    /// The whole seconds.
    pub fn as_secs(&self) -> (r: u64)
        ensures
            r == self@ / NANOS_PER_SEC as nat,
    {
        proof {
            use_type_invariant(self);
        }
        self.secs
    }

    /// The nanoseconds beyond the whole seconds.
    pub fn subsec_nanos(&self) -> (r: u32)
        ensures
            r == self@ % NANOS_PER_SEC as nat,
            r < NANOS_PER_SEC,
    {
        proof {
            use_type_invariant(self);
        }
        self.nanos
    }

    /// The span in nanoseconds.
    pub fn as_nanos(&self) -> (r: u128)
        ensures
            r == self@,
            r <= longest(),
    {
        proof {
            use_type_invariant(self);
        }
        self.secs as u128 * 1_000_000_000 + self.nanos as u128
    }

    /// The span in whole milliseconds.
    pub fn as_millis(&self) -> (r: u128)
        ensures
            r == self@ / 1_000_000,
    {
        self.as_nanos() / 1_000_000
    }

    /// Whether no time passes at all.
    pub fn is_zero(&self) -> (r: bool)
        ensures
            r == (self@ == 0),
    {
        self.secs == 0 && self.nanos == 0
    }

    /// Whether this span is longer than `limit`.
    pub fn exceeds(&self, limit: Span) -> (r: bool)
        ensures
            r == (self@ > limit@),
    {
        self.as_nanos() > limit.as_nanos()
    }

    /// The shorter of the two spans.
    pub fn shorter(self, other: Span) -> (r: Span)
        ensures
            r@ == if self@ <= other@ {
                self@
            } else {
                other@
            },
    {
        if self.exceeds(other) {
            other
        } else {
            self
        }
    }
}

/// What `humantime::format_duration` writes for a span of so many nanoseconds.
pub uninterp spec fn duration_text(nanos: nat) -> Seq<char>;

/// `humantime::format_duration`: the text that its result displays as, under the name
/// `duration_text`.
#[verifier::external_body]
pub(crate) fn format_duration(span: Span) -> (r: String)
    ensures
        r@ == duration_text(span@),
{
    humantime::format_duration(Duration::new(span.secs, span.nanos)).to_string()
}

/// The span in nanoseconds that `humantime::parse_duration` reads from a text, if it reads one.
pub uninterp spec fn duration_value(s: Seq<char>) -> Option<nat>;

/// `humantime::parse_duration`: the span that it reads from a text or that it reads none, under
/// the name `duration_value`. Adding up the parts panics where they come to exactly one nanosecond
/// more than the longest span, which the bound on their sum rules out.
#[verifier::external_body]
pub(crate) fn read_duration(s: &str) -> (r: Option<Span>)
    requires
        parts_sum(s@, 0, Part::Number) <= longest(),
    ensures
        match r {
            Some(span) => duration_value(s@) == Some(span@),
            None => duration_value(s@) is None,
        },
{
    let read = humantime::parse_duration(s).ok()?;
    Some(Span { secs: read.as_secs(), nanos: read.subsec_nanos() })
}

/// Which part of a duration a character follows.
#[derive(Clone, Copy, Debug)]
pub enum Part {
    /// The whole number that a part begins with.
    Number,
    /// The digits behind a decimal point: what they write, and how many tenths, hundredths and so
    /// on make a whole.
    Fraction { numerator: u64, denominator: u64 },
    /// The unit.
    Unit,
}

/// How many nanoseconds the unit that the text begins with stands for.
pub open spec fn unit_nanos(s: Seq<char>) -> nat {
    if s[0] == 'n' {
        1
    } else if s[0] == 'u' || s[0] == '\u{b5}' {
        1000
    } else if s[0] == 'm' && s.len() > 1 && s[1] == 's' {
        1_000_000
    } else if s[0] == 'm' && s.len() > 2 && s[1] == 'i' && s[2] == 'l' {
        1_000_000
    } else if s[0] == 'M' || (s[0] == 'm' && s.len() > 1 && s[1] == 'o') {
        2_630_016_000_000_000
    } else if s[0] == 'm' {
        60_000_000_000
    } else if s[0] == 'h' {
        3_600_000_000_000
    } else if s[0] == 'd' {
        86_400_000_000_000
    } else if s[0] == 'w' {
        604_800_000_000_000
    } else if s[0] == 'y' {
        31_557_600_000_000_000
    } else {
        1_000_000_000
    }
}

/// The nanoseconds that one part of a duration adds.
pub open spec fn part_nanos(number: u64, part: Part, unit: nat) -> nat {
    match part {
        Part::Number => number as nat * unit,
        Part::Fraction { numerator, denominator } => number as nat * unit + (numerator as nat * unit)
            / (denominator as nat),
        Part::Unit => 0,
    }
}

/// The nanoseconds that the parts of a duration add up to, where `number` has been read so far. The
/// sum ends at digits that do not fit in a `u64`: the duration is refused for them.
pub open spec fn parts_sum(s: Seq<char>, number: u64, part: Part) -> nat
    decreases s.len(),
{
    if s.len() == 0 {
        0
    } else if text::is_digit(s[0]) {
        let digit = s[0] as u32 - '0' as u32;
        match part {
            Part::Number => if number * 10 + digit > u64::MAX {
                0
            } else {
                parts_sum(s.skip(1), (number * 10 + digit) as u64, part)
            },
            Part::Fraction { numerator, denominator } => if numerator * 10 + digit > u64::MAX
                || denominator * 10 > u64::MAX {
                0
            } else {
                parts_sum(
                    s.skip(1),
                    number,
                    Part::Fraction {
                        numerator: (numerator * 10 + digit) as u64,
                        denominator: (denominator * 10) as u64,
                    },
                )
            },
            Part::Unit => parts_sum(s.skip(1), digit as u64, Part::Number),
        }
    } else if text::is_letter(s[0]) || s[0] == '\u{b5}' {
        part_nanos(number, part, unit_nanos(s)) + parts_sum(s.skip(1), number, Part::Unit)
    } else if s[0] == '.' && part is Number {
        parts_sum(s.skip(1), number, Part::Fraction { numerator: 0, denominator: 1 })
    } else {
        parts_sum(s.skip(1), number, part)
    }
}

/// How many nanoseconds the unit that begins at `i` stands for.
fn unit_weight(v: &Vec<char>, i: usize) -> (r: u64)
    requires
        i < v@.len(),
    ensures
        r == unit_nanos(v@.skip(i as int)),
        1 <= r <= 31_557_600_000_000_000,
{
    let c: char = v[i];
    let more: usize = v.len() - i;
    if c == 'n' {
        1
    } else if c == 'u' || c == '\u{b5}' {
        1000
    } else if c == 'm' && more > 1 && v[i + 1] == 's' {
        1_000_000
    } else if c == 'm' && more > 2 && v[i + 1] == 'i' && v[i + 2] == 'l' {
        1_000_000
    } else if c == 'M' || (c == 'm' && more > 1 && v[i + 1] == 'o') {
        2_630_016_000_000_000
    } else if c == 'm' {
        60_000_000_000
    } else if c == 'h' {
        3_600_000_000_000
    } else if c == 'd' {
        86_400_000_000_000
    } else if c == 'w' {
        604_800_000_000_000
    } else if c == 'y' {
        31_557_600_000_000_000
    } else {
        1_000_000_000
    }
}

/// The nanoseconds that one part of a duration adds.
fn part_weight(number: u64, part: Part, unit: u64) -> (r: u128)
    requires
        1 <= unit <= 31_557_600_000_000_000,
        part matches Part::Fraction { denominator, .. } ==> denominator > 0,
    ensures
        r == part_nanos(number, part, unit as nat),
        r <= 0x2_0000_0000_0000_0000 * 31_557_600_000_000_000,
{
    proof {
        lemma_product_bound(number as nat, unit as nat);
    }
    match part {
        Part::Number => number as u128 * unit as u128,
        Part::Fraction { numerator, denominator } => {
            proof {
                lemma_product_bound(numerator as nat, unit as nat);
            }
            let product: u128 = numerator as u128 * unit as u128;
            let fraction: u128 = product / denominator as u128;
            assert(fraction <= product) by (nonlinear_arith)
                requires
                    fraction == product / denominator as u128,
                    denominator > 0,
            ;
            number as u128 * unit as u128 + fraction
        },
        Part::Unit => 0,
    }
}

proof fn lemma_product_bound(n: nat, unit: nat)
    requires
        n <= u64::MAX,
        unit <= 31_557_600_000_000_000,
    ensures
        0 <= n * unit <= 0x1_0000_0000_0000_0000 * 31_557_600_000_000_000,
{
    assert(0 <= n * unit <= 0x1_0000_0000_0000_0000 * 31_557_600_000_000_000) by (nonlinear_arith)
        requires
            0 <= n <= 0x1_0000_0000_0000_0000,
            0 <= unit <= 31_557_600_000_000_000,
    ;
}

/// Whether the parts of a duration add up to a span at all.
pub fn duration_fits(s: &str) -> (r: bool)
    ensures
        r == (parts_sum(s@, 0, Part::Number) <= longest()),
{
    let v = text::chars_of(s);
    let mut total: u128 = 0;
    let mut number: u64 = 0;
    let mut part = Part::Number;
    let mut i: usize = 0;
    assert(s@.skip(0) =~= s@);
    while i < v.len()
        invariant
            v@ == s@,
            i <= v@.len(),
            total <= longest(),
            part matches Part::Fraction { denominator, .. } ==> denominator > 0,
            parts_sum(s@, 0, Part::Number) == total + parts_sum(s@.skip(i as int), number, part),
        decreases v.len() - i,
    {
        let c: char = v[i];
        let ghost rest = s@.skip(i as int);
        assert(rest[0] == c);
        assert(rest.skip(1) =~= s@.skip(i + 1));
        if '0' <= c && c <= '9' {
            let digit: u64 = (c as u8 - 48) as u64;
            match part {
                Part::Number => {
                    if number > (u64::MAX - digit) / 10 {
                        return true;
                    }
                    number = number * 10 + digit;
                },
                Part::Fraction { numerator, denominator } => {
                    if numerator > (u64::MAX - digit) / 10 || denominator > u64::MAX / 10 {
                        return true;
                    }
                    part =
                    Part::Fraction {
                        numerator: numerator * 10 + digit,
                        denominator: denominator * 10,
                    };
                },
                Part::Unit => {
                    number = digit;
                    part = Part::Number;
                },
            }
        } else if ('a' <= c && c <= 'z') || ('A' <= c && c <= 'Z') || c == '\u{b5}' {
            let unit: u64 = unit_weight(&v, i);
            total = total + part_weight(number, part, unit);
            if total > LONGEST {
                return false;
            }
            part = Part::Unit;
        } else if c == '.' {
            if let Part::Number = part {
                part = Part::Fraction { numerator: 0, denominator: 1 };
            }
        }
        i = i + 1;
    }
    true
}

} // verus!
