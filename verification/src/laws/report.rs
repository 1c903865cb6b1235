//! Laws of how a run ends and what it tells.

use crate::cli;
use crate::cli::{FileArgs, TcpArgs};
use crate::diagnostic;
use crate::error::Result;
use crate::number;
use crate::os_text;
use crate::output;
use crate::probe;
use crate::probe::{ProbeOptions, ProbeReport};
use crate::probes::exec;
use crate::probes::file;
use crate::probes::tcp;
use crate::text;
use crate::timing;
use crate::timing::{Part, Span};
use vstd::prelude::*;
use vstd::utf8;

verus! {

/// A run ends with 0 exactly where the probe found a healthy target that answered within the limit,
/// if there is one. A target that answered too slowly is a failure, with 1. An error has its own
/// code: 1 for a failure, 3 for a configuration that cannot be used, 4 for a fault of the tool.
pub proof fn lemma_how_a_run_ends(result: Result<ProbeReport>, quiet: bool)
    ensures
        result matches Ok(report) ==> {
            let late = report.options.max_latency matches Some(limit) && limit@ < report.elapsed@;
            &&& probe::exit_code_of(result) == if late {
                1int
            } else {
                0
            }
            &&& late ==> (probe::exit_line_of(result, quiet) is None <==> quiet)
            &&& !late ==> (probe::exit_line_of(result, quiet) is None <==> report.options.quiet
                || !report.options.verbose)
        },
        result matches Err(e) ==> {
            &&& e@ is Failure ==> probe::exit_code_of(result) == 1
            &&& e@ is InvalidConfig ==> probe::exit_code_of(result) == 3
            &&& e@ is Internal ==> probe::exit_code_of(result) == 4
            &&& probe::exit_line_of(result, quiet) == if quiet {
                None
            } else {
                Some(e@.message())
            }
        },
{
}

/// A line for a healthy target tells the milliseconds that it took, rounded down.
pub proof fn lemma_line_tells_milliseconds(report: ProbeReport, ms: nat)
    requires
        ms * 1_000_000 <= report.elapsed@ < (ms + 1) * 1_000_000,
    ensures
        report.line() == output::success_line(
            report.mode@,
            report.target@,
            ms,
            match report.detail {
                Some(detail) => Some(detail@),
                None => None,
            },
        ),
{
    assert(report.elapsed@ / 1_000_000 == ms);
}

/// The options are sound exactly where the timeout is not zero and its end can be told, and the
/// limit of the latency, if there is one, is not zero. Else the configuration is at fault.
pub proof fn lemma_sound_options(options: ProbeOptions, has_deadline: bool)
    ensures
        options.fault(has_deadline) is None <==> options.timeout@ > 0 && has_deadline && (
        options.max_latency matches Some(limit) ==> limit@ > 0),
        options.fault(has_deadline) matches Some(e) ==> e is InvalidConfig,
{
}

/// A text is shown as it is exactly where it is not empty and has no white space, no control
/// character, no quote and no backslash in it. Else it is shown between quotes.
pub proof fn lemma_shown_as_it_is(s: Seq<char>)
    ensures
        diagnostic::shown(s) == s <==> s.len() > 0 && forall|i: int|
            0 <= i < s.len() ==> !text::is_white(#[trigger] s[i]) && !text::is_ctl(s[i]) && s[i]
                != '"' && s[i] != '\\',
        diagnostic::shown(s) != s ==> diagnostic::shown(s).len() >= 2 && diagnostic::shown(s)[0] == '"'
            && diagnostic::shown(s).last() == '"',
{
    let quoted = diagnostic::debug_text(s);
    if diagnostic::needs_quotes(s) {
        if quoted == s {
            lemma_quotes_grow(s);
        }
    }
}

proof fn lemma_quotes_grow(s: Seq<char>)
    ensures
        os_text::escaped_text(s).len() >= s.len(),
        diagnostic::debug_text(s).len() > s.len(),
    decreases s.len(),
{
    if s.len() > 0 {
        lemma_quotes_grow(s.skip(1));
        assert(os_text::char_in_quotes(s[0]).len() >= 1);
        assert(os_text::escaped_text(s) == os_text::char_in_quotes(s[0]) + os_text::escaped_text(
            s.skip(1),
        ));
    }
}

/// What is shown of a path that is a text is the text, in messages with quotes where it needs them.
pub proof fn lemma_path_is_shown(path: Seq<u8>)
    requires
        utf8::valid_utf8(path),
    ensures
        diagnostic::field_os(path) == utf8::decode_utf8(path),
        diagnostic::shown_os(path) == diagnostic::shown(utf8::decode_utf8(path)),
{
}

/// The report of a command gives its name and its exit code, that of a file its path and its length,
/// that of a connection its address; each gives the time that it took and the options that it had.
pub proof fn lemma_reports(
    report: ProbeReport,
    label: Seq<char>,
    code: i32,
    file_args: FileArgs,
    len: u64,
    tcp_args: TcpArgs,
    elapsed: Span,
    options: ProbeOptions,
)
    ensures
        exec::is_report(report, label, code, elapsed, options) ==> report.mode@ == "exec"@
            && report.target@ == label && (report.detail matches Some(detail) && detail@
            == "exit_code="@ + number::signed_digits(code as int)),
        file::is_report(report, file_args, len, elapsed, options) ==> report.mode@ == "file"@ && (
        utf8::valid_utf8(file_args.path@) ==> report.target@ == utf8::decode_utf8(file_args.path@))
            && (report.detail matches Some(detail) && detail@ == "size="@ + number::digits(
            len as nat,
        ) + "B"@),
        tcp::is_report(report, tcp_args, elapsed, options) ==> report.mode@ == "tcp"@
            && report.target@ == tcp_args.addr@ && (report.detail matches Some(detail) && detail@
            == "connected"@),
        exec::is_report(report, label, code, elapsed, options) || file::is_report(
            report,
            file_args,
            len,
            elapsed,
            options,
        ) || tcp::is_report(report, tcp_args, elapsed, options) ==> report.elapsed == elapsed
            && report.options == options,
{
}

/// The number that digits are, read from the front behind a number that was read before.
spec fn read_on(digits: Seq<char>, number: nat) -> nat
    decreases digits.len(),
{
    if digits.len() == 0 {
        number
    } else {
        read_on(digits.skip(1), number * 10 + (digits[0] as u32 - '0' as u32) as nat)
    }
}

proof fn lemma_read_last(digits: Seq<char>, number: nat)
    requires
        digits.len() > 0,
    ensures
        read_on(digits, number) == read_on(digits.drop_last(), number) * 10 + (digits.last() as u32
            - '0' as u32) as nat,
    decreases digits.len(),
{
    if digits.len() == 1 {
        assert(digits.skip(1) =~= Seq::empty());
        assert(digits.drop_last() =~= Seq::empty());
        assert(read_on(digits.skip(1), number * 10 + (digits[0] as u32 - '0' as u32) as nat)
            == number * 10 + (digits[0] as u32 - '0' as u32) as nat);
        assert(read_on(digits.drop_last(), number) == number);
    } else {
        let next = number * 10 + (digits[0] as u32 - '0' as u32) as nat;
        lemma_read_last(digits.skip(1), next);
        assert(digits.skip(1).drop_last() =~= digits.drop_last().skip(1));
        assert(digits.drop_last()[0] == digits[0]);
    }
}

proof fn lemma_read_all(digits: Seq<char>)
    ensures
        read_on(digits, 0) == number::value_of(digits),
    decreases digits.len(),
{
    if digits.len() > 0 {
        lemma_read_last(digits, 0);
        lemma_read_all(digits.drop_last());
    }
}

proof fn lemma_read_grows(digits: Seq<char>, number: nat)
    ensures
        read_on(digits, number) >= number,
    decreases digits.len(),
{
    if digits.len() > 0 {
        lemma_read_grows(digits.skip(1), number * 10 + (digits[0] as u32 - '0' as u32) as nat);
    }
}

proof fn lemma_number_part(digits: Seq<char>, unit: Seq<char>, number: u64)
    requires
        number::all_digits(digits),
        read_on(digits, number as nat) <= u64::MAX,
    ensures
        timing::parts_sum(digits + unit, number, Part::Number) == timing::parts_sum(
            unit,
            read_on(digits, number as nat) as u64,
            Part::Number,
        ),
    decreases digits.len(),
{
    let s = digits + unit;
    if digits.len() == 0 {
        assert(s =~= unit);
    } else {
        assert(text::is_digit(digits[0]));
        let next = number as nat * 10 + (digits[0] as u32 - '0' as u32) as nat;
        lemma_read_grows(digits.skip(1), next);
        assert(s.skip(1) =~= digits.skip(1) + unit);
        assert(s[0] == digits[0]);
        assert forall|i: int| 0 <= i < digits.skip(1).len() implies text::is_digit(
            #[trigger] digits.skip(1)[i],
        ) by {
            assert(text::is_digit(digits[i + 1]));
        }
        lemma_number_part(digits.skip(1), unit, next as u64);
    }
}

proof fn lemma_letters_add_nothing(unit: Seq<char>, number: u64)
    requires
        forall|i: int| 0 <= i < unit.len() ==> text::is_letter(#[trigger] unit[i]),
    ensures
        timing::parts_sum(unit, number, Part::Unit) == 0,
    decreases unit.len(),
{
    if unit.len() > 0 {
        assert(text::is_letter(unit[0]));
        assert forall|i: int| 0 <= i < unit.skip(1).len() implies text::is_letter(
            #[trigger] unit.skip(1)[i],
        ) by {
            assert(text::is_letter(unit[i + 1]));
        }
        lemma_letters_add_nothing(unit.skip(1), number);
    }
}

/// How many nanoseconds a unit of time has.
pub open spec fn unit_size(unit: Seq<char>) -> nat {
    if unit == "ns"@ {
        1
    } else if unit == "us"@ {
        1_000
    } else if unit == "ms"@ {
        1_000_000
    } else if unit == "s"@ {
        1_000_000_000
    } else if unit == "m"@ || unit == "min"@ {
        60 * 1_000_000_000
    } else if unit == "h"@ {
        60 * 60 * 1_000_000_000
    } else if unit == "d"@ {
        24 * 60 * 60 * 1_000_000_000
    } else {
        7 * 24 * 60 * 60 * 1_000_000_000
    }
}

/// A number with a unit of time behind it is as long as it says: it is refused for its length only
/// where so many units are longer than the longest span, and white space around it does not count.
pub proof fn lemma_duration_is_as_long_as_it_says(n: u64, unit: Seq<char>, raw: Seq<char>)
    requires
        unit == "ns"@ || unit == "us"@ || unit == "ms"@ || unit == "s"@ || unit == "m"@ || unit
            == "min"@ || unit == "h"@ || unit == "d"@ || unit == "w"@,
        text::trim_spec(raw) == number::digits(n as nat) + unit,
    ensures
        n * unit_size(unit) <= timing::longest() ==> cli::duration_of(raw) == timing::duration_value(
            number::digits(n as nat) + unit,
        ),
        n * unit_size(unit) > timing::longest() ==> cli::duration_of(raw) is None,
{
    reveal_strlit("ns");
    reveal_strlit("us");
    reveal_strlit("ms");
    reveal_strlit("s");
    reveal_strlit("m");
    reveal_strlit("min");
    reveal_strlit("h");
    reveal_strlit("d");
    reveal_strlit("w");
    let digits = number::digits(n as nat);
    number::lemma_digits_read_back(n as nat);
    lemma_read_all(digits);
    lemma_number_part(digits, unit, 0);
    assert forall|i: int| 0 <= i < unit.len() implies text::is_letter(#[trigger] unit[i]) by {
    }
    assert forall|i: int| 0 <= i < unit.skip(1).len() implies text::is_letter(
        #[trigger] unit.skip(1)[i],
    ) by {
        assert(text::is_letter(unit[i + 1]));
    }
    lemma_letters_add_nothing(unit.skip(1), n);
    assert(text::is_letter(unit[0]));
    assert(timing::unit_nanos(unit) == unit_size(unit)) by {
        assert(unit.len() == 1 || unit.len() == 2 || unit.len() == 3);
    }
    assert(timing::parts_sum(unit, n, Part::Number) == n as nat * timing::unit_nanos(unit));
}

proof fn lemma_field_joins(a: Seq<char>, b: Seq<char>)
    ensures
        output::escape_field(a + b) == output::escape_field(a) + output::escape_field(b),
    decreases b.len(),
{
    if b.len() == 0 {
        assert(a + b =~= a);
        assert(output::escape_field(a) + output::escape_field(b) =~= output::escape_field(a));
    } else {
        lemma_field_joins(a, b.drop_last());
        assert((a + b).drop_last() =~= a + b.drop_last());
        assert((a + b).last() == b.last());
        assert(output::escape_field(a + b) =~= output::escape_field(a) + output::escape_field(b));
    }
}

/// In a field, wherever they stand: a line feed, a carriage return and a tab are written as the
/// letters `n`, `r` and `t` behind a backslash, a quote and a backslash as themselves behind one, and
/// every other character that is no control character as itself alone.
pub proof fn lemma_field_escapes(before: Seq<char>, c: char, after: Seq<char>)
    ensures
        ({
            let whole = output::escape_field(before + seq![c] + after);
            let front = output::escape_field(before);
            let back = output::escape_field(after);
            &&& c == '\n' ==> whole == front + seq!['\\', 'n'] + back
            &&& c == '\r' ==> whole == front + seq!['\\', 'r'] + back
            &&& c == '\t' ==> whole == front + seq!['\\', 't'] + back
            &&& c == '"' || c == '\\' ==> whole == front + seq!['\\', c] + back
            &&& c != '"' && c != '\\' && ' ' <= c && !('\u{7f}' <= c <= '\u{9f}') ==> whole == front
                + seq![c] + back
        }),
{
    lemma_field_joins(before + seq![c], after);
    lemma_field_joins(before, seq![c]);
    assert(seq![c].drop_last() =~= Seq::empty());
    assert(output::escape_field(Seq::<char>::empty()) =~= Seq::empty());
    assert(seq![c].last() == c);
    assert(output::escape_field(seq![c]) =~= output::escape_field_char(c));
}

proof fn lemma_quotes_join(a: Seq<char>, b: Seq<char>)
    ensures
        os_text::escaped_text(a + b) == os_text::escaped_text(a) + os_text::escaped_text(b),
    decreases a.len(),
{
    if a.len() == 0 {
        assert(a + b =~= b);
        assert(os_text::escaped_text(a) + os_text::escaped_text(b) =~= os_text::escaped_text(b));
    } else {
        lemma_quotes_join(a.skip(1), b);
        assert((a + b).skip(1) =~= a.skip(1) + b);
        assert((a + b)[0] == a[0]);
        assert(os_text::escaped_text(a + b) =~= os_text::escaped_text(a) + os_text::escaped_text(b));
    }
}

/// Between quotes in a message the same holds of them, and every other printable ASCII character
/// is written as itself.
pub proof fn lemma_message_escapes(before: Seq<char>, c: char, after: Seq<char>)
    ensures
        ({
            let whole = os_text::escaped_text(before + seq![c] + after);
            let front = os_text::escaped_text(before);
            let back = os_text::escaped_text(after);
            &&& c == '\n' ==> whole == front + seq!['\\', 'n'] + back
            &&& c == '\r' ==> whole == front + seq!['\\', 'r'] + back
            &&& c == '\t' ==> whole == front + seq!['\\', 't'] + back
            &&& c == '\0' ==> whole == front + seq!['\\', '0'] + back
            &&& c == '"' || c == '\\' ==> whole == front + seq!['\\', c] + back
            &&& c != '"' && c != '\\' && ' ' <= c <= '~' ==> whole == front + seq![c] + back
        }),
{
    lemma_quotes_join(before + seq![c], after);
    lemma_quotes_join(before, seq![c]);
    assert(seq![c].skip(1) =~= Seq::empty());
    assert(os_text::escaped_text(Seq::<char>::empty()) =~= Seq::empty());
    assert(os_text::escaped_text(seq![c]) =~= os_text::char_in_quotes(c));
}

/// Ten, so many times multiplied.
pub open spec fn ten_to(n: nat) -> nat
    decreases n,
{
    if n == 0 {
        1
    } else {
        10 * ten_to((n - 1) as nat)
    }
}

proof fn lemma_ten_grows(den: nat, n: nat)
    ensures
        den * ten_to(n) >= den,
    decreases n,
{
    if n > 0 {
        lemma_ten_grows(den, (n - 1) as nat);
        let t = ten_to((n - 1) as nat);
        assert(den * (10 * t) >= den * t) by (nonlinear_arith);
    } else {
        assert(ten_to(0) == 1);
        assert(den * 1 == den) by (nonlinear_arith);
    }
}

proof fn lemma_fraction_part(digits: Seq<char>, unit: Seq<char>, number: u64, num: u64, den: u64)
    requires
        number::all_digits(digits),
        read_on(digits, num as nat) <= u64::MAX,
        den as nat * ten_to(digits.len()) <= u64::MAX,
    ensures
        timing::parts_sum(
            digits + unit,
            number,
            Part::Fraction { numerator: num, denominator: den },
        ) == timing::parts_sum(
            unit,
            number,
            Part::Fraction {
                numerator: read_on(digits, num as nat) as u64,
                denominator: (den as nat * ten_to(digits.len())) as u64,
            },
        ),
    decreases digits.len(),
{
    let s = digits + unit;
    if digits.len() == 0 {
        assert(s =~= unit);
        assert(ten_to(0) == 1);
        assert(den as nat * 1 == den) by (nonlinear_arith);
    } else {
        assert(text::is_digit(digits[0]));
        let rest = digits.skip(1);
        let next = num as nat * 10 + (digits[0] as u32 - '0' as u32) as nat;
        let t = ten_to(rest.len());
        lemma_read_grows(rest, next);
        assert(ten_to(digits.len()) == 10 * t);
        assert(den as nat * (10 * t) == (den as nat * 10) * t) by (nonlinear_arith);
        lemma_ten_grows(den as nat * 10, rest.len());
        assert(s.skip(1) =~= rest + unit);
        assert(s[0] == digits[0]);
        assert forall|i: int| 0 <= i < rest.len() implies text::is_digit(#[trigger] rest[i]) by {
            assert(text::is_digit(digits[i + 1]));
        }
        lemma_fraction_part(rest, unit, number, next as u64, (den * 10) as u64);
    }
}

/// A number with a point in it counts with its fraction, rounded down to a nanosecond.
pub proof fn lemma_fraction_counts(n: u64, fraction: Seq<char>, unit: Seq<char>, raw: Seq<char>)
    requires
        unit == "ms"@ || unit == "s"@ || unit == "m"@ || unit == "h"@,
        number::all_digits(fraction),
        number::value_of(fraction) <= u64::MAX,
        ten_to(fraction.len()) <= u64::MAX,
        text::trim_spec(raw) == number::digits(n as nat) + (seq!['.'] + (fraction + unit)),
    ensures
        ({
            let nanos = n * unit_size(unit) + (number::value_of(fraction) * unit_size(unit)) as nat
                / ten_to(fraction.len());
            &&& nanos <= timing::longest() ==> cli::duration_of(raw) == timing::duration_value(
                text::trim_spec(raw),
            )
            &&& nanos > timing::longest() ==> cli::duration_of(raw) is None
        }),
{
    reveal_strlit("ns");
    reveal_strlit("us");
    reveal_strlit("ms");
    reveal_strlit("s");
    reveal_strlit("m");
    reveal_strlit("min");
    reveal_strlit("h");
    reveal_strlit("d");
    reveal_strlit("w");
    let digits = number::digits(n as nat);
    let tail = seq!['.'] + (fraction + unit);
    number::lemma_digits_read_back(n as nat);
    lemma_read_all(digits);
    lemma_read_all(fraction);
    lemma_number_part(digits, tail, 0);
    assert(tail.skip(1) =~= fraction + unit);
    assert(tail[0] == '.');
    let part = Part::Fraction { numerator: 0, denominator: 1 };
    assert(timing::parts_sum(tail, n, Part::Number) == timing::parts_sum(fraction + unit, n, part));
    assert(1 * ten_to(fraction.len()) == ten_to(fraction.len()));
    lemma_fraction_part(fraction, unit, n, 0, 1);
    lemma_ten_grows(1, fraction.len());
    assert forall|i: int| 0 <= i < unit.skip(1).len() implies text::is_letter(
        #[trigger] unit.skip(1)[i],
    ) by {
        assert(unit.skip(1)[i] == unit[i + 1]);
    }
    lemma_letters_add_nothing(unit.skip(1), n);
    assert(text::is_letter(unit[0]));
    assert(timing::unit_nanos(unit) == unit_size(unit));
}

/// Numbers that differ are written differently, with a dash in front of those below zero alone.
pub proof fn lemma_signed_numbers(a: int, b: int)
    ensures
        number::signed_digits(a) == number::signed_digits(b) ==> a == b,
        number::signed_digits(a)[0] == '-' <==> a < 0,
{
    let p = if a < 0 {
        (-a) as nat
    } else {
        a as nat
    };
    let q = if b < 0 {
        (-b) as nat
    } else {
        b as nat
    };
    number::lemma_digits_read_back(p);
    number::lemma_digits_read_back(q);
    assert(text::is_digit(number::digits(p)[0]));
    assert(text::is_digit(number::digits(q)[0]));
    assert((seq!['-'] + number::digits(p)).skip(1) =~= number::digits(p));
    assert((seq!['-'] + number::digits(q)).skip(1) =~= number::digits(q));
    assert((seq!['-'] + number::digits(p))[0] == '-');
    assert((seq!['-'] + number::digits(q))[0] == '-');
}

/// The number that a hexadecimal digit in upper case stands for.
pub open spec fn hex_value(c: char) -> int {
    if '0' <= c <= '9' {
        c as u32 - '0' as u32
    } else {
        c as u32 - 'A' as u32 + 10
    }
}

/// A byte that begins no character is written as `\x` and its two hexadecimal digits, the higher
/// one first.
pub proof fn lemma_bytes_that_are_no_text(bytes: Seq<u8>)
    requires
        bytes.len() > 0,
        forall|n: int| 1 <= n <= 4 && n <= bytes.len() ==> !utf8::valid_utf8(#[trigger] bytes.take(n)),
    ensures
        ({
            let written = os_text::escaped_bytes(bytes);
            &&& written.len() >= 4
            &&& written[0] == '\\' && written[1] == 'x'
            &&& hex_value(written[2]) * 16 + hex_value(written[3]) == bytes[0]
            &&& written.skip(4) == os_text::escaped_bytes(bytes.skip(1))
        }),
{
    assert(!utf8::valid_utf8(bytes.take(1)));
    if bytes.len() >= 2 {
        assert(!utf8::valid_utf8(bytes.take(2)));
    }
    if bytes.len() >= 3 {
        assert(!utf8::valid_utf8(bytes.take(3)));
    }
    if bytes.len() >= 4 {
        assert(!utf8::valid_utf8(bytes.take(4)));
    }
    let written = os_text::escaped_bytes(bytes);
    let high = number::hex_digit((bytes[0] / 16) as nat);
    let low = number::hex_digit((bytes[0] % 16) as nat);
    assert(written == seq!['\\', 'x', high, low] + os_text::escaped_bytes(bytes.skip(1)));
    assert(written.skip(4) =~= os_text::escaped_bytes(bytes.skip(1)));
    assert(hex_value(high) == bytes[0] / 16);
    assert(hex_value(low) == bytes[0] % 16);
}

} // verus!
