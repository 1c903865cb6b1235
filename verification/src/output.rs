//! The line that reports a healthy probe.

use crate::number;
use crate::text;
use vstd::prelude::*;

verus! {

/// A character as it stands in a quoted field.
pub open spec fn escape_field_char(c: char) -> Seq<char> {
    if c == '\\' {
        seq!['\\', '\\']
    } else if c == '"' {
        seq!['\\', '"']
    } else if c == '\n' {
        seq!['\\', 'n']
    } else if c == '\r' {
        seq!['\\', 'r']
    } else if c == '\t' {
        seq!['\\', 't']
    } else if text::is_ctl(c) {
        seq![
            '\\',
            'u',
            '{',
            '0',
            '0',
            number::hex_digit((c as u32 / 16) as nat),
            number::hex_digit((c as u32 % 16) as nat),
            '}',
        ]
    } else {
        seq![c]
    }
}

/// The characters of a quoted field.
pub open spec fn escape_field(s: Seq<char>) -> Seq<char>
    decreases s.len(),
{
    if s.len() == 0 {
        Seq::empty()
    } else {
        escape_field(s.drop_last()) + escape_field_char(s.last())
    }
}

/// A field value in double quotes.
pub open spec fn quoted_field(s: Seq<char>) -> Seq<char> {
    seq!['"'] + escape_field(s) + seq!['"']
}

/// The line that reports a healthy probe.
pub open spec fn success_line(
    mode: Seq<char>,
    target: Seq<char>,
    duration_ms: nat,
    detail: Option<Seq<char>>,
) -> Seq<char> {
    let line = "result=healthy mode="@ + mode + " target="@ + quoted_field(target)
        + " duration_ms="@ + number::digits(duration_ms);
    match detail {
        Some(detail) if detail.len() > 0 => line + " detail="@ + quoted_field(detail),
        _ => line,
    }
}

/// Whether a text holds no control character.
pub open spec fn no_control(s: Seq<char>) -> bool {
    forall|i: int| 0 <= i < s.len() ==> !text::is_ctl(#[trigger] s[i])
}

/// A quoted field holds no raw control character, so a field never breaks the line.
pub proof fn lemma_field_has_no_control(s: Seq<char>)
    ensures
        no_control(quoted_field(s)),
{
    lemma_escape_has_no_control(s);
}

/// The line that reports a healthy probe is one line, whatever the target and the detail are: it
/// holds no control character unless the mode does.
pub proof fn lemma_success_is_one_line(
    mode: Seq<char>,
    target: Seq<char>,
    duration_ms: nat,
    detail: Option<Seq<char>>,
)
    requires
        no_control(mode),
    ensures
        no_control(success_line(mode, target, duration_ms, detail)),
{
    reveal_strlit("result=healthy mode=");
    reveal_strlit(" target=");
    reveal_strlit(" duration_ms=");
    reveal_strlit(" detail=");
    lemma_field_has_no_control(target);
    number::lemma_digits_read_back(duration_ms);
    let digits = number::digits(duration_ms);
    assert(no_control(digits)) by {
        assert forall|i: int| 0 <= i < digits.len() implies !text::is_ctl(#[trigger] digits[i]) by {
            assert(text::is_digit(digits[i]));
        }
    }
    let a = "result=healthy mode="@ + mode;
    lemma_no_control_joins("result=healthy mode="@, mode);
    lemma_no_control_joins(a, " target="@);
    let b = a + " target="@;
    lemma_no_control_joins(b, quoted_field(target));
    let c = b + quoted_field(target);
    lemma_no_control_joins(c, " duration_ms="@);
    let d = c + " duration_ms="@;
    lemma_no_control_joins(d, digits);
    if let Some(detail) = detail {
        lemma_field_has_no_control(detail);
        lemma_no_control_joins(d + digits, " detail="@);
        lemma_no_control_joins(d + digits + " detail="@, quoted_field(detail));
    }
}

proof fn lemma_no_control_joins(a: Seq<char>, b: Seq<char>)
    requires
        no_control(a),
        no_control(b),
    ensures
        no_control(a + b),
{
    assert forall|i: int| 0 <= i < (a + b).len() implies !text::is_ctl(#[trigger] (a + b)[i]) by {
        if i < a.len() {
            assert((a + b)[i] == a[i]);
        } else {
            assert((a + b)[i] == b[i - a.len()]);
        }
    }
}

proof fn lemma_escape_has_no_control(s: Seq<char>)
    ensures
        forall|i: int| 0 <= i < escape_field(s).len() ==> !text::is_ctl(#[trigger] escape_field(s)[i]),
    decreases s.len(),
{
    if s.len() > 0 {
        lemma_escape_has_no_control(s.drop_last());
        let c = s.last();
        let e = escape_field_char(c);
        assert forall|i: int| 0 <= i < e.len() implies !text::is_ctl(#[trigger] e[i]) by {
            if text::is_ctl(c) {
                text::lemma_char_code(c);
                assert(c as u32 <= 0x9f);
            }
        }
        let head = escape_field(s.drop_last());
        assert forall|i: int| 0 <= i < escape_field(s).len() implies !text::is_ctl(
            #[trigger] escape_field(s)[i],
        ) by {
            if i >= head.len() {
                assert(escape_field(s)[i] == e[i - head.len()]);
            } else {
                assert(escape_field(s)[i] == head[i]);
            }
        }
    }
}

proof fn lemma_escape_front(c: char, s: Seq<char>)
    ensures
        escape_field(seq![c] + s) == escape_field_char(c) + escape_field(s),
    decreases s.len(),
{
    let all = seq![c] + s;
    if s.len() == 0 {
        assert(all.drop_last() =~= Seq::empty());
        assert(escape_field(all.drop_last()).len() == 0);
        assert(escape_field(all) =~= escape_field_char(c) + escape_field(s));
    } else {
        assert(all.drop_last() =~= seq![c] + s.drop_last());
        lemma_escape_front(c, s.drop_last());
        assert(escape_field(all) =~= escape_field_char(c) + escape_field(s));
    }
}

proof fn lemma_escape_char_reads(c: char, d: char, x: Seq<char>, y: Seq<char>)
    requires
        escape_field_char(c) + x == escape_field_char(d) + y,
    ensures
        c == d,
        x == y,
{
    let a = escape_field_char(c) + x;
    let b = escape_field_char(d) + y;
    assert(a[0] == escape_field_char(c)[0]);
    assert(b[0] == escape_field_char(d)[0]);
    if a[0] == '\\' {
        assert(escape_field_char(c).len() >= 2 && escape_field_char(d).len() >= 2);
        assert(a[1] == escape_field_char(c)[1]);
        assert(b[1] == escape_field_char(d)[1]);
        if a[1] == 'u' {
            assert(escape_field_char(c).len() == 8 && escape_field_char(d).len() == 8);
            assert(a[5] == escape_field_char(c)[5] && b[5] == escape_field_char(d)[5]);
            assert(a[6] == escape_field_char(c)[6] && b[6] == escape_field_char(d)[6]);
            text::lemma_char_code(c);
            text::lemma_char_code(d);
            assert(c as u32 <= 0x9f && d as u32 <= 0x9f);
        }
    }
    assert(c == d);
    assert(x =~= a.skip(escape_field_char(c).len() as int));
    assert(y =~= b.skip(escape_field_char(d).len() as int));
}

/// Two different values never have the same quoted form, so a field can be read back.
pub proof fn lemma_field_reads_back(s: Seq<char>, t: Seq<char>)
    requires
        quoted_field(s) == quoted_field(t),
    ensures
        s == t,
{
    let a = quoted_field(s);
    let b = quoted_field(t);
    assert(escape_field(s) =~= a.subrange(1, a.len() - 1));
    assert(escape_field(t) =~= b.subrange(1, b.len() - 1));
    lemma_escape_reads_back(s, t);
}

proof fn lemma_escape_reads_back(s: Seq<char>, t: Seq<char>)
    requires
        escape_field(s) == escape_field(t),
    ensures
        s == t,
    decreases s.len(),
{
    if s.len() > 0 {
        assert(s =~= seq![s[0]] + s.skip(1));
        lemma_escape_front(s[0], s.skip(1));
    }
    if t.len() > 0 {
        assert(t =~= seq![t[0]] + t.skip(1));
        lemma_escape_front(t[0], t.skip(1));
    }
    if s.len() > 0 && t.len() > 0 {
        lemma_escape_char_reads(s[0], t[0], escape_field(s.skip(1)), escape_field(t.skip(1)));
        lemma_escape_reads_back(s.skip(1), t.skip(1));
    } else {
        assert(s.len() == 0 && t.len() == 0);
        assert(s =~= t);
    }
}

/// The value in double quotes, with quotes, backslashes and control characters escaped.
pub fn quote_field_value(value: &str) -> (r: String)
    ensures
        r@ == quoted_field(value@),
{
    let mut escaped = String::new();
    escaped.push('"');
    assert(escaped@ =~= seq!['"'] + escape_field(value@.take(0)));
    for ch in it: value.chars()
        invariant
            it.seq() == value@,
            escaped@ == seq!['"'] + escape_field(value@.take(it.index())),
    {
        let ghost before = escaped@;
        if ch == '\\' {
            escaped.push('\\');
            escaped.push('\\');
        } else if ch == '"' {
            escaped.push('\\');
            escaped.push('"');
        } else if ch == '\n' {
            escaped.push('\\');
            escaped.push('n');
        } else if ch == '\r' {
            escaped.push('\\');
            escaped.push('r');
        } else if ch == '\t' {
            escaped.push('\\');
            escaped.push('t');
        } else if text::is_control(ch) {
            proof {
                text::lemma_char_code(ch);
            }
            let code: u8 = ch as u8;
            escaped.push('\\');
            escaped.push('u');
            escaped.push('{');
            escaped.push('0');
            escaped.push('0');
            escaped.push(number::hex_upper(code / 16));
            escaped.push(number::hex_upper(code % 16));
            escaped.push('}');
        } else {
            escaped.push(ch);
        }
        proof {
            let k = it.index();
            assert(escaped@ =~= before + escape_field_char(ch));
            assert(value@.take(k + 1).drop_last() =~= value@.take(k));
            assert(value@.take(k + 1).last() == ch);
            assert(escaped@ =~= seq!['"'] + escape_field(value@.take(k + 1)));
        }
    }
    assert(value@.take(value@.len() as int) =~= value@);
    escaped.push('"');
    assert(escaped@ =~= quoted_field(value@));
    escaped
}

/// The line that reports a healthy probe: its mode, its target, how long it took and, where there
/// is something to say, a detail.
pub fn format_success(mode: &str, target: &str, duration_ms: u128, detail: Option<&str>) -> (r:
    String)
    ensures
        r@ == success_line(
            mode@,
            target@,
            duration_ms as nat,
            match detail {
                Some(detail) => Some(detail@),
                None => None,
            },
        ),
{
    let mut line = "result=healthy mode=".to_owned();
    line.append(mode);
    line.append(" target=");
    line.append(quote_field_value(target).as_str());
    line.append(" duration_ms=");
    line.append(number::decimal(duration_ms).as_str());
    if let Some(detail) = detail {
        if !detail.is_empty() {
            line.append(" detail=");
            line.append(quote_field_value(detail).as_str());
        }
    }
    line
}

proof fn lemma_escape_ends(s: Seq<char>, t: Seq<char>, x: Seq<char>, y: Seq<char>)
    requires
        escape_field(s) + seq!['"'] + x == escape_field(t) + seq!['"'] + y,
    ensures
        s == t,
        x == y,
    decreases s.len(),
{
    let a = escape_field(s) + seq!['"'] + x;
    let b = escape_field(t) + seq!['"'] + y;
    if s.len() > 0 {
        let rest = s.skip(1);
        assert(s =~= seq![s[0]] + rest);
        lemma_escape_front(s[0], rest);
        assert(a =~= escape_field_char(s[0]) + (escape_field(rest) + seq!['"'] + x));
        assert(a[0] == escape_field_char(s[0])[0]);
    } else {
        assert(a =~= seq!['"'] + x);
    }
    if t.len() > 0 {
        let rest = t.skip(1);
        assert(t =~= seq![t[0]] + rest);
        lemma_escape_front(t[0], rest);
        assert(b =~= escape_field_char(t[0]) + (escape_field(rest) + seq!['"'] + y));
        assert(b[0] == escape_field_char(t[0])[0]);
    } else {
        assert(b =~= seq!['"'] + y);
    }
    if s.len() > 0 && t.len() > 0 {
        lemma_escape_char_reads(
            s[0],
            t[0],
            escape_field(s.skip(1)) + seq!['"'] + x,
            escape_field(t.skip(1)) + seq!['"'] + y,
        );
        lemma_escape_ends(s.skip(1), t.skip(1), x, y);
    } else if s.len() == 0 && t.len() == 0 {
        assert(s =~= t);
        assert(x =~= a.skip(1));
        assert(y =~= b.skip(1));
    } else {
        assert(a[0] == b[0]);
        assert(false);
    }
}

proof fn lemma_quoted_ends(s: Seq<char>, t: Seq<char>, x: Seq<char>, y: Seq<char>)
    requires
        quoted_field(s) + x == quoted_field(t) + y,
    ensures
        s == t,
        x == y,
{
    let a = escape_field(s) + seq!['"'] + x;
    let b = escape_field(t) + seq!['"'] + y;
    assert((quoted_field(s) + x).skip(1) =~= a);
    assert((quoted_field(t) + y).skip(1) =~= b);
    lemma_escape_ends(s, t, x, y);
}

proof fn lemma_digits_end(n: nat, m: nat, x: Seq<char>, y: Seq<char>)
    requires
        number::digits(n) + x == number::digits(m) + y,
        x.len() > 0 ==> !text::is_digit(x[0]),
        y.len() > 0 ==> !text::is_digit(y[0]),
    ensures
        n == m,
        x == y,
{
    let p = number::digits(n);
    let q = number::digits(m);
    number::lemma_digits_read_back(n);
    number::lemma_digits_read_back(m);
    if p.len() < q.len() {
        assert((p + x)[p.len() as int] == x[0]);
        assert((q + y)[p.len() as int] == q[p.len() as int]);
        assert(text::is_digit(q[p.len() as int]));
    } else if q.len() < p.len() {
        assert((q + y)[q.len() as int] == y[0]);
        assert((p + x)[q.len() as int] == p[q.len() as int]);
        assert(text::is_digit(p[q.len() as int]));
    } else {
        assert(p =~= (p + x).take(p.len() as int));
        assert(q =~= (q + y).take(p.len() as int));
        assert(x =~= (p + x).skip(p.len() as int));
        assert(y =~= (q + y).skip(p.len() as int));
    }
}

/// The line of a healthy target tells the target, the duration and the detail: where one of them
/// differs, so does the line. An empty detail is told as none.
pub proof fn lemma_line_tells_all(
    mode: Seq<char>,
    target: Seq<char>,
    other_target: Seq<char>,
    ms: nat,
    other_ms: nat,
    detail: Option<Seq<char>>,
    other_detail: Option<Seq<char>>,
)
    requires
        success_line(mode, target, ms, detail) == success_line(
            mode,
            other_target,
            other_ms,
            other_detail,
        ),
    ensures
        target == other_target,
        ms == other_ms,
        (detail matches Some(text) && text.len() > 0) || (other_detail matches Some(text)
            && text.len() > 0) ==> detail == other_detail,
{
    reveal_strlit(" duration_ms=");
    reveal_strlit(" detail=");
    let front = "result=healthy mode="@ + mode + " target="@;
    let tail = |detail: Option<Seq<char>>|
        match detail {
            Some(text) if text.len() > 0 => " detail="@ + quoted_field(text),
            _ => Seq::empty(),
        };
    let x = " duration_ms="@ + (number::digits(ms) + tail(detail));
    let y = " duration_ms="@ + (number::digits(other_ms) + tail(other_detail));
    assert(success_line(mode, target, ms, detail) =~= front + (quoted_field(target) + x));
    assert(success_line(mode, other_target, other_ms, other_detail) =~= front + (quoted_field(
        other_target,
    ) + y));
    assert((front + (quoted_field(target) + x)).skip(front.len() as int) =~= quoted_field(target)
        + x);
    assert((front + (quoted_field(other_target) + y)).skip(front.len() as int) =~= quoted_field(
        other_target,
    ) + y);
    lemma_quoted_ends(target, other_target, x, y);
    let n = " duration_ms="@.len() as int;
    assert(x.skip(n) =~= number::digits(ms) + tail(detail));
    assert(y.skip(n) =~= number::digits(other_ms) + tail(other_detail));
    lemma_digits_end(ms, other_ms, tail(detail), tail(other_detail));
    let k = " detail="@.len() as int;
    if (detail matches Some(text) && text.len() > 0) || (other_detail matches Some(text)
        && text.len() > 0) {
        assert(tail(detail).len() > 0);
        assert(tail(detail).skip(k) =~= quoted_field(detail->0) + Seq::<char>::empty());
        assert(tail(other_detail).skip(k) =~= quoted_field(other_detail->0) + Seq::<char>::empty());
        lemma_quoted_ends(detail->0, other_detail->0, Seq::empty(), Seq::empty());
    }
}

} // verus!
