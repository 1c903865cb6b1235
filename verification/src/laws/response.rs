//! Laws of what an HTTP response must be to be accepted.

use crate::cli::HttpArgs;
use crate::error;
use crate::headers;
use crate::laws::texts;
use crate::number;
use crate::probes::http;
use crate::probes::http::{HeaderAssertion, PreparedHttpArgs, Wanted};
use crate::text;
use crate::text_match;
use hyper::header::HeaderValue;
use hyper::HeaderMap;
use vstd::prelude::*;
use vstd::utf8;

verus! {

/// Whether a text of the form `name:value` speaks of this name, in lower case, and of this value.
/// The first colon parts them, and white space around either does not count.
pub open spec fn speaks_of(raw: Seq<char>, name: Seq<char>, value: Seq<char>) -> bool {
    exists|before: Seq<char>, after: Seq<char>|
        raw == #[trigger] (before + seq![':'] + after) && !before.contains(':') && name
            == text::lower_text(text::trim_spec(before)) && value == text::trim_spec(after)
}

/// Whether a text admits a status code: it is that code, or it is `low-high` with the code between
/// the two.
pub open spec fn admits(raw: Seq<char>, code: int) -> bool {
    ||| number::unsigned_value(text::trim_spec(raw)) == Some(code as nat) && code >= 0
    ||| exists|before: Seq<char>, after: Seq<char>|
        {
            &&& raw == #[trigger] (before + seq!['-'] + after)
            &&& !before.contains('-')
            &&& number::unsigned_value(text::trim_spec(before)) matches Some(low)
            &&& number::unsigned_value(text::trim_spec(after)) matches Some(high)
            &&& low <= code <= high
        }
}

/// A response is looked up by the name of a header whatever the case of its letters.
pub proof fn lemma_names_are_caseless(
    response: HeaderMap<HeaderValue>,
    name: Seq<char>,
    other: Seq<char>,
)
    requires
        text::lower_text(name) == text::lower_text(other),
    ensures
        headers::values_under(response, name) == headers::values_under(response, other),
        headers::values_under(response, name).len() > 0 ==> headers::header_contents(
            response,
        ).dom().contains(text::lower_text(name)) && headers::header_contents(
            response,
        )[text::lower_text(name)] == headers::values_under(response, name),
        headers::header_contents(response).dom().contains(text::lower_text(name))
            ==> headers::header_contents(response)[text::lower_text(name)]
            == headers::values_under(response, name),
{
}

/// One of the values is this text.
pub open spec fn one_is(values: Seq<Seq<u8>>, wanted: Seq<char>) -> bool {
    exists|k: int| 0 <= k < values.len() && #[trigger] values[k] == utf8::encode_utf8(wanted)
}

/// One of the values has this text in it.
pub open spec fn one_contains(values: Seq<Seq<u8>>, wanted: Seq<char>) -> bool {
    exists|k: int|
        0 <= k < values.len() && text_match::contains(
            #[trigger] values[k],
            utf8::encode_utf8(wanted),
        )
}

/// None of the values has this text in it.
pub open spec fn none_contains(values: Seq<Seq<u8>>, wanted: Seq<char>) -> bool {
    forall|k: int|
        0 <= k < values.len() ==> !text_match::contains(
            #[trigger] values[k],
            utf8::encode_utf8(wanted),
        )
}

proof fn lemma_wanted(
    response: HeaderMap<HeaderValue>,
    target: Seq<char>,
    list: Seq<HeaderAssertion>,
)
    ensures
        error::first_of(list, http::wanted_check(response, target, Wanted::Equal)) is None <==> (
        forall|i: int|
            0 <= i < list.len() ==> one_is(
                headers::values_under(response, (#[trigger] list[i]).name@),
                list[i].value@,
            )),
        error::first_of(list, http::wanted_check(response, target, Wanted::Contained)) is None
            <==> (forall|i: int|
            0 <= i < list.len() ==> one_contains(
                headers::values_under(response, (#[trigger] list[i]).name@),
                list[i].value@,
            )),
        error::first_of(list, http::wanted_check(response, target, Wanted::Absent)) is None <==> (
        forall|i: int|
            0 <= i < list.len() ==> none_contains(
                headers::values_under(response, (#[trigger] list[i]).name@),
                list[i].value@,
            )),
        forall|w: Wanted|
            (#[trigger] error::first_of(list, http::wanted_check(response, target, w))) is Some
                ==> error::first_of(list, http::wanted_check(response, target, w))->0 is Failure,
{
    let equal = http::wanted_check(response, target, Wanted::Equal);
    let contained = http::wanted_check(response, target, Wanted::Contained);
    let absent = http::wanted_check(response, target, Wanted::Absent);
    texts::lemma_first_element_counts(list, equal);
    texts::lemma_first_element_counts(list, contained);
    texts::lemma_first_element_counts(list, absent);
    assert forall|i: int| 0 <= i < list.len() implies {
        let values = headers::values_under(response, (#[trigger] list[i]).name@);
        &&& equal(list[i]) is None <==> one_is(values, list[i].value@)
        &&& contained(list[i]) is None <==> one_contains(values, list[i].value@)
        &&& absent(list[i]) is None <==> none_contains(values, list[i].value@)
    } by {
    }
    assert forall|w: Wanted|
        (#[trigger] error::first_of(list, http::wanted_check(response, target, w))) is Some implies
        error::first_of(list, http::wanted_check(response, target, w))->0 is Failure by {
        texts::lemma_first_element_counts(list, http::wanted_check(response, target, w));
    }
}

/// A response is accepted exactly where its status lies in one of the ranges, every header that must
/// be there has a value, every header that must equal a text has a value equal to it, every header
/// that must contain a text has a value that contains it, and no value of a header contains a text
/// that it must not contain. A response that is not accepted is a failure of the probe.
pub proof fn lemma_accepted_head(
    status: u16,
    response: HeaderMap<HeaderValue>,
    prepared: PreparedHttpArgs,
    target: Seq<char>,
)
    ensures
        http::head_fault(status, response, prepared, target) is None <==> {
            let ranges = prepared.status_ranges.ranges@;
            let wanted = prepared.header_assertions;
            &&& exists|i: int|
                0 <= i < ranges.len() && (#[trigger] ranges[i]).start <= status && status
                    <= ranges[i].end
            &&& forall|i: int|
                0 <= i < wanted.present@.len() ==> headers::values_under(
                    response,
                    (#[trigger] wanted.present@[i])@,
                ).len() > 0
            &&& forall|i: int|
                0 <= i < wanted.equals@.len() ==> one_is(
                    headers::values_under(response, (#[trigger] wanted.equals@[i]).name@),
                    wanted.equals@[i].value@,
                )
            &&& forall|i: int|
                0 <= i < wanted.contains@.len() ==> one_contains(
                    headers::values_under(response, (#[trigger] wanted.contains@[i]).name@),
                    wanted.contains@[i].value@,
                )
            &&& forall|i: int|
                0 <= i < wanted.not_contains@.len() ==> none_contains(
                    headers::values_under(response, (#[trigger] wanted.not_contains@[i]).name@),
                    wanted.not_contains@[i].value@,
                )
        },
        http::head_fault(status, response, prepared, target) matches Some(e) ==> e is Failure,
{
    let wanted = prepared.header_assertions;
    texts::lemma_first_element_counts(wanted.present@, http::missing_check(response, target));
    lemma_wanted(response, target, wanted.equals@);
    lemma_wanted(response, target, wanted.contains@);
    lemma_wanted(response, target, wanted.not_contains@);
    assert(error::first_of(wanted.present@, http::missing_check(response, target)) is None
        <==> forall|i: int|
        0 <= i < wanted.present@.len() ==> headers::values_under(
            response,
            (#[trigger] wanted.present@[i])@,
        ).len() > 0);
    let ranges = prepared.status_ranges.ranges@;
    if exists|i: int|
        0 <= i < ranges.len() && (#[trigger] ranges[i]).start <= status && status
            <= ranges[i].end {
        let i = choose|i: int|
            0 <= i < ranges.len() && (#[trigger] ranges[i]).start <= status && status
                <= ranges[i].end;
        assert(prepared.status_ranges.ranges@[i].has(status as int));
    }
}

/// A text that is split at the first place of a character has these two parts and no others.
pub proof fn lemma_split_at(raw: Seq<char>, c: char, before: Seq<char>, after: Seq<char>)
    requires
        raw == before + seq![c] + after,
        !before.contains(c),
    ensures
        text::split_once(raw, c) == Some((before, after)),
{
    assert forall|j: int| 0 <= j < before.len() implies raw[j] != c by {
        assert(before[j] == raw[j]);
        assert(before.contains(before[j]));
    }
    assert(raw[before.len() as int] == c);
    text::lemma_find_at(raw, c, before.len() as int);
    assert(raw.take(before.len() as int) =~= before);
    assert(raw.skip(before.len() as int + 1) =~= after);
}

/// A text of the form `name:value` speaks of one name and one value.
pub proof fn lemma_speaks_of_one(raw: Seq<char>)
    requires
        raw.contains(':'),
    ensures
        exists|name: Seq<char>, value: Seq<char>| speaks_of(raw, name, value),
        forall|name: Seq<char>, value: Seq<char>| #[trigger]
            speaks_of(raw, name, value) ==> (name, value) == http::request_header(raw),
{
    texts::lemma_split_is_at_the_first(raw, ':');
    let (before, after) = text::split_once(raw, ':')->0;
    assert(raw == before + seq![':'] + after);
    assert(speaks_of(
        raw,
        text::lower_text(text::trim_spec(before)),
        text::trim_spec(after),
    ));
    assert forall|name: Seq<char>, value: Seq<char>| #[trigger]
        speaks_of(raw, name, value) implies (name, value) == http::request_header(raw) by {
        let (b, a) = choose|b: Seq<char>, a: Seq<char>|
            raw == #[trigger] (b + seq![':'] + a) && !b.contains(':') && name
                == text::lower_text(text::trim_spec(b)) && value == text::trim_spec(a);
        lemma_split_at(raw, ':', b, a);
    }
}

/// A text with a hyphen in it is no number.
pub proof fn lemma_hyphen_is_no_number(s: Seq<char>)
    requires
        s.contains('-'),
    ensures
        number::unsigned_value(text::trim_spec(s)) is None,
{
    texts::lemma_trim_takes_white_ends(s);
    let t = text::trim_spec(s);
    let (i, k) = choose|i: int, k: int|
        0 <= i <= k <= s.len() && t == #[trigger] s.subrange(i, k) && (forall|j: int|
            0 <= j < i || k <= j < s.len() ==> text::is_white(#[trigger] s[j]));
    let d = choose|d: int| 0 <= d < s.len() && s[d] == '-';
    assert(!text::is_white(s[d]));
    assert(t[d - i] == '-');
    if text::begins_with(t, '+') {
        assert(t.skip(1)[d - i - 1] == '-');
        assert(!text::is_digit(t.skip(1)[d - i - 1]));
    } else {
        assert(!text::is_digit(t[d - i]));
    }
}

/// The two numbers that are read from a text admit what the text admits.
pub proof fn lemma_range_admits(raw: Seq<char>, code: int)
    requires
        http::range_fault(raw) is None,
    ensures
        admits(raw, code) <==> http::range_values(raw).0 <= code <= http::range_values(raw).1,
{
    texts::lemma_split_is_at_the_first(raw, '-');
    match text::split_once(raw, '-') {
        Some((before, after)) => {
            assert((before + seq!['-'] + after)[before.len() as int] == '-');
            assert(raw.contains('-'));
            lemma_hyphen_is_no_number(raw);
            assert(raw == before + seq!['-'] + after);
            assert forall|b: Seq<char>, a: Seq<char>|
                raw == #[trigger] (b + seq!['-'] + a) && !b.contains('-') implies b == before && a
                == after by {
                lemma_split_at(raw, '-', b, a);
            }
            if text::trim_spec(before).len() > 0 {
                assert(http::range_parts(raw) == (
                    text::trim_spec(before),
                    Some(text::trim_spec(after)),
                ));
            }
        },
        None => {
            assert forall|b: Seq<char>, a: Seq<char>| raw == #[trigger] (b + seq!['-'] + a) implies
                false by {
                assert((b + seq!['-'] + a)[b.len() as int] == '-');
                assert(raw.contains('-'));
            }
        },
    }
}

/// A response is accepted exactly where it is what the arguments ask for: one of the statuses, or
/// 200 to 299 where none is asked for, and of each header what is asked of it.
pub proof fn lemma_accepted_response(
    args: HttpArgs,
    prepared: PreparedHttpArgs,
    status: u16,
    response: HeaderMap<HeaderValue>,
    target: Seq<char>,
)
    requires
        http::prepared_fault(args) is None,
        http::is_prepared(prepared, args),
    ensures
        http::head_fault(status, response, prepared, target) is None <==> {
            &&& if args.status@.len() == 0 {
                200 <= status <= 299
            } else {
                exists|i: int|
                    0 <= i < args.status@.len() && admits((#[trigger] args.status@[i])@, status as int)
            }
            &&& forall|i: int|
                0 <= i < args.header_present@.len() ==> headers::values_under(
                    response,
                    text::trim_spec((#[trigger] args.header_present@[i])@),
                ).len() > 0
            &&& forall|i: int, name: Seq<char>, value: Seq<char>|
                0 <= i < args.header_equals@.len() && #[trigger] speaks_of(
                    args.header_equals@[i]@,
                    name,
                    value,
                ) ==> one_is(headers::values_under(response, name), value)
            &&& forall|i: int, name: Seq<char>, value: Seq<char>|
                0 <= i < args.header_contains@.len() && #[trigger] speaks_of(
                    args.header_contains@[i]@,
                    name,
                    value,
                ) ==> one_contains(headers::values_under(response, name), value)
            &&& forall|i: int, name: Seq<char>, value: Seq<char>|
                0 <= i < args.header_not_contains@.len() && #[trigger] speaks_of(
                    args.header_not_contains@[i]@,
                    name,
                    value,
                ) ==> none_contains(headers::values_under(response, name), value)
        },
{
    lemma_accepted_head(status, response, prepared, target);
    let wanted = prepared.header_assertions;
    texts::lemma_first_element_counts(
        args.header_equals@,
        http::assertion_check("--header-equals"@, true),
    );
    texts::lemma_first_element_counts(
        args.header_contains@,
        http::assertion_check("--header-contains"@, false),
    );
    texts::lemma_first_element_counts(
        args.header_not_contains@,
        http::assertion_check("--header-not-contains"@, false),
    );
    texts::lemma_first_element_counts(args.status@, http::range_check());
    assert forall|i: int| 0 <= i < args.header_present@.len() implies headers::values_under(
        response,
        text::trim_spec((#[trigger] args.header_present@[i])@),
    ) == headers::values_under(response, wanted.present@[i]@) by {
        let name = text::trim_spec(args.header_present@[i]@);
        texts::lemma_lower_changes_capitals(name);
        assert(wanted.present@[i]@ == text::lower_text(name));
        lemma_names_are_caseless(response, name, wanted.present@[i]@);
    }
    lemma_spoken(args.header_equals@, wanted.equals@);
    lemma_spoken(args.header_contains@, wanted.contains@);
    lemma_spoken(args.header_not_contains@, wanted.not_contains@);
    let ranges = prepared.status_ranges.ranges@;
    if args.status@.len() > 0 {
        assert forall|i: int| 0 <= i < args.status@.len() implies (admits(
            (#[trigger] args.status@[i])@,
            status as int,
        ) <==> ranges[i].start <= status && status <= ranges[i].end) by {
            assert((http::range_check())(args.status@[i]) is None);
            lemma_range_admits(args.status@[i]@, status as int);
            assert(http::range_values(args.status@[i]@) == (
                ranges[i].start as nat,
                ranges[i].end as nat,
            ));
        }
        if exists|i: int|
            0 <= i < args.status@.len() && admits((#[trigger] args.status@[i])@, status as int) {
            let i = choose|i: int|
                0 <= i < args.status@.len() && admits((#[trigger] args.status@[i])@, status as int);
            assert(ranges[i].start <= status && status <= ranges[i].end);
        }
        if exists|i: int|
            0 <= i < ranges.len() && (#[trigger] ranges[i]).start <= status && status
                <= ranges[i].end {
            let i = choose|i: int|
                0 <= i < ranges.len() && (#[trigger] ranges[i]).start <= status && status
                    <= ranges[i].end;
            assert(admits(args.status@[i]@, status as int));
        }
    } else {
        assert(ranges[0].start == 200 && ranges[0].end == 299);
    }
}

proof fn lemma_spoken(raw: Seq<String>, list: Seq<HeaderAssertion>)
    requires
        http::are_assertions(list, raw),
        forall|i: int| 0 <= i < raw.len() ==> (#[trigger] raw[i])@.contains(':'),
    ensures
        list.len() == raw.len(),
        forall|i: int|
            0 <= i < list.len() ==> speaks_of(
                raw[i]@,
                (#[trigger] list[i]).name@,
                list[i].value@,
            ),
        forall|i: int, name: Seq<char>, value: Seq<char>|
            0 <= i < raw.len() && #[trigger] speaks_of(raw[i]@, name, value) ==> name
                == list[i].name@ && value == list[i].value@,
{
    assert forall|i: int| 0 <= i < list.len() implies speaks_of(
        raw[i]@,
        (#[trigger] list[i]).name@,
        list[i].value@,
    ) by {
        assert(raw[i]@.contains(':'));
        lemma_speaks_of_one(raw[i]@);
        let (name, value) = choose|name: Seq<char>, value: Seq<char>|
            speaks_of(raw[i]@, name, value);
        assert(speaks_of(raw[i]@, name, value));
        assert((list[i].name@, list[i].value@) == http::request_header(raw[i]@));
    }
    assert forall|i: int, name: Seq<char>, value: Seq<char>|
        0 <= i < raw.len() && #[trigger] speaks_of(raw[i]@, name, value) implies name
        == list[i].name@ && value == list[i].value@ by {
        assert(raw[i]@.contains(':'));
        lemma_speaks_of_one(raw[i]@);
        assert((list[i].name@, list[i].value@) == http::request_header(raw[i]@));
    }
}

} // verus!
