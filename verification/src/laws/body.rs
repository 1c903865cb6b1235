//! Laws of how a response body is read and judged.

use crate::cli::HttpArgs;
use crate::laws::texts;
use crate::probes::http_body;
use crate::probes::http_body::{BodyView, Verdict};
use crate::text_match;
use vstd::prelude::*;
use vstd::utf8;

verus! {

/// Whether a body is what the arguments ask for: equal to the text that it must equal, with every
/// text that it must contain in it, and with none that it must not contain.
pub open spec fn is_wanted(args: HttpArgs, body: Seq<u8>) -> bool {
    &&& args.body_equals matches Some(text) ==> body == utf8::encode_utf8(text@)
    &&& texts::has_texts(body, args.contains@)
    &&& forall|i: int|
        0 <= i < args.not_contains@.len() ==> !text_match::contains(
            body,
            utf8::encode_utf8((#[trigger] args.not_contains@[i])@),
        )
}

/// Whether what is kept of a body is the front of it, all of it where its end was seen and nothing
/// was dropped; and the size that was announced, if one was, is the size of it.
pub open spec fn is_front(view: BodyView, body: Seq<u8>) -> bool {
    &&& view.capture.bytes.len() <= body.len()
    &&& view.capture.bytes == body.take(view.capture.bytes.len() as int)
    &&& view.ended && !view.capture.incomplete ==> view.capture.bytes == body
    &&& view.size.exact matches Some(n) ==> n == body.len()
}

proof fn lemma_wants(args: HttpArgs, body: Seq<u8>)
    ensures
        http_body::meets(body, http_body::wants_of(args)) <==> is_wanted(args, body),
{
    let wants = http_body::wants_of(args);
    assert forall|i: int| 0 <= i < args.contains@.len() implies #[trigger] wants.contains[i]
        == utf8::encode_utf8(args.contains@[i]@) by {
    }
    assert forall|i: int| 0 <= i < args.not_contains@.len() implies #[trigger] wants.not_contains[i]
        == utf8::encode_utf8(args.not_contains@[i]@) by {
    }
    if is_wanted(args, body) {
        assert forall|i: int| 0 <= i < wants.contains.len() implies text_match::contains(
            body,
            #[trigger] wants.contains[i],
        ) by {
            assert(wants.contains[i] == utf8::encode_utf8(args.contains@[i]@));
        }
        assert forall|i: int| 0 <= i < wants.not_contains.len() implies !text_match::contains(
            body,
            #[trigger] wants.not_contains[i],
        ) by {
            assert(wants.not_contains[i] == utf8::encode_utf8(args.not_contains@[i]@));
        }
    }
    if http_body::meets(body, wants) {
        assert forall|i: int| 0 <= i < args.contains@.len() implies text_match::contains(
            body,
            utf8::encode_utf8((#[trigger] args.contains@[i])@),
        ) by {
            assert(text_match::contains(body, wants.contains[i]));
        }
        assert forall|i: int| 0 <= i < args.not_contains@.len() implies !text_match::contains(
            body,
            utf8::encode_utf8((#[trigger] args.not_contains@[i])@),
        ) by {
            assert(!text_match::contains(body, wants.not_contains[i]));
        }
    }
}

/// However little of a body was read, it is accepted only where all of the body, and not just the
/// part that was read, is what the arguments ask for. Where all of it was read, it is accepted
/// exactly there. What is not accepted is a failure of the probe, which either is certain or comes
/// of dropping a part of the body.
pub proof fn lemma_accepted_body(args: HttpArgs, view: BodyView, body: Seq<u8>, target: Seq<char>)
    requires
        is_front(view, body),
        http_body::next_step(view, http_body::wants_of(args), args.max_body as int) is Done,
    ensures
        ({
            let verdict = http_body::verdict(view, http_body::wants_of(args));
            let fault = http_body::verdict_fault(verdict, args, target);
            &&& fault is None ==> is_wanted(args, body)
            &&& view.ended && !view.capture.incomplete ==> (fault is None <==> is_wanted(args, body))
            &&& fault is Some ==> !is_wanted(args, body) || view.capture.incomplete
            &&& fault matches Some(e) ==> e is Failure
        }),
{
    let wants = http_body::wants_of(args);
    assert(http_body::read_of(view, body));
    http_body::lemma_verdict_is_sound(view, wants, body);
    lemma_wants(args, body);
}

/// Reading stops once the end was seen or something was dropped. It stops before that only where
/// what was read settles the matter. Of all bodies that begin with it, either each is what the
/// arguments ask for or none is.
pub proof fn lemma_reading_stops_when_decided(
    args: HttpArgs,
    view: BodyView,
    one: Seq<u8>,
    other: Seq<u8>,
)
    requires
        is_front(view, one),
        is_front(view, other),
    ensures
        view.ended || view.capture.incomplete ==> http_body::next_step(
            view,
            http_body::wants_of(args),
            args.max_body as int,
        ) is Done,
        http_body::next_step(view, http_body::wants_of(args), args.max_body as int) is Done
            && !view.ended && !view.capture.incomplete ==> (is_wanted(args, one) <==> is_wanted(
            args,
            other,
        )),
{
    let wants = http_body::wants_of(args);
    if http_body::next_step(view, wants, args.max_body as int) is Done && !view.ended
        && !view.capture.incomplete {
        http_body::lemma_verdict_is_sound(view, wants, one);
        http_body::lemma_verdict_is_sound(view, wants, other);
        lemma_wants(args, one);
        lemma_wants(args, other);
    }
}

/// Nothing more is read once it is known that the body differs from the text that it must equal, or
/// that it has all texts that it must contain and either a text that it must not contain or none of
/// those to look for.
pub proof fn lemma_no_more_is_read_than_needed(args: HttpArgs, view: BodyView)
    requires
        ({
            ||| args.body_equals matches Some(text) && !(view.capture.bytes.len()
                <= utf8::encode_utf8(text@).len() && utf8::encode_utf8(text@).take(
                view.capture.bytes.len() as int,
            ) == view.capture.bytes)
            ||| args.body_equals is None && texts::has_texts(view.capture.bytes, args.contains@) && (
            args.not_contains@.len() == 0 || exists|i: int|
                0 <= i < args.not_contains@.len() && text_match::contains(
                    view.capture.bytes,
                    utf8::encode_utf8((#[trigger] args.not_contains@[i])@),
                ))
        }),
    ensures
        http_body::next_step(view, http_body::wants_of(args), args.max_body as int) is Done,
{
    let wants = http_body::wants_of(args);
    if args.body_equals is None {
        assert forall|i: int| 0 <= i < wants.contains.len() implies view.found(
            #[trigger] wants.contains[i],
        ) by {
            assert(wants.contains[i] == utf8::encode_utf8(args.contains@[i]@));
        }
        if args.not_contains@.len() > 0 {
            let i = choose|i: int|
                0 <= i < args.not_contains@.len() && text_match::contains(
                    view.capture.bytes,
                    utf8::encode_utf8((#[trigger] args.not_contains@[i])@),
                );
            assert(view.found(wants.not_contains[i]));
        }
    }
}

/// The text that a verdict speaks of is the first one that is missing from what was read, or the
/// first one that is in it and must not be.
pub proof fn lemma_verdict_names_the_text(args: HttpArgs, view: BodyView)
    ensures
        ({
            let verdict = http_body::verdict(view, http_body::wants_of(args));
            let bytes = view.capture.bytes;
            &&& forall|i: int|
                verdict == Verdict::Missing(i) || verdict == Verdict::MissingUnproven(i) ==> 0 <= i
                    < args.contains@.len() && !text_match::contains(
                    bytes,
                    utf8::encode_utf8((#[trigger] args.contains@[i])@),
                ) && texts::has_texts(bytes, args.contains@.take(i))
            &&& forall|i: int|
                verdict == Verdict::Forbidden(i) ==> 0 <= i < args.not_contains@.len()
                    && text_match::contains(
                    bytes,
                    utf8::encode_utf8((#[trigger] args.not_contains@[i])@),
                )
        }),
{
    let wants = http_body::wants_of(args);
    let bytes = view.capture.bytes;
    text_match::lemma_missing_range(bytes, wants.contains);
    text_match::lemma_found_range(bytes, wants.not_contains);
    let m = text_match::first_missing(bytes, wants.contains);
    if m < wants.contains.len() {
        let front = args.contains@.take(m);
        assert forall|j: int| 0 <= j < front.len() implies text_match::contains(
            bytes,
            utf8::encode_utf8((#[trigger] front[j])@),
        ) by {
            assert(text_match::contains(bytes, wants.contains[j]));
        }
    }
}

/// Only the end is waited for, without keeping any more, exactly where the room is used up, the size
/// that was announced does not show that nothing follows, only texts to contain are asked for and
/// some are not found yet.
pub proof fn lemma_waiting_for_the_end(args: HttpArgs, view: BodyView)
    requires
        !view.ended,
        !view.capture.incomplete,
    ensures
        http_body::next_step(view, http_body::wants_of(args), args.max_body as int) is AwaitEnd <==> {
            &&& args.body_equals is None
            &&& args.not_contains@.len() == 0
            &&& !texts::has_texts(view.capture.bytes, args.contains@)
            &&& view.capture.bytes.len() >= args.max_body
            &&& view.size.upper matches Some(n) ==> n > args.max_body
        },
{
    let wants = http_body::wants_of(args);
    let bytes = view.capture.bytes;
    if texts::has_texts(bytes, args.contains@) {
        assert forall|i: int| 0 <= i < wants.contains.len() implies view.found(
            #[trigger] wants.contains[i],
        ) by {
            assert(wants.contains[i] == utf8::encode_utf8(args.contains@[i]@));
        }
    } else {
        let i = choose|i: int|
            0 <= i < args.contains@.len() && !text_match::contains(
                bytes,
                utf8::encode_utf8((#[trigger] args.contains@[i])@),
            );
        assert(wants.contains[i] == utf8::encode_utf8(args.contains@[i]@));
        assert(!view.found(wants.contains[i]));
    }
}

/// What comes in is kept behind what is there up to the limit, and nothing is dropped unless the
/// limit is reached. What is dropped, or is announced to go beyond the limit, is not forgotten.
pub proof fn lemma_kept_up_to_the_limit(view: BodyView, chunk: Seq<u8>, limit: int)
    requires
        view.capture.bytes.len() <= limit,
    ensures
        ({
            let next = http_body::after_data(view, chunk, limit);
            let all = view.capture.bytes + chunk;
            &&& all.len() <= limit ==> next.capture.bytes == all
            &&& all.len() > limit ==> next.capture.bytes == all.take(limit)
                && next.capture.incomplete
            &&& next.capture.incomplete <==> view.capture.incomplete || all.len() > limit || (
            next.capture.bytes.len() == limit && (view.size.upper matches Some(n) && n > limit))
            &&& next.ended == view.ended
            &&& next.size == view.size
        }),
{
    let next = http_body::after_data(view, chunk, limit);
    let all = view.capture.bytes + chunk;
    if all.len() > limit {
        assert(next.capture.bytes =~= all.take(limit));
    }
}

} // verus!
