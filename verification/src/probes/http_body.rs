//! Reading a response body as far as its assertions need it, and what it proves.

use crate::capture::{CaptureBuffer, CaptureView};
use crate::cli::HttpArgs;
use crate::diagnostic;
use crate::error;
use crate::error::{AppError, ErrorView, Result};
use crate::number;
use crate::text_match;
use crate::text_match::TextMatcher;
use vstd::prelude::*;
use vstd::utf8;

verus! {

/// What the response says of the length of its body.
#[derive(Clone, Copy, Debug)]
pub struct BodySize {
    /// The most bytes that it can have, if that is known.
    pub upper: Option<u64>,
    /// The bytes that it has, if that is known.
    pub exact: Option<u64>,
}

/// What the assertions on a body look for, as bytes.
pub struct BodyWants {
    pub equals: Option<Seq<u8>>,
    pub contains: Seq<Seq<u8>>,
    pub not_contains: Seq<Seq<u8>>,
}

/// What the arguments want of the body.
pub open spec fn wants_of(args: HttpArgs) -> BodyWants {
    BodyWants {
        equals: match args.body_equals {
            Some(text) => Some(utf8::encode_utf8(text@)),
            None => None,
        },
        contains: text_match::utf8_needles(args.contains@),
        not_contains: text_match::utf8_needles(args.not_contains@),
    }
}

/// Whether a body meets all that is wanted of it.
pub open spec fn meets(body: Seq<u8>, wants: BodyWants) -> bool {
    &&& wants.equals matches Some(expected) ==> body == expected
    &&& forall|i: int|
        0 <= i < wants.contains.len() ==> text_match::contains(body, #[trigger] wants.contains[i])
    &&& forall|i: int|
        0 <= i < wants.not_contains.len() ==> !text_match::contains(
            body,
            #[trigger] wants.not_contains[i],
        )
}

/// What has been read of a body.
pub struct BodyView {
    pub capture: CaptureView,
    pub size: BodySize,
    /// Whether the end of the body has been seen.
    pub ended: bool,
}

/// Whether `bytes` is how `all` begins.
pub open spec fn is_prefix(bytes: Seq<u8>, all: Seq<u8>) -> bool {
    bytes.len() <= all.len() && all.take(bytes.len() as int) == bytes
}

impl BodyView {
    /// Whether the captured bytes are the whole body.
    pub open spec fn complete(self) -> bool {
        self.ended && !self.capture.incomplete
    }

    /// Whether what has been read proves that the body is not `expected`.
    pub open spec fn differs_from(self, expected: Seq<u8>) -> bool {
        ||| self.size.exact matches Some(n) && n != expected.len()
        ||| !is_prefix(self.capture.bytes, expected)
        ||| self.complete() && self.capture.bytes != expected
    }

    /// Whether a text has been found.
    pub open spec fn found(self, needle: Seq<u8>) -> bool {
        text_match::contains(self.capture.bytes, needle)
    }

    /// Whether no more bytes can change the verdict.
    pub open spec fn decided(self, wants: BodyWants) -> bool {
        match wants.equals {
            Some(expected) => self.differs_from(expected),
            None => {
                &&& forall|i: int|
                    0 <= i < wants.contains.len() ==> self.found(#[trigger] wants.contains[i])
                &&& wants.not_contains.len() == 0 || exists|i: int|
                    0 <= i < wants.not_contains.len() && self.found(
                        #[trigger] wants.not_contains[i],
                    )
            },
        }
    }

    /// Whether reading is over: the body has ended, bytes were dropped or will be, or the verdict
    /// is known.
    pub open spec fn finished(self, wants: BodyWants) -> bool {
        self.ended || self.capture.incomplete || self.decided(wants)
    }
}

/// What the captured bytes say of the assertions.
pub enum Verdict {
    /// All assertions hold.
    Accepted,
    /// The body is another than the wanted one.
    Different,
    /// The body may or may not be the wanted one.
    DifferenceUnproven,
    /// The text with this index is missing.
    Missing(int),
    /// The text with this index may or may not be missing.
    MissingUnproven(int),
    /// The forbidden text with this index is there.
    Forbidden(int),
    /// Forbidden text may or may not be there.
    ForbiddenUnproven,
}

/// The verdict on what has been read: the exact text first, then the required texts in their
/// order, then the forbidden ones.
pub open spec fn verdict(view: BodyView, wants: BodyWants) -> Verdict {
    let bytes = view.capture.bytes;
    let missing = text_match::first_missing(bytes, wants.contains);
    let forbidden = text_match::first_found(bytes, wants.not_contains);
    if wants.equals matches Some(expected) && view.differs_from(expected) {
        Verdict::Different
    } else if wants.equals is Some && !view.complete() {
        Verdict::DifferenceUnproven
    } else if missing < wants.contains.len() {
        if view.complete() {
            Verdict::Missing(missing)
        } else {
            Verdict::MissingUnproven(missing)
        }
    } else if forbidden < wants.not_contains.len() {
        Verdict::Forbidden(forbidden)
    } else if wants.not_contains.len() > 0 && !view.complete() {
        Verdict::ForbiddenUnproven
    } else {
        Verdict::Accepted
    }
}

/// Whether what has been read fits a body: its first bytes, all of them where the end was seen and
/// nothing dropped, and as long as the response says.
pub open spec fn read_of(view: BodyView, body: Seq<u8>) -> bool {
    &&& is_prefix(view.capture.bytes, body)
    &&& view.complete() ==> view.capture.bytes == body
    &&& view.size.exact matches Some(n) ==> n == body.len()
}

/// However early reading stopped, an accepted body meets all that is wanted of it, and a body that
/// is found different, to lack a text or to hold a forbidden one does not. A verdict that leaves it
/// open comes only where bytes are missing.
pub proof fn lemma_verdict_is_sound(view: BodyView, wants: BodyWants, body: Seq<u8>)
    requires
        read_of(view, body),
        view.finished(wants),
    ensures
        verdict(view, wants) is Accepted ==> meets(body, wants),
        verdict(view, wants) is Different || verdict(view, wants) is Missing || verdict(
            view,
            wants,
        ) is Forbidden ==> !meets(body, wants),
        view.complete() ==> (verdict(view, wants) is Accepted <==> meets(body, wants)),
        verdict(view, wants) is DifferenceUnproven || verdict(view, wants) is MissingUnproven
            || verdict(view, wants) is ForbiddenUnproven ==> view.capture.incomplete,
{
    let bytes = view.capture.bytes;
    text_match::lemma_missing_range(bytes, wants.contains);
    text_match::lemma_found_range(bytes, wants.not_contains);
    let rest = body.skip(bytes.len() as int);
    assert(bytes + rest =~= body) by {
        assert(body =~= body.take(bytes.len() as int) + rest);
    }
    assert forall|needle: Seq<u8>| #[trigger] text_match::contains(bytes, needle) implies text_match::contains(
        body,
        needle,
    ) by {
        text_match::lemma_contains_grows(Seq::empty(), bytes, rest, needle);
        assert(Seq::<u8>::empty() + bytes + rest =~= body);
    }
    if let Some(expected) = wants.equals {
        if view.differs_from(expected) {
            assert(body != expected);
        }
    }
    let m = text_match::first_missing(bytes, wants.contains);
    if m < wants.contains.len() {
        assert(!text_match::contains(bytes, wants.contains[m]));
    }
    let f = text_match::first_found(bytes, wants.not_contains);
    if f < wants.not_contains.len() {
        assert(text_match::contains(body, wants.not_contains[f]));
    }
}

/// The error that a verdict stands for.
pub open spec fn verdict_fault(v: Verdict, args: HttpArgs, target: Seq<char>) -> Option<ErrorView> {
    let head = "response body from "@ + target;
    let truncated = head + " was truncated at "@ + number::digits(args.max_body as nat)
        + " bytes, cannot prove "@;
    match v {
        Verdict::Accepted => None,
        Verdict::Different => error::failure_fault(
            head + " does not equal required text "@ + diagnostic::debug_text(
                args.body_equals->0@,
            ),
        ),
        Verdict::DifferenceUnproven => error::failure_fault(truncated + "exact body match"@),
        Verdict::Missing(i) => error::failure_fault(
            head + " does not contain required text "@ + diagnostic::debug_text(
                args.contains@[i]@,
            ),
        ),
        Verdict::MissingUnproven(i) => error::failure_fault(
            truncated + "required text "@ + diagnostic::debug_text(args.contains@[i]@),
        ),
        Verdict::Forbidden(i) => error::failure_fault(
            head + " contains forbidden text "@ + diagnostic::debug_text(
                args.not_contains@[i]@,
            ),
        ),
        Verdict::ForbiddenUnproven => error::failure_fault(
            truncated + "negative body assertions"@,
        ),
    }
}

/// How many milliseconds the end of a body is waited for once no more of it is kept.
pub const BODY_END_GRACE_MILLIS: u64 = 100;

/// What to do next with a body.
#[derive(Clone, Copy, Debug, PartialEq, Eq, Structural)]
pub enum BodyStep {
    /// Wait for more of it.
    Read,
    /// Wait a short while for its end: no more of it is kept.
    AwaitEnd,
    /// Stop reading.
    Done,
}

/// A body on its way in.
#[derive(Debug)]
pub struct BodyReader {
    capture: CaptureBuffer,
    size: BodySize,
    ended: bool,
    limit: usize,
    equals: Option<Vec<u8>>,
    required: TextMatcher,
    forbidden: TextMatcher,
}

impl View for BodyReader {
    type V = BodyView;

    closed spec fn view(&self) -> BodyView {
        BodyView { capture: self.capture@, size: self.size, ended: self.ended }
    }
}

/// Whether the response says that the body is longer than what is kept.
pub open spec fn declared_beyond(size: BodySize, limit: int) -> bool {
    size.upper matches Some(n) && n > limit
}

/// Whether the body can be longer than what is kept.
pub open spec fn may_go_beyond(size: BodySize, limit: int) -> bool {
    size.upper matches Some(n) ==> n > limit
}

/// What has been read of a body once more of it has arrived. A body that is declared longer than
/// what is kept is known to be incomplete as soon as no more is kept.
pub open spec fn after_data(view: BodyView, chunk: Seq<u8>, limit: int) -> BodyView {
    let capture = view.capture.append(chunk, limit);
    BodyView {
        capture: CaptureView {
            bytes: capture.bytes,
            incomplete: capture.incomplete || (declared_beyond(view.size, limit)
                && capture.bytes.len() >= limit),
        },
        ..view
    }
}

/// What to do next with a body. Where only required text is looked for, a full capture of a body
/// that may go on is worth a short wait for its end.
pub open spec fn next_step(view: BodyView, wants: BodyWants, limit: int) -> BodyStep {
    if view.finished(wants) {
        BodyStep::Done
    } else if wants.equals is None && wants.not_contains.len() == 0 && view.capture.bytes.len()
        >= limit && may_go_beyond(view.size, limit) {
        BodyStep::AwaitEnd
    } else {
        BodyStep::Read
    }
}

impl BodyReader {
    /// What the assertions look for.
    pub closed spec fn wants(&self) -> BodyWants {
        BodyWants {
            equals: match self.equals {
                Some(bytes) => Some(bytes@),
                None => None,
            },
            contains: self.required.needles(),
            not_contains: self.forbidden.needles(),
        }
    }

    /// How many bytes are kept.
    pub closed spec fn limit(&self) -> usize {
        self.limit
    }

    /// The marks of what has been found are right for the captured bytes, and no more is kept than
    /// the limit allows.
    pub closed spec fn wf(&self) -> bool {
        &&& self.required.wf()
        &&& self.forbidden.wf()
        &&& self.required.matched().len() == self.required.needles().len()
        &&& self.forbidden.matched().len() == self.forbidden.needles().len()
        &&& self.required.tracks(self.capture@.bytes)
        &&& self.forbidden.tracks(self.capture@.bytes)
        &&& self.capture@.bytes.len() <= self.limit
    }

    /// A body of which nothing has been read yet.
    pub fn new(args: &HttpArgs, size: BodySize) -> (r: BodyReader)
        ensures
            r.wf(),
            r.wants() == wants_of(*args),
            r.limit() == args.max_body,
            r@ == (BodyView { capture: CaptureView::empty(), size, ended: false }),
    {
        let equals = match &args.body_equals {
            Some(text) => Some(text.as_str().as_bytes_vec()),
            None => None,
        };
        BodyReader {
            capture: CaptureBuffer::default(),
            size,
            ended: false,
            limit: args.max_body,
            equals,
            required: TextMatcher::new(args.contains.as_slice()),
            forbidden: TextMatcher::new(args.not_contains.as_slice()),
        }
    }

    /// Takes in more of the body.
    pub fn on_data(&mut self, chunk: &[u8])
        requires
            old(self).wf(),
        ensures
            final(self).wf(),
            final(self).wants() == old(self).wants(),
            final(self).limit() == old(self).limit(),
            final(self)@ == after_data(old(self)@, chunk@, old(self).limit() as int),
    {
        let limit: usize = self.limit;
        let previous_len: usize = self.capture.append_limited(chunk, limit);
        proof {
            assert(self.capture@.bytes.take(previous_len as int) =~= old(self).capture@.bytes);
        }
        self.required.observe_appended(self.capture.bytes(), previous_len);
        self.forbidden.observe_appended(self.capture.bytes(), previous_len);
        let declared_beyond = match self.size.upper {
            Some(upper) => upper > limit as u64,
            None => false,
        };
        if declared_beyond && self.capture.len() >= limit {
            self.capture.mark_incomplete();
        }
    }

    /// The end of the body has been seen.
    pub fn on_end(&mut self)
        requires
            old(self).wf(),
        ensures
            final(self).wf(),
            final(self).wants() == old(self).wants(),
            final(self).limit() == old(self).limit(),
            final(self)@ == (BodyView { ended: true, ..old(self)@ }),
    {
        self.ended = true;
    }

    /// The end of the body has not come in the time that was left for it.
    pub fn on_grace_elapsed(&mut self)
        requires
            old(self).wf(),
        ensures
            final(self).wf(),
            final(self).wants() == old(self).wants(),
            final(self).limit() == old(self).limit(),
            final(self)@ == (BodyView {
                capture: CaptureView { bytes: old(self)@.capture.bytes, incomplete: true },
                ..old(self)@
            }),
    {
        self.capture.mark_incomplete();
    }

    /// Whether what has been read proves that the body is not the expected one.
    fn differs(&self, expected: &Vec<u8>) -> (r: bool)
        ensures
            r == self@.differs_from(expected@),
    {
        if let Some(exact) = self.size.exact {
            if exact != expected.len() as u64 {
                return true;
            }
        }
        let bytes = self.capture.bytes();
        let n: usize = bytes.len();
        if n > expected.len() {
            return true;
        }
        let mut i: usize = 0;
        while i < n
            invariant
                i <= n,
                n == bytes@.len(),
                n <= expected@.len(),
                bytes@ == self@.capture.bytes,
                forall|j: int| 0 <= j < i ==> bytes@[j] == expected@[j],
            decreases n - i,
        {
            if bytes[i] != expected[i] {
                assert(expected@.take(n as int)[i as int] != bytes@[i as int]);
                return true;
            }
            i = i + 1;
        }
        assert(expected@.take(n as int) =~= bytes@);
        if self.ended && !self.capture.is_incomplete() {
            if n == expected.len() {
                assert(bytes@ =~= expected@);
            }
            n != expected.len()
        } else {
            false
        }
    }

    /// What to do next.
    pub fn step(&self) -> (r: BodyStep)
        requires
            self.wf(),
        ensures
            r == next_step(self@, self.wants(), self.limit() as int),
    {
        if self.ended || self.capture.is_incomplete() {
            return BodyStep::Done;
        }
        let all_found = self.required.all_matched();
        let any_forbidden = self.forbidden.any_matched();
        let no_forbidden = self.forbidden.count() == 0;
        proof {
            self.required.lemma_marks(self.capture@.bytes);
            self.forbidden.lemma_marks(self.capture@.bytes);
            assert(self.wants().contains == self.required.needles());
            assert(self.wants().not_contains == self.forbidden.needles());
            assert(all_found <==> forall|i: int|
                0 <= i < self.wants().contains.len() ==> self@.found(
                    #[trigger] self.wants().contains[i],
                ));
            assert(any_forbidden <==> exists|i: int|
                0 <= i < self.wants().not_contains.len() && self@.found(
                    #[trigger] self.wants().not_contains[i],
                ));
        }
        match &self.equals {
            Some(expected) => {
                if self.differs(expected) {
                    return BodyStep::Done;
                }
                BodyStep::Read
            },
            None => {
                if all_found && (no_forbidden || any_forbidden) {
                    return BodyStep::Done;
                }
                let may_go_beyond = match self.size.upper {
                    Some(upper) => upper > self.limit as u64,
                    None => true,
                };
                if no_forbidden && self.capture.len() >= self.limit && may_go_beyond {
                    BodyStep::AwaitEnd
                } else {
                    BodyStep::Read
                }
            },
        }
    }

    /// What the body proves: nothing wrong, or the first assertion that fails or cannot be proved.
    pub fn assert_response_body(&self, args: &HttpArgs, target: &str) -> (r: Result<()>)
        requires
            self.wf(),
            self.wants() == wants_of(*args),
        ensures
            error::fault(r) == verdict_fault(verdict(self@, self.wants()), *args, target@),
    {
        let bytes = self.capture.bytes();
        let complete = self.ended && !self.capture.is_incomplete();
        let ghost wants = self.wants();
        let mut head = "response body from ".to_owned();
        head.append(target);
        if let Some(expected) = &self.equals {
            if self.differs(expected) {
                head.append(" does not equal required text ");
                if let Some(expected) = &args.body_equals {
                    head.append(diagnostic::debug(expected.as_str()).as_str());
                }
                return Err(AppError::failure(head));
            }
            if !complete {
                return Err(truncated_error(head, args.max_body, "exact body match", None));
            }
        }
        let mut i: usize = 0;
        while i < args.contains.len()
            invariant
                i <= args.contains@.len(),
                bytes@ == self@.capture.bytes,
                complete == self@.complete(),
                wants == self.wants(),
                wants == wants_of(*args),
                head@ == "response body from "@ + target@,
                wants.equals matches Some(expected) ==> !self@.differs_from(expected),
                wants.equals is Some ==> complete,
                forall|j: int|
                    0 <= j < i ==> text_match::contains(bytes@, #[trigger] wants.contains[j]),
            decreases args.contains.len() - i,
        {
            let needle = args.contains[i].as_str();
            assert(wants.contains[i as int] == utf8::encode_utf8(needle@));
            if !text_match::contains_bytes(bytes, needle) {
                proof {
                    text_match::lemma_first_missing(bytes@, wants.contains, i as int);
                }
                if !complete {
                    return Err(
                        truncated_error(head, args.max_body, "required text ", Some(needle)),
                    );
                }
                head.append(" does not contain required text ");
                head.append(diagnostic::debug(needle).as_str());
                return Err(AppError::failure(head));
            }
            i = i + 1;
        }
        proof {
            text_match::lemma_first_missing(bytes@, wants.contains, wants.contains.len() as int);
        }
        let mut k: usize = 0;
        while k < args.not_contains.len()
            invariant
                k <= args.not_contains@.len(),
                bytes@ == self@.capture.bytes,
                complete == self@.complete(),
                wants == self.wants(),
                wants == wants_of(*args),
                head@ == "response body from "@ + target@,
                wants.equals matches Some(expected) ==> !self@.differs_from(expected),
                wants.equals is Some ==> complete,
                text_match::first_missing(bytes@, wants.contains) == wants.contains.len(),
                forall|j: int|
                    0 <= j < k ==> !text_match::contains(bytes@, #[trigger] wants.not_contains[j]),
            decreases args.not_contains.len() - k,
        {
            let needle = args.not_contains[k].as_str();
            assert(wants.not_contains[k as int] == utf8::encode_utf8(needle@));
            if text_match::contains_bytes(bytes, needle) {
                proof {
                    text_match::lemma_first_found(bytes@, wants.not_contains, k as int);
                }
                head.append(" contains forbidden text ");
                head.append(diagnostic::debug(needle).as_str());
                return Err(AppError::failure(head));
            }
            k = k + 1;
        }
        proof {
            text_match::lemma_first_found(bytes@, wants.not_contains, wants.not_contains.len() as int);
        }
        if args.not_contains.len() > 0 && !complete {
            return Err(truncated_error(head, args.max_body, "negative body assertions", None));
        }
        Ok(())
    }
}

/// The error of an assertion that the captured bytes cannot prove.
fn truncated_error(head: String, max_body: usize, what: &str, needle: Option<&str>) -> (r: AppError)
    ensures
        r@ == ErrorView::Failure(
            {
                let text = head@ + " was truncated at "@ + number::digits(max_body as nat)
                    + " bytes, cannot prove "@ + what@;
                match needle {
                    Some(needle) => text + diagnostic::debug_text(needle@),
                    None => text,
                }
            },
        ),
{
    let mut message = head;
    message.append(" was truncated at ");
    message.append(number::decimal(max_body as u128).as_str());
    message.append(" bytes, cannot prove ");
    message.append(what);
    if let Some(needle) = needle {
        message.append(diagnostic::debug(needle).as_str());
    }
    AppError::failure(message)
}

/// Whether what has been read is how a stream of which `seen` has arrived is captured.
pub open spec fn captures(view: BodyView, seen: Seq<u8>, limit: int) -> bool {
    &&& view.capture.bytes == if seen.len() <= limit {
        seen
    } else {
        seen.take(limit)
    }
    &&& seen.len() > limit ==> view.capture.incomplete
}

/// However a body is cut into pieces, what has been read is its beginning, up to the limit, and is
/// known to be incomplete once any of it is dropped.
pub proof fn lemma_data_is_captured(view: BodyView, seen: Seq<u8>, chunk: Seq<u8>, limit: int)
    requires
        0 <= limit,
        captures(view, seen, limit),
    ensures
        captures(after_data(view, chunk, limit), seen + chunk, limit),
{
    let all = seen + chunk;
    let after = after_data(view, chunk, limit);
    if all.len() <= limit {
        assert(after.capture.bytes =~= all);
    } else {
        assert(after.capture.bytes =~= all.take(limit));
    }
}

/// What is captured of a body that begins with what has arrived fits that body.
pub proof fn lemma_captured_is_read_of(view: BodyView, seen: Seq<u8>, body: Seq<u8>, limit: int)
    requires
        0 <= limit,
        captures(view, seen, limit),
        is_prefix(seen, body),
        view.ended ==> seen == body,
        view.size.exact matches Some(n) ==> n == body.len(),
    ensures
        read_of(view, body),
{
    assert(is_prefix(view.capture.bytes, body)) by {
        assert(body.take(view.capture.bytes.len() as int) =~= view.capture.bytes);
    }
}

} // verus!
