//! Laws of a file from its inspection to the verdict.

use crate::capture;
use crate::capture::CaptureView;
use crate::cli::FileArgs;
use crate::laws::texts;
use crate::probes::file;
use crate::probes::file::{FileEvent, FileFacts, FileStage, FileView, Modified};
use crate::text_match;
use vstd::prelude::*;
use vstd::utf8;

verus! {

/// Whether what is known of a file is what the arguments ask for.
pub open spec fn fits(args: FileArgs, facts: FileFacts) -> bool {
    &&& facts.is_file
    &&& args.min_size matches Some(min) ==> min <= facts.len
    &&& args.max_size matches Some(max) ==> facts.len <= max
    &&& args.non_empty ==> facts.len > 0
    &&& args.max_age matches Some(max_age) ==> (facts.modified matches Modified::Ago(age) && age@
        <= max_age@)
}

/// Once something is known of a file, it passes at once exactly where that fits and neither reading
/// it nor any text is asked for. It is opened exactly where it fits and one of the two is. Else it
/// has failed.
pub proof fn lemma_opened_when_asked(args: FileArgs, facts: FileFacts)
    ensures
        file::after_facts(args, Ok(facts)) is Passed <==> fits(args, facts) && !args.readable
            && args.contains@.len() == 0,
        file::after_facts(args, Ok(facts)) is Opening <==> fits(args, facts) && (args.readable
            || args.contains@.len() > 0),
        file::after_facts(args, Ok(facts)) is Failed <==> !fits(args, facts),
        file::after_facts(args, Ok(facts)) matches FileStage::Passed(len) ==> len == facts.len,
        file::after_facts(args, Ok(facts)) matches FileStage::Opening(len) ==> len == facts.len,
        file::after_facts(args, Ok(facts)) matches FileStage::Failed(e) ==> e is Failure,
{
}

/// The bytes of the file that have been handed over, one piece after the other.
pub open spec fn bytes_read(events: Seq<FileEvent>) -> Seq<u8>
    decreases events.len(),
{
    if events.len() == 0 {
        Seq::empty()
    } else {
        let before = bytes_read(events.drop_last());
        match events.last() {
            FileEvent::Data(chunk) => before + chunk,
            _ => before,
        }
    }
}

/// The stage that a file is in once these things have happened.
pub open spec fn stage_after(args: FileArgs, events: Seq<FileEvent>) -> FileStage
    decreases events.len(),
{
    if events.len() == 0 {
        file::first_stage(args)
    } else {
        file::next_stage(args, stage_after(args, events.drop_last()), events.last())
    }
}

/// Bytes are handed over only once the file has been opened to be read.
pub open spec fn read_in_turn(args: FileArgs, events: Seq<FileEvent>) -> bool
    decreases events.len(),
{
    events.len() > 0 ==> {
        &&& read_in_turn(args, events.drop_last())
        &&& events.last() is Data ==> stage_after(args, events.drop_last()) is Reading
    }
}

/// What was learned of it, of this length, fits.
pub open spec fn was_fit(args: FileArgs, events: Seq<FileEvent>, len: u64) -> bool {
    exists|k: int|
        0 <= k < events.len() && ((#[trigger] events[k]) matches FileEvent::Facts(Ok(facts))
            && facts.len == len && fits(args, facts))
}

/// It was opened.
pub open spec fn was_opened(events: Seq<FileEvent>) -> bool {
    exists|k: int| 0 <= k < events.len() && (#[trigger] events[k]) == FileEvent::Opened(Ok(()))
}

/// What is known of a file by the stage that it is in.
pub open spec fn told_by(args: FileArgs, events: Seq<FileEvent>, stage: FileStage) -> bool {
    match stage {
        FileStage::Inspecting => file::args_fault(args) is None && bytes_read(events).len() == 0,
        FileStage::Opening(len) => {
            &&& file::args_fault(args) is None
            &&& was_fit(args, events, len)
            &&& bytes_read(events).len() == 0
        },
        FileStage::Reading(len, view) => {
            &&& file::args_fault(args) is None
            &&& was_fit(args, events, len)
            &&& was_opened(events)
            &&& view == (FileView {
                capture: CaptureView { bytes: bytes_read(events), incomplete: false },
                ended: false,
            })
            &&& bytes_read(events).len() <= args.max_read
            &&& args.contains@.len() > 0
            &&& !texts::has_texts(bytes_read(events), args.contains@)
        },
        FileStage::Passed(len) => {
            &&& file::args_fault(args) is None
            &&& was_fit(args, events, len)
            &&& args.readable || args.contains@.len() > 0 ==> was_opened(events)
            &&& texts::has_texts(bytes_read(events), args.contains@)
        },
        FileStage::Failed(_) => true,
    }
}

proof fn lemma_told_stays(args: FileArgs, events: Seq<FileEvent>)
    requires
        events.len() > 0,
    ensures
        forall|len: u64| #[trigger]
            was_fit(args, events.drop_last(), len) ==> was_fit(args, events, len),
        was_opened(events.drop_last()) ==> was_opened(events),
{
    let before = events.drop_last();
    assert forall|len: u64| #[trigger] was_fit(args, before, len) implies was_fit(args, events, len) by {
        let k = choose|k: int|
            0 <= k < before.len() && ((#[trigger] before[k]) matches FileEvent::Facts(Ok(facts))
                && facts.len == len && fits(args, facts));
        assert(events[k] == before[k]);
    }
    if was_opened(before) {
        let k = choose|k: int|
            0 <= k < before.len() && (#[trigger] before[k]) == FileEvent::Opened(Ok(()));
        assert(events[k] == before[k]);
    }
}

proof fn lemma_needles(bytes: Seq<u8>, texts: Seq<String>)
    ensures
        texts::has_texts(bytes, texts) <==> forall|i: int|
            0 <= i < text_match::utf8_needles(texts).len() ==> text_match::contains(
                bytes,
                #[trigger] text_match::utf8_needles(texts)[i],
            ),
        texts::has_texts(bytes, texts) <==> text_match::first_missing(
            bytes,
            text_match::utf8_needles(texts),
        ) >= texts.len(),
        texts.len() == 0 ==> texts::has_texts(bytes, texts),
{
    let needles = text_match::utf8_needles(texts);
    text_match::lemma_missing_range(bytes, needles);
    if texts::has_texts(bytes, texts) {
        assert forall|i: int| 0 <= i < needles.len() implies text_match::contains(
            bytes,
            #[trigger] needles[i],
        ) by {
            assert(needles[i] == utf8::encode_utf8(texts[i]@));
        }
    }
    if forall|i: int| 0 <= i < needles.len() ==> text_match::contains(bytes, #[trigger] needles[i]) {
        assert forall|i: int| 0 <= i < texts.len() implies text_match::contains(
            bytes,
            utf8::encode_utf8((#[trigger] texts[i])@),
        ) by {
            assert(needles[i] == utf8::encode_utf8(texts[i]@));
        }
    }
}

proof fn lemma_texts_grow(bytes: Seq<u8>, more: Seq<u8>, texts: Seq<String>)
    requires
        texts::has_texts(bytes, texts),
    ensures
        texts::has_texts(bytes + more, texts),
{
    assert forall|i: int| 0 <= i < texts.len() implies text_match::contains(
        bytes + more,
        utf8::encode_utf8((#[trigger] texts[i])@),
    ) by {
        text_match::lemma_contains_grows(Seq::empty(), bytes, more, utf8::encode_utf8(texts[i]@));
        assert(Seq::<u8>::empty() + bytes + more =~= bytes + more);
    }
}

/// A file passes only where the arguments are sound, what was learned of it fits, it was opened if
/// reading it or a text is asked for, and every text that is asked for is in what was read of it.
/// While it is read, all of it that was handed over is kept.
pub proof fn lemma_passed_run(args: FileArgs, events: Seq<FileEvent>)
    requires
        read_in_turn(args, events),
    ensures
        told_by(args, events, stage_after(args, events)),
    decreases events.len(),
{
    if events.len() == 0 {
    } else {
        let before = events.drop_last();
        let stage = stage_after(args, before);
        let event = events.last();
        lemma_passed_run(args, before);
        lemma_told_stays(args, events);
        assert(events[events.len() - 1] == event);
        let bytes = bytes_read(events);
        lemma_needles(bytes, args.contains@);
        lemma_needles(bytes_read(before), args.contains@);
        match (stage, event) {
            (FileStage::Inspecting, FileEvent::Facts(Ok(facts))) => {
                lemma_opened_when_asked(args, facts);
                if fits(args, facts) {
                    assert(was_fit(args, events, facts.len));
                }
            },
            (FileStage::Opening(len), FileEvent::Opened(opened)) => {
                if opened is Ok {
                    assert(opened->Ok_0 == ());
                    assert(events[events.len() - 1] == FileEvent::Opened(Ok(())));
                    assert(was_opened(events));
                    assert(bytes =~= Seq::empty());
                }
            },
            (FileStage::Reading(len, view), FileEvent::Data(chunk)) => {
                let capture = view.capture.append(chunk, args.max_read as int);
                assert(capture.bytes.len() <= bytes.len());
                assert(capture.bytes =~= bytes.take(capture.bytes.len() as int));
                lemma_needles(capture.bytes, args.contains@);
                if texts::has_texts(capture.bytes, args.contains@) {
                    lemma_texts_grow(
                        capture.bytes,
                        bytes.skip(capture.bytes.len() as int),
                        args.contains@,
                    );
                    assert(bytes =~= capture.bytes + bytes.skip(capture.bytes.len() as int));
                }
                if !capture.incomplete {
                    assert(capture.bytes =~= bytes);
                }
            },
            _ => {},
        }
    }
}

/// Where a file fits, can be opened and read to its end within the limit, it passes exactly where
/// every text is in it; and its length is what it passes with.
pub proof fn lemma_whole_file_decides(args: FileArgs, facts: FileFacts, contents: Seq<u8>)
    requires
        file::args_fault(args) is None,
        fits(args, facts),
        args.contains@.len() > 0 ==> contents.len() <= args.max_read,
    ensures
        ({
            let stage = stage_after(
                args,
                seq![
                    FileEvent::Facts(Ok(facts)),
                    FileEvent::Opened(Ok(())),
                    FileEvent::Data(contents),
                    FileEvent::End,
                ],
            );
            &&& stage == FileStage::Passed(facts.len) <==> texts::has_texts(
                contents,
                args.contains@,
            )
            &&& !texts::has_texts(contents, args.contains@) ==> (stage matches FileStage::Failed(e)
                && e is Failure)
        }),
{
    let e0 = Seq::<FileEvent>::empty();
    let e1 = e0.push(FileEvent::Facts(Ok(facts)));
    let e2 = e1.push(FileEvent::Opened(Ok(())));
    let e3 = e2.push(FileEvent::Data(contents));
    let e4 = e3.push(FileEvent::End);
    assert(e1.drop_last() =~= e0);
    assert(e2.drop_last() =~= e1);
    assert(e3.drop_last() =~= e2);
    assert(e4.drop_last() =~= e3);
    assert(stage_after(args, e0) == FileStage::Inspecting);
    lemma_opened_when_asked(args, facts);
    assert(stage_after(args, e1) == file::after_facts(args, Ok(facts)));
    lemma_needles(contents, args.contains@);
    lemma_needles(Seq::empty(), args.contains@);
    if texts::has_texts(Seq::empty(), args.contains@) {
        lemma_texts_grow(Seq::empty(), contents, args.contains@);
        assert(Seq::<u8>::empty() + contents =~= contents);
    }
    if args.readable || args.contains@.len() > 0 {
        assert(stage_after(args, e2) == file::after_opening(args, facts.len, Ok(())));
        if args.contains@.len() > 0 {
            let kept = CaptureView::empty().append(contents, args.max_read as int);
            assert(kept.bytes =~= contents);
            assert(!kept.incomplete);
        }
    }
    assert(stage_after(args, e3) == file::next_stage(
        args,
        stage_after(args, e2),
        FileEvent::Data(contents),
    ));
    assert(stage_after(args, e4) == file::next_stage(args, stage_after(args, e3), FileEvent::End));
    assert(e4 =~= seq![
        FileEvent::Facts(Ok(facts)),
        FileEvent::Opened(Ok(())),
        FileEvent::Data(contents),
        FileEvent::End,
    ]);
}

/// What is read of a file in pieces.
pub open spec fn pieces(chunks: Seq<Seq<u8>>) -> Seq<FileEvent> {
    Seq::new(chunks.len(), |i: int| FileEvent::Data(chunks[i]))
}

proof fn lemma_pieces(args: FileArgs, facts: FileFacts, chunks: Seq<Seq<u8>>)
    requires
        file::args_fault(args) is None,
        fits(args, facts),
        args.contains@.len() > 0,
        capture::joined(chunks).len() <= args.max_read,
    ensures
        ({
            let start = seq![FileEvent::Facts(Ok(facts)), FileEvent::Opened(Ok(()))];
            let all = capture::joined(chunks);
            stage_after(args, start + pieces(chunks)) == if texts::has_texts(all, args.contains@) {
                FileStage::Passed(facts.len)
            } else {
                FileStage::Reading(
                    facts.len,
                    FileView {
                        capture: CaptureView { bytes: all, incomplete: false },
                        ended: false,
                    },
                )
            }
        }),
    decreases chunks.len(),
{
    let start = seq![FileEvent::Facts(Ok(facts)), FileEvent::Opened(Ok(()))];
    let all = capture::joined(chunks);
    let events = start + pieces(chunks);
    lemma_needles(all, args.contains@);
    if chunks.len() == 0 {
        let e1 = start.drop_last();
        assert(events =~= start);
        assert(e1.drop_last() =~= Seq::empty());
        lemma_opened_when_asked(args, facts);
        assert(e1.last() == FileEvent::Facts(Ok(facts)));
        assert(stage_after(args, Seq::<FileEvent>::empty()) == FileStage::Inspecting);
        assert(stage_after(args, e1) == file::after_facts(args, Ok(facts)));
        assert(stage_after(args, start) == file::after_opening(args, facts.len, Ok(())));
        assert(all =~= CaptureView::empty().bytes);
    } else {
        let before = chunks.drop_last();
        let chunk = chunks.last();
        assert(capture::joined(before).len() <= all.len());
        lemma_pieces(args, facts, before);
        assert(events.drop_last() =~= start + pieces(before));
        assert(events.last() == FileEvent::Data(chunk));
        if texts::has_texts(capture::joined(before), args.contains@) {
            lemma_texts_grow(capture::joined(before), chunk, args.contains@);
        } else {
            let kept = (CaptureView { bytes: capture::joined(before), incomplete: false }).append(
                chunk,
                args.max_read as int,
            );
            assert(kept.bytes =~= all);
            assert(!kept.incomplete);
        }
    }
}

/// However a file comes in pieces, it is what they are together that decides: a file that fits and
/// is read to its end within the limit passes exactly where every text is in it, though it lie across
/// several pieces.
pub proof fn lemma_pieces_do_not_matter(args: FileArgs, facts: FileFacts, chunks: Seq<Seq<u8>>)
    requires
        file::args_fault(args) is None,
        fits(args, facts),
        args.contains@.len() > 0,
        capture::joined(chunks).len() <= args.max_read,
    ensures
        ({
            let start = seq![FileEvent::Facts(Ok(facts)), FileEvent::Opened(Ok(()))];
            let stage = stage_after(args, start + pieces(chunks) + seq![FileEvent::End]);
            &&& stage == FileStage::Passed(facts.len) <==> texts::has_texts(
                capture::joined(chunks),
                args.contains@,
            )
            &&& stage is Failed <==> !texts::has_texts(capture::joined(chunks), args.contains@)
        }),
{
    let start = seq![FileEvent::Facts(Ok(facts)), FileEvent::Opened(Ok(()))];
    let events = start + pieces(chunks) + seq![FileEvent::End];
    lemma_pieces(args, facts, chunks);
    lemma_needles(capture::joined(chunks), args.contains@);
    assert(events.drop_last() =~= start + pieces(chunks));
    assert(events.last() is End);
}

/// A verdict stands. What goes wrong with inspecting, opening or reading a file is a failure of the
/// probe, whatever it is.
pub proof fn lemma_verdict_stands(args: FileArgs, stage: FileStage, event: FileEvent)
    ensures
        stage is Passed || stage is Failed ==> file::next_stage(args, stage, event) == stage,
        stage is Inspecting ==> (event matches FileEvent::Facts(Err(_)) ==> file::next_stage(
            args,
            stage,
            event,
        ) matches FileStage::Failed(e) && e is Failure),
        stage is Opening ==> (event matches FileEvent::Opened(Err(_)) ==> file::next_stage(
            args,
            stage,
            event,
        ) matches FileStage::Failed(e) && e is Failure),
        stage is Reading && event is ReadError ==> (file::next_stage(args, stage, event) matches
            FileStage::Failed(e) && e is Failure),
{
}

/// The arguments are sound exactly where there is a path, no text is empty, the smallest size is not
/// above the largest, the greatest age is not zero, and, with texts to look for, what is read is
/// between one byte and 16 MiB. Else the configuration is at fault.
pub proof fn lemma_sound_arguments(args: FileArgs)
    ensures
        file::args_fault(args) is None <==> {
            &&& args.path@.len() > 0
            &&& args.min_size matches Some(min) ==> args.max_size matches Some(max) ==> min <= max
            &&& forall|i: int|
                0 <= i < args.contains@.len() ==> (#[trigger] args.contains@[i])@.len() > 0
            &&& args.contains@.len() > 0 ==> 1 <= args.max_read <= 16 * 1024 * 1024
            &&& args.max_age matches Some(age) ==> age@ > 0
        },
        file::args_fault(args) matches Some(e) ==> e is InvalidConfig,
{
}

} // verus!
