//! Laws of a command from its start to the verdict.

use crate::capture;
use crate::capture::CaptureView;
use crate::cli::ExecArgs;
use crate::diagnostic;
use crate::laws::texts;
use crate::number;
use crate::probes::exec;
use crate::probes::exec::{BufferedView, ExecEvent, ExecStage, ExitStatus, OutputView};
use crate::text_match;
use vstd::prelude::*;
use vstd::utf8;

verus! {

/// Whether the arguments ask for an exit code: it is in the list, or the list is empty and it is 0.
pub open spec fn asked_for(args: ExecArgs, code: i32) -> bool {
    if args.exit_code@.len() == 0 {
        code == 0
    } else {
        exists|i: int| 0 <= i < args.exit_code@.len() && #[trigger] args.exit_code@[i] == code
    }
}

/// A command that has ended goes on exactly where it ended with a code that is in the list of
/// accepted codes, or with 0 where there is no list. What comes next is the first stream that a text
/// is asked of; without one the command has passed.
pub proof fn lemma_exit_code_is_listed(args: ExecArgs, status: ExitStatus)
    ensures
        !(exec::after_exit(args, status) is Failed) ==> (status.code matches Some(c) && (
        args.exit_code@.contains(c) || args.exit_code@.len() == 0 && c == 0)),
        status.code matches Some(c) ==> (args.exit_code@.contains(c) || args.exit_code@.len() == 0
            && c == 0) ==> exec::after_exit(args, status) == if args.stdout_contains@.len() > 0 {
            ExecStage::Stdout(c)
        } else if args.stderr_contains@.len() > 0 {
            ExecStage::Stderr(c, BufferedView::none())
        } else {
            ExecStage::Passed(c)
        },
        exec::after_exit(args, status) matches ExecStage::Failed(e) ==> e is Failure,
{
    lemma_output("stdout"@, BufferedView::none());
    lemma_output("stderr"@, BufferedView::none());
}

proof fn lemma_output(stream_name: Seq<char>, output: BufferedView)
    ensures
        forall|label: Seq<char>, texts: Seq<String>, max: nat|
            (#[trigger] exec::output_fault(stream_name, label, output, texts, max)) is None
                <==> texts::has_texts(output.bytes, texts),
        forall|label: Seq<char>, texts: Seq<String>, max: nat|
            (#[trigger] exec::output_fault(stream_name, label, output, texts, max)) is Some
                ==> exec::output_fault(stream_name, label, output, texts, max)->0 is Failure,
{
    assert forall|label: Seq<char>, texts: Seq<String>, max: nat|
        ((#[trigger] exec::output_fault(stream_name, label, output, texts, max)) is None
            <==> texts::has_texts(output.bytes, texts)) by {
        let needles = text_match::utf8_needles(texts);
        text_match::lemma_missing_range(output.bytes, needles);
        let m = text_match::first_missing(output.bytes, needles);
        if m < needles.len() {
            assert(needles[m] == utf8::encode_utf8(texts[m]@));
        } else {
            assert forall|i: int| 0 <= i < texts.len() implies text_match::contains(
                output.bytes,
                utf8::encode_utf8((#[trigger] texts[i])@),
            ) by {
                assert(needles[i] == utf8::encode_utf8(texts[i]@));
            }
        }
    }
}

/// With both streams there, a command passes exactly where each stream has every text that is asked
/// of it, of its own and not of the other. Else it has failed.
pub proof fn lemma_streams_have_their_texts(
    args: ExecArgs,
    code: i32,
    stdout: BufferedView,
    stderr: BufferedView,
)
    ensures
        exec::settled(args, code, stdout, stderr) == ExecStage::Passed(code) <==> texts::has_texts(
            stdout.bytes,
            args.stdout_contains@,
        ) && texts::has_texts(stderr.bytes, args.stderr_contains@),
        exec::settled(args, code, stdout, stderr) is Passed <==> texts::has_texts(
            stdout.bytes,
            args.stdout_contains@,
        ) && texts::has_texts(stderr.bytes, args.stderr_contains@),
        !(exec::settled(args, code, stdout, stderr) is Passed) ==> (exec::settled(
            args,
            code,
            stdout,
            stderr,
        ) matches ExecStage::Failed(e) && e is Failure),
{
    lemma_output("stdout"@, stdout);
    lemma_output("stderr"@, stderr);
}

/// The stage that a command is in once these things have happened to it.
pub open spec fn stage_after(args: ExecArgs, events: Seq<ExecEvent>) -> ExecStage
    decreases events.len(),
{
    if events.len() == 0 {
        exec::first_stage(args)
    } else {
        exec::next_stage(args, stage_after(args, events.drop_last()), events.last())
    }
}

/// It has been started.
pub open spec fn was_started(events: Seq<ExecEvent>) -> bool {
    exists|k: int| 0 <= k < events.len() && (#[trigger] events[k]) == ExecEvent::Spawned(Ok(()))
}

/// It ended with this code, which the arguments ask for.
pub open spec fn ended_well(args: ExecArgs, events: Seq<ExecEvent>, code: i32) -> bool {
    asked_for(args, code) && exists|k: int|
        0 <= k < events.len() && ((#[trigger] events[k]) matches ExecEvent::Exited(status)
            && status.code == Some(code))
}

/// Its standard output was these bytes.
pub open spec fn wrote_stdout(events: Seq<ExecEvent>, output: BufferedView) -> bool {
    exists|k: int| 0 <= k < events.len() && (#[trigger] events[k]) == ExecEvent::Stdout(output)
}

/// Its standard error was these bytes.
pub open spec fn wrote_stderr(events: Seq<ExecEvent>, output: BufferedView) -> bool {
    exists|k: int| 0 <= k < events.len() && (#[trigger] events[k]) == ExecEvent::Stderr(output)
}

/// What is known of a command by the stage that it is in.
pub open spec fn told_by(args: ExecArgs, events: Seq<ExecEvent>, stage: ExecStage) -> bool {
    match stage {
        ExecStage::Spawning => exec::args_fault(args) is None,
        ExecStage::Running => exec::args_fault(args) is None && was_started(events),
        ExecStage::Stdout(code) => {
            &&& exec::args_fault(args) is None
            &&& was_started(events)
            &&& ended_well(args, events, code)
        },
        ExecStage::Stderr(code, stdout) => {
            &&& exec::args_fault(args) is None
            &&& was_started(events)
            &&& ended_well(args, events, code)
            &&& args.stdout_contains@.len() > 0 ==> wrote_stdout(events, stdout)
        },
        ExecStage::Passed(code) => {
            &&& exec::args_fault(args) is None
            &&& was_started(events)
            &&& ended_well(args, events, code)
            &&& args.stdout_contains@.len() > 0 ==> exists|output: BufferedView| #[trigger]
                wrote_stdout(events, output) && texts::has_texts(output.bytes, args.stdout_contains@)
            &&& args.stderr_contains@.len() > 0 ==> exists|output: BufferedView| #[trigger]
                wrote_stderr(events, output) && texts::has_texts(output.bytes, args.stderr_contains@)
        },
        ExecStage::Failed(_) => true,
    }
}

proof fn lemma_told_stays(args: ExecArgs, events: Seq<ExecEvent>, stage: ExecStage)
    requires
        events.len() > 0,
        told_by(args, events.drop_last(), stage),
    ensures
        told_by(args, events, stage),
{
    let before = events.drop_last();
    assert forall|k: int| 0 <= k < before.len() implies #[trigger] before[k] == events[k] by {
    }
    if was_started(before) {
        let k = choose|k: int|
            0 <= k < before.len() && (#[trigger] before[k]) == ExecEvent::Spawned(Ok(()));
        assert(events[k] == before[k]);
        assert(was_started(events));
    }
    assert forall|code: i32| #[trigger] ended_well(args, before, code) implies ended_well(
        args,
        events,
        code,
    ) by {
        let k = choose|k: int|
            0 <= k < before.len() && ((#[trigger] before[k]) matches ExecEvent::Exited(status)
                && status.code == Some(code));
        assert(events[k] == before[k]);
    }
    assert forall|output: BufferedView| #[trigger] wrote_stdout(before, output) implies wrote_stdout(
        events,
        output,
    ) by {
        let k = choose|k: int|
            0 <= k < before.len() && (#[trigger] before[k]) == ExecEvent::Stdout(output);
        assert(events[k] == before[k]);
    }
    assert forall|output: BufferedView| #[trigger] wrote_stderr(before, output) implies wrote_stderr(
        events,
        output,
    ) by {
        let k = choose|k: int|
            0 <= k < before.len() && (#[trigger] before[k]) == ExecEvent::Stderr(output);
        assert(events[k] == before[k]);
    }
    if stage is Passed {
        if args.stdout_contains@.len() > 0 {
            let output = choose|output: BufferedView| #[trigger]
                wrote_stdout(before, output) && texts::has_texts(output.bytes, args.stdout_contains@);
            assert(wrote_stdout(events, output));
        }
        if args.stderr_contains@.len() > 0 {
            let output = choose|output: BufferedView| #[trigger]
                wrote_stderr(before, output) && texts::has_texts(output.bytes, args.stderr_contains@);
            assert(wrote_stderr(events, output));
        }
    }
}

/// Whatever happens to a command, and in whatever order: it passes only where the arguments are
/// sound, it was started, it ended with a code that is asked for, and each of its streams was seen to
/// have every text that is asked of it.
pub proof fn lemma_passed_run(args: ExecArgs, events: Seq<ExecEvent>)
    ensures
        told_by(args, events, stage_after(args, events)),
    decreases events.len(),
{
    if events.len() > 0 {
        let before = events.drop_last();
        let stage = stage_after(args, before);
        let event = events.last();
        let next = exec::next_stage(args, stage, event);
        lemma_passed_run(args, before);
        lemma_told_stays(args, events, stage);
        assert(events[events.len() - 1] == event);
        match (stage, event) {
            (ExecStage::Spawning, ExecEvent::Spawned(spawned)) => {
                if spawned is Ok {
                    assert(spawned->Ok_0 == ());
                    assert(events[events.len() - 1] == ExecEvent::Spawned(Ok(())));
                    assert(was_started(events));
                }
            },
            (ExecStage::Running, ExecEvent::Exited(status)) => {
                lemma_exit_code_is_listed(args, status);
                if !(next is Failed) {
                    let code = status.code->0;
                    if args.exit_code@.len() > 0 {
                        let i = choose|i: int|
                            0 <= i < args.exit_code@.len() && args.exit_code@[i] == code;
                        assert(args.exit_code@[i] == code);
                    }
                    assert(asked_for(args, code));
                    assert(ended_well(args, events, code));
                }
            },
            (ExecStage::Stdout(code), ExecEvent::Stdout(output)) => {
                assert(wrote_stdout(events, output));
                lemma_streams_have_their_texts(args, code, output, BufferedView::none());
            },
            (ExecStage::Stderr(code, stdout), ExecEvent::Stderr(output)) => {
                assert(wrote_stderr(events, output));
                lemma_streams_have_their_texts(args, code, stdout, output);
            },
            _ => {},
        }
    }
}

/// A command that is started, ends with a code that is asked for and writes what is asked for
/// passes, and its code is what it passes with.
pub proof fn lemma_good_command_passes(
    args: ExecArgs,
    status: ExitStatus,
    stdout: BufferedView,
    stderr: BufferedView,
)
    requires
        exec::args_fault(args) is None,
        status.code matches Some(code) && asked_for(args, code),
        texts::has_texts(stdout.bytes, args.stdout_contains@),
        texts::has_texts(stderr.bytes, args.stderr_contains@),
    ensures
        stage_after(
            args,
            seq![
                ExecEvent::Spawned(Ok(())),
                ExecEvent::Exited(status),
                ExecEvent::Stdout(stdout),
                ExecEvent::Stderr(stderr),
            ],
        ) == ExecStage::Passed(status.code->0),
{
    let code = status.code->0;
    if args.exit_code@.len() > 0 {
        assert(args.exit_code@.contains(code));
    }
    let e0 = Seq::<ExecEvent>::empty();
    let e1 = e0.push(ExecEvent::Spawned(Ok(())));
    let e2 = e1.push(ExecEvent::Exited(status));
    let e3 = e2.push(ExecEvent::Stdout(stdout));
    let e4 = e3.push(ExecEvent::Stderr(stderr));
    assert(e1.drop_last() =~= e0);
    assert(e2.drop_last() =~= e1);
    assert(e3.drop_last() =~= e2);
    assert(e4.drop_last() =~= e3);
    assert(stage_after(args, e0) == ExecStage::Spawning);
    assert(stage_after(args, e1) == ExecStage::Running);
    lemma_exit_code_is_listed(args, status);
    assert(stage_after(args, e2) == exec::after_exit(args, status));
    lemma_streams_have_their_texts(args, code, stdout, BufferedView::none());
    lemma_streams_have_their_texts(args, code, BufferedView::none(), stderr);
    lemma_streams_have_their_texts(args, code, stdout, stderr);
    if args.stdout_contains@.len() > 0 {
        assert(stage_after(args, e3) == exec::after_stdout(args, code, stdout));
    } else {
        assert(stage_after(args, e3) == exec::after_exit(args, status));
    }
    assert(stage_after(args, e4) == ExecStage::Passed(code));
    assert(e4 =~= seq![
        ExecEvent::Spawned(Ok(())),
        ExecEvent::Exited(status),
        ExecEvent::Stdout(stdout),
        ExecEvent::Stderr(stderr),
    ]);
}

/// A verdict stands: nothing that happens afterwards changes it. Before there is one, running out
/// of time is a failure of the command, and what goes wrong with running it is an internal error.
pub proof fn lemma_verdict_stands(args: ExecArgs, stage: ExecStage, event: ExecEvent)
    ensures
        stage is Passed || stage is Failed ==> exec::next_stage(args, stage, event) == stage,
        !(stage is Passed) && !(stage is Failed) && event is TimedOut ==> (exec::next_stage(
            args,
            stage,
            event,
        ) matches ExecStage::Failed(e) && e is Failure),
        !(stage is Passed) && !(stage is Failed) && event is Fault ==> (exec::next_stage(
            args,
            stage,
            event,
        ) matches ExecStage::Failed(e) && e is Internal),
        stage is Spawning ==> (event matches ExecEvent::Spawned(Err(fault))
            ==> exec::next_stage(args, stage, event) matches ExecStage::Failed(e) && (e
            is InvalidConfig <==> !(fault is Other)) && (e is Internal <==> fault is Other)),
{
}

/// The arguments are sound exactly where there is a command with a name, every accepted code is one
/// that a process can end with, no text is empty, and, with texts to look for, the output kept is
/// between one byte and 16 MiB. Else the configuration is at fault.
pub proof fn lemma_sound_arguments(args: ExecArgs)
    ensures
        exec::args_fault(args) is None <==> {
            &&& args.command@.len() > 0
            &&& args.command@[0]@.len() > 0
            &&& forall|i: int|
                0 <= i < args.exit_code@.len() ==> 0 <= #[trigger] args.exit_code@[i] <= 255
            &&& forall|i: int|
                0 <= i < args.stdout_contains@.len() ==> (
                #[trigger] args.stdout_contains@[i])@.len() > 0
            &&& forall|i: int|
                0 <= i < args.stderr_contains@.len() ==> (
                #[trigger] args.stderr_contains@[i])@.len() > 0
            &&& args.stdout_contains@.len() > 0 || args.stderr_contains@.len() > 0 ==> 1
                <= args.max_output <= 16 * 1024 * 1024
        },
        exec::args_fault(args) matches Some(e) ==> e is InvalidConfig,
{
    texts::lemma_first_element_counts(args.exit_code@, exec::exit_code_check());
    let check = exec::exit_code_check();
    assert forall|i: int| 0 <= i < args.exit_code@.len() implies (check(args.exit_code@[i]) is None
        <==> 0 <= #[trigger] args.exit_code@[i] <= 255) by {
    }
}

/// What is kept of a stream is its front, up to the limit. Whether some of it was dropped, whether its
/// end was seen and whether it has every text that is looked for is told as it is.
pub proof fn lemma_kept_of_a_stream(
    chunks: Seq<Seq<u8>>,
    ended: bool,
    texts: Seq<String>,
    limit: nat,
)
    ensures
        ({
            let written = capture::joined(chunks);
            let view = OutputView {
                capture: CaptureView::empty().append_all(chunks, limit as int),
                ended,
            };
            let kept = exec::snapshot_of(view, text_match::utf8_needles(texts), limit as int);
            &&& written.len() <= limit ==> kept.bytes == written && !kept.truncated
            &&& written.len() > limit ==> kept.bytes == written.take(limit as int) && kept.truncated
            &&& kept.complete == ended
            &&& kept.matched <==> texts.len() > 0 && texts::has_texts(kept.bytes, texts)
            &&& kept.limit_reached <==> texts.len() > 0 && written.len() >= limit
            &&& kept.leaves_open() <==> written.len() > limit || (!ended && texts.len() > 0
                && written.len() >= limit)
        }),
{
    capture::lemma_capture_is_prefix(chunks, limit);
    let needles = text_match::utf8_needles(texts);
    let bytes = CaptureView::empty().append_all(chunks, limit as int).bytes;
    assert(exec::all_found(bytes, needles) <==> texts::has_texts(bytes, texts)) by {
        if exec::all_found(bytes, needles) {
            assert forall|i: int| 0 <= i < texts.len() implies text_match::contains(
                bytes,
                utf8::encode_utf8((#[trigger] texts[i])@),
            ) by {
                assert(text_match::contains(bytes, needles[i]));
            }
        } else {
            let i = choose|i: int|
                0 <= i < needles.len() && !text_match::contains(bytes, #[trigger] needles[i]);
            assert(needles[i] == utf8::encode_utf8(texts[i]@));
        }
    }
}

/// A failure that a text causes names a text that is missing from what is kept of the stream, and
/// says that it is missing only where all of the stream was kept.
pub proof fn lemma_failure_names_the_text(
    stream_name: Seq<char>,
    label: Seq<char>,
    output: BufferedView,
    texts: Seq<String>,
    max_output: nat,
)
    ensures
        exec::output_fault(stream_name, label, output, texts, max_output) matches Some(e) ==> exists|
            i: int,
        |
            {
                &&& 0 <= i < texts.len()
                &&& !text_match::contains(output.bytes, utf8::encode_utf8((#[trigger] texts[i])@))
                &&& texts::has_texts(output.bytes, texts.take(i))
                &&& e.message() == if output.truncated || (output.limit_reached && !output.complete) {
                    stream_name + " of "@ + label + " reached --max-output "@ + number::digits(
                        max_output,
                    ) + " bytes, cannot prove required text "@ + diagnostic::debug_text(texts[i]@)
                } else {
                    stream_name + " of "@ + label + " does not contain required text "@
                        + diagnostic::debug_text(texts[i]@)
                }
            },
{
    let needles = text_match::utf8_needles(texts);
    text_match::lemma_missing_range(output.bytes, needles);
    let m = text_match::first_missing(output.bytes, needles);
    if m < needles.len() {
        assert(needles[m] == utf8::encode_utf8(texts[m]@));
        let front = texts.take(m);
        assert forall|j: int| 0 <= j < front.len() implies text_match::contains(
            output.bytes,
            utf8::encode_utf8((#[trigger] front[j])@),
        ) by {
            assert(text_match::contains(output.bytes, needles[j]));
        }
    }
}

} // verus!
