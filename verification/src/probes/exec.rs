//! The exec probe: how a command ends and what it writes.

use crate::capture::{CaptureBuffer, CaptureView};
use crate::cli::ExecArgs;
use crate::diagnostic;
use crate::error;
use crate::error::{AppError, ErrorView, Result};
use crate::number;
use crate::os_text;
use crate::os_text::OsText;
use crate::probe::{ProbeOptions, ProbeReport};
use crate::text_match;
use crate::text_match::TextMatcher;
use crate::timing;
use crate::timing::Span;
use crate::validation;
use vstd::prelude::*;
use vstd::utf8;

verus! {

/// Whether a number can be the exit code of a process.
pub open spec fn is_exit_code(code: i32) -> bool {
    0 <= code <= 255
}

/// The error of a number that is no exit code.
pub open spec fn exit_code_check() -> spec_fn(i32) -> Option<ErrorView> {
    |code: i32|
        if is_exit_code(code) {
            None
        } else {
            error::config_fault(
                "invalid exit code "@ + number::signed_digits(code as int)
                    + ", expected 0..=255"@,
            )
        }
}

/// The error of the command to run.
pub open spec fn command_fault(command: Seq<OsText>) -> Option<ErrorView> {
    if command.len() == 0 {
        error::config_fault("missing command to execute"@)
    } else if command[0]@.len() == 0 {
        error::config_fault("command must not be empty"@)
    } else {
        None
    }
}

/// The error of the arguments of the probe.
pub open spec fn args_fault(args: ExecArgs) -> Option<ErrorView> {
    error::first_fault(
        validation::capture_limit_fault(
            "--max-output"@,
            args.max_output as int,
            "output assertions"@,
            args.stdout_contains@.len() > 0 || args.stderr_contains@.len() > 0,
        ),
        error::first_fault(
            validation::values_fault("--stdout-contains"@, args.stdout_contains@),
            error::first_fault(
                validation::values_fault("--stderr-contains"@, args.stderr_contains@),
                error::first_fault(
                    error::first_of(args.exit_code@, exit_code_check()),
                    command_fault(args.command@),
                ),
            ),
        ),
    )
}

/// The arguments must ask for what can be and name a command.
pub fn validate_exec_args(args: &ExecArgs) -> (r: Result<()>)
    ensures
        error::fault(r) == args_fault(*args),
{
    validation::validate_capture_limit(
        "--max-output",
        args.max_output,
        "output assertions",
        args.stdout_contains.len() > 0 || args.stderr_contains.len() > 0,
    )?;
    validation::validate_non_empty_values("--stdout-contains", args.stdout_contains.as_slice())?;
    validation::validate_non_empty_values("--stderr-contains", args.stderr_contains.as_slice())?;
    validate_exit_codes(&args.exit_code)?;
    if args.command.len() == 0 {
        return Err(AppError::invalid_config("missing command to execute".to_owned()));
    }
    if args.command[0].is_empty() {
        return Err(AppError::invalid_config("command must not be empty".to_owned()));
    }
    Ok(())
}

/// The accepted exit codes must be exit codes.
fn validate_exit_codes(codes: &Vec<i32>) -> (r: Result<()>)
    ensures
        error::fault(r) == error::first_of(codes@, exit_code_check()),
{
    let mut i: usize = 0;
    while i < codes.len()
        invariant
            i <= codes@.len(),
            forall|j: int| 0 <= j < i ==> (exit_code_check())(#[trigger] codes@[j]) is None,
        decreases codes.len() - i,
    {
        let code: i32 = codes[i];
        if code < 0 || code > 255 {
            let mut message = "invalid exit code ".to_owned();
            message.append(number::signed_decimal(code).as_str());
            message.append(", expected 0..=255");
            proof {
                error::lemma_first_of(codes@, exit_code_check(), i as int);
            }
            return Err(AppError::invalid_config(message));
        }
        i = i + 1;
    }
    proof {
        error::lemma_first_of(codes@, exit_code_check(), i as int);
    }
    Ok(())
}

/// The name of the command in messages.
pub open spec fn label_of(args: ExecArgs) -> Seq<char> {
    os_text::lossy_text(args.command@[0]@)
}

/// The name of the command in messages.
pub fn command_label(args: &ExecArgs) -> (r: String)
    requires
        args.command@.len() > 0,
    ensures
        r@ == label_of(*args),
{
    args.command[0].to_string_lossy()
}

/// What keeps a command from running.
#[derive(Debug)]
pub enum SpawnFault {
    NotFound,
    PermissionDenied,
    Other(String),
}

/// The error for a command that does not run: the configuration's fault where it is missing or
/// cannot be run, else an internal one.
pub open spec fn spawn_error_view(program: Seq<u8>, fault: SpawnFault) -> ErrorView {
    let shown = os_text::quoted_bytes(program);
    match fault {
        SpawnFault::NotFound => ErrorView::InvalidConfig("command "@ + shown + " was not found"@),
        SpawnFault::PermissionDenied => ErrorView::InvalidConfig(
            "command "@ + shown + " is not executable"@,
        ),
        SpawnFault::Other(reason) => ErrorView::Internal(
            "failed to spawn "@ + shown + ": "@ + reason@,
        ),
    }
}

/// The error for a command that does not run.
pub fn spawn_error(program: &OsText, fault: &SpawnFault) -> (r: AppError)
    ensures
        r@ == spawn_error_view(program@, *fault),
{
    let shown = program.quoted();
    match fault {
        SpawnFault::NotFound => {
            let mut message = "command ".to_owned();
            message.append(shown.as_str());
            message.append(" was not found");
            AppError::invalid_config(message)
        },
        SpawnFault::PermissionDenied => {
            let mut message = "command ".to_owned();
            message.append(shown.as_str());
            message.append(" is not executable");
            AppError::invalid_config(message)
        },
        SpawnFault::Other(reason) => {
            let mut message = "failed to spawn ".to_owned();
            message.append(shown.as_str());
            message.append(": ");
            message.append(reason.as_str());
            AppError::internal(message)
        },
    }
}

/// What can go wrong with a command that runs.
#[derive(Debug)]
pub enum RunFault {
    /// A stream cannot be captured.
    Capture,
    /// Its end cannot be waited for.
    Wait(String),
    /// A stream breaks off.
    Read(String),
    /// The task that reads a stream fails.
    Task(String),
}

/// The error for what went wrong with a command that runs: an internal one.
pub open spec fn run_error_view(stream_name: Seq<char>, fault: RunFault) -> ErrorView {
    ErrorView::Internal(
        match fault {
            RunFault::Capture => "failed to capture child "@ + stream_name,
            RunFault::Wait(reason) => "failed waiting for child: "@ + reason@,
            RunFault::Read(reason) => "failed reading child output: "@ + reason@,
            RunFault::Task(reason) => stream_name + " task failed: "@ + reason@,
        },
    )
}

/// The error for what went wrong with a command that runs.
pub fn run_error(stream_name: &str, fault: &RunFault) -> (r: AppError)
    ensures
        r@ == run_error_view(stream_name@, *fault),
{
    let mut message = match fault {
        RunFault::Capture => {
            let mut text = "failed to capture child ".to_owned();
            text.append(stream_name);
            return AppError::internal(text);
        },
        RunFault::Wait(_) => "failed waiting for child: ".to_owned(),
        RunFault::Read(_) => "failed reading child output: ".to_owned(),
        RunFault::Task(_) => {
            let mut text = stream_name.to_owned();
            text.append(" task failed: ");
            text
        },
    };
    match fault {
        RunFault::Capture => {},
        RunFault::Wait(reason) => message.append(reason.as_str()),
        RunFault::Read(reason) => message.append(reason.as_str()),
        RunFault::Task(reason) => message.append(reason.as_str()),
    }
    AppError::internal(message)
}

/// The error of a command that does not end in time.
pub open spec fn timeout_view(label: Seq<char>, nanos: nat) -> ErrorView {
    ErrorView::Failure("command "@ + label + " timed out after "@ + timing::duration_text(nanos))
}

/// The error of a command that does not end in time.
pub fn command_timeout_error(label: &str, timeout: Span) -> (r: AppError)
    ensures
        r@ == timeout_view(label@, timeout@),
{
    let mut message = "command ".to_owned();
    message.append(label);
    message.append(" timed out after ");
    message.append(timing::format_duration(timeout).as_str());
    AppError::failure(message)
}

/// How a process ended: with a code, or by a signal.
#[derive(Clone, Copy, Debug)]
pub struct ExitStatus {
    pub code: Option<i32>,
    pub signal: Option<i32>,
}

/// Whether an exit code is accepted: 0 where none is asked for.
pub open spec fn accepts_code(codes: Seq<i32>, code: i32) -> bool {
    if codes.len() == 0 {
        code == 0
    } else {
        codes.contains(code)
    }
}

/// Whether an exit code is accepted.
fn is_accepted(codes: &Vec<i32>, code: i32) -> (r: bool)
    ensures
        r == accepts_code(codes@, code),
{
    if codes.len() == 0 {
        return code == 0;
    }
    let mut i: usize = 0;
    while i < codes.len()
        invariant
            i <= codes@.len(),
            forall|j: int| 0 <= j < i ==> codes@[j] != code,
        decreases codes.len() - i,
    {
        if codes[i] == code {
            assert(codes@.contains(code));
            return true;
        }
        i = i + 1;
    }
    false
}

/// How the end of a process by a signal is put.
pub open spec fn termination_text(status: ExitStatus) -> Seq<char> {
    match status.signal {
        Some(signal) => " (signal "@ + number::signed_digits(signal as int) + ")"@,
        None => Seq::empty(),
    }
}

/// The error of how a process ended.
pub open spec fn status_fault(label: Seq<char>, codes: Seq<i32>, status: ExitStatus) -> Option<
    ErrorView,
> {
    match status.code {
        None => error::failure_fault(
            "command "@ + label + " terminated without an exit code"@ + termination_text(status),
        ),
        Some(code) => if accepts_code(codes, code) {
            None
        } else {
            error::failure_fault(
                "command "@ + label + " exited with "@ + number::signed_digits(code as int),
            )
        },
    }
}

/// The exit code of a process that ended as it should.
pub fn check_status(label: &str, args: &ExecArgs, status: ExitStatus) -> (r: Result<i32>)
    ensures
        error::fault(r) == status_fault(label@, args.exit_code@, status),
        r matches Ok(code) ==> status.code == Some(code),
{
    let mut message = "command ".to_owned();
    message.append(label);
    match status.code {
        None => {
            message.append(" terminated without an exit code");
            let suffix = termination_suffix(status);
            message.append(suffix.as_str());
            Err(AppError::failure(message))
        },
        Some(code) => {
            if is_accepted(&args.exit_code, code) {
                return Ok(code);
            }
            message.append(" exited with ");
            message.append(number::signed_decimal(code).as_str());
            Err(AppError::failure(message))
        },
    }
}

/// How the end of a process by a signal is put.
fn termination_suffix(status: ExitStatus) -> (r: String)
    ensures
        r@ == termination_text(status),
{
    match status.signal {
        Some(signal) => {
            let mut suffix = " (signal ".to_owned();
            suffix.append(number::signed_decimal(signal).as_str());
            suffix.append(")");
            suffix
        },
        None => {
            let empty = String::new();
            assert(empty@ =~= Seq::empty());
            empty
        },
    }
}

/// What a command has written so far to one of its streams, as far as it is kept.
#[derive(Clone, Debug)]
pub struct BufferedOutput {
    pub bytes: Vec<u8>,
    /// Whether some of it was dropped.
    pub truncated: bool,
    /// Whether all that is looked for has been found.
    pub matched: bool,
    /// Whether no more of it is kept.
    pub limit_reached: bool,
    /// Whether the stream has ended.
    pub complete: bool,
}

/// A [`BufferedOutput`] with its bytes as a sequence.
pub struct BufferedView {
    pub bytes: Seq<u8>,
    pub truncated: bool,
    pub matched: bool,
    pub limit_reached: bool,
    pub complete: bool,
}

impl View for BufferedOutput {
    type V = BufferedView;

    open spec fn view(&self) -> BufferedView {
        BufferedView {
            bytes: self.bytes@,
            truncated: self.truncated,
            matched: self.matched,
            limit_reached: self.limit_reached,
            complete: self.complete,
        }
    }
}

impl BufferedView {
    /// A stream that is not captured.
    pub open spec fn none() -> BufferedView {
        BufferedView {
            bytes: Seq::empty(),
            truncated: false,
            matched: false,
            limit_reached: false,
            complete: false,
        }
    }

    /// Whether a text that was not found may still be there.
    pub open spec fn leaves_open(self) -> bool {
        self.truncated || (self.limit_reached && !self.complete)
    }
}

impl Default for BufferedOutput {
    fn default() -> (r: BufferedOutput)
        ensures
            r@ == BufferedView::none(),
    {
        BufferedOutput {
            bytes: Vec::new(),
            truncated: false,
            matched: false,
            limit_reached: false,
            complete: false,
        }
    }
}

impl BufferedOutput {
    /// Whether a text that was not found may still be there.
    pub fn cannot_prove_absence(&self) -> (r: bool)
        ensures
            r == self@.leaves_open(),
    {
        self.truncated || (self.limit_reached && !self.complete)
    }
}

/// A stream of a command on its way in.
#[derive(Debug)]
pub struct OutputReader {
    capture: CaptureBuffer,
    ended: bool,
    limit: usize,
    required: TextMatcher,
}

/// What has been read of a stream.
pub struct OutputView {
    pub capture: CaptureView,
    /// Whether the end of the stream has been seen.
    pub ended: bool,
}

impl View for OutputReader {
    type V = OutputView;

    closed spec fn view(&self) -> OutputView {
        OutputView { capture: self.capture@, ended: self.ended }
    }
}

/// Whether all needles are found.
pub open spec fn all_found(bytes: Seq<u8>, needles: Seq<Seq<u8>>) -> bool {
    forall|i: int| 0 <= i < needles.len() ==> text_match::contains(bytes, #[trigger] needles[i])
}

/// What has been read of a stream, as it is handed over.
pub open spec fn snapshot_of(view: OutputView, needles: Seq<Seq<u8>>, limit: int) -> BufferedView {
    BufferedView {
        bytes: view.capture.bytes,
        truncated: view.capture.incomplete,
        matched: needles.len() > 0 && all_found(view.capture.bytes, needles),
        limit_reached: needles.len() > 0 && view.capture.bytes.len() == limit,
        complete: view.ended,
    }
}

impl OutputReader {
    /// What is looked for.
    pub closed spec fn needles(&self) -> Seq<Seq<u8>> {
        self.required.needles()
    }

    /// How many bytes are kept.
    pub closed spec fn limit(&self) -> usize {
        self.limit
    }

    /// The marks of what has been found are right for the captured bytes.
    pub closed spec fn wf(&self) -> bool {
        &&& self.required.wf()
        &&& self.required.matched().len() == self.required.needles().len()
        &&& self.required.tracks(self.capture@.bytes)
    }

    /// A stream of which nothing has been read yet.
    pub fn new(limit: usize, required_texts: &[String]) -> (r: OutputReader)
        ensures
            r.wf(),
            r.needles() == text_match::utf8_needles(required_texts@),
            r.limit() == limit,
            r@ == (OutputView { capture: CaptureView::empty(), ended: false }),
    {
        OutputReader {
            capture: CaptureBuffer::default(),
            ended: false,
            limit,
            required: TextMatcher::new(required_texts),
        }
    }

    /// Takes in more of the stream. What is beyond the limit is dropped, but the stream is still
    /// read, so that the command is not stopped by a full pipe.
    pub fn on_data(&mut self, chunk: &[u8])
        requires
            old(self).wf(),
        ensures
            final(self).wf(),
            final(self).needles() == old(self).needles(),
            final(self).limit() == old(self).limit(),
            final(self)@ == (OutputView {
                capture: old(self)@.capture.append(chunk@, old(self).limit() as int),
                ended: old(self)@.ended,
            }),
    {
        let limit: usize = self.limit;
        let previous_len: usize = self.capture.append_limited(chunk, limit);
        assert(self.capture@.bytes.take(previous_len as int) =~= old(self).capture@.bytes);
        self.required.observe_appended(self.capture.bytes(), previous_len);
    }

    /// The end of the stream has been seen.
    pub fn on_end(&mut self)
        requires
            old(self).wf(),
        ensures
            final(self).wf(),
            final(self).needles() == old(self).needles(),
            final(self).limit() == old(self).limit(),
            final(self)@ == (OutputView { capture: old(self)@.capture, ended: true }),
    {
        self.ended = true;
    }

    /// What has been read so far.
    pub fn snapshot(&self) -> (r: BufferedOutput)
        requires
            self.wf(),
        ensures
            r@ == snapshot_of(self@, self.needles(), self.limit() as int),
    {
        let looked_for = self.required.count() > 0;
        let all = self.required.all_matched();
        proof {
            self.required.lemma_marks(self.capture@.bytes);
        }
        let bytes = self.capture.bytes();
        let mut kept: Vec<u8> = Vec::new();
        let mut i: usize = 0;
        while i < bytes.len()
            invariant
                i <= bytes@.len(),
                kept@ == bytes@.take(i as int),
            decreases bytes.len() - i,
        {
            kept.push(bytes[i]);
            i = i + 1;
            assert(kept@ =~= bytes@.take(i as int));
        }
        assert(kept@ =~= bytes@);
        BufferedOutput {
            bytes: kept,
            truncated: self.capture.is_incomplete(),
            matched: looked_for && all,
            limit_reached: looked_for && self.capture.len() == self.limit,
            complete: self.ended,
        }
    }
}

/// How many milliseconds the streams are waited for that outlive the command.
pub const OUTPUT_GRACE_MILLIS: u64 = 250;

/// What to do with a stream once the command has ended.
#[derive(Clone, Copy, Debug)]
pub enum OutputStep {
    /// Take what the task that reads the stream gives.
    UseFinal,
    /// Take what has been read so far, and stop reading.
    UseSnapshot,
    /// Stop reading: no time is left.
    TimedOut,
    /// Wait for more, at most this long.
    Wait(Span),
}

/// What to do with a stream once the command has ended. A stream that another process still holds
/// open is not waited for once what has been read settles the matter, or the time that is left for
/// stragglers is over.
pub fn next_output_step(
    task_finished: bool,
    snapshot: &BufferedOutput,
    grace_left: Span,
    remaining: Span,
) -> (r: OutputStep)
    ensures
        if task_finished {
            r is UseFinal
        } else if snapshot.matched || snapshot.truncated || grace_left@ == 0 {
            r is UseSnapshot
        } else if remaining@ == 0 {
            r is TimedOut
        } else {
            r matches OutputStep::Wait(span) && span@ > 0 && span@ <= remaining@ && span@
                <= grace_left@ && (span@ == remaining@ || span@ == grace_left@)
        },
{
    if task_finished {
        return OutputStep::UseFinal;
    }
    if snapshot.matched || snapshot.truncated || grace_left.is_zero() {
        return OutputStep::UseSnapshot;
    }
    if remaining.is_zero() {
        return OutputStep::TimedOut;
    }
    OutputStep::Wait(remaining.shorter(grace_left))
}

/// The error of what a command has written: the first text that is missing, or that cannot be
/// proved to be there.
pub open spec fn output_fault(
    stream_name: Seq<char>,
    label: Seq<char>,
    output: BufferedView,
    texts: Seq<String>,
    max_output: nat,
) -> Option<ErrorView> {
    let needles = text_match::utf8_needles(texts);
    let i = text_match::first_missing(output.bytes, needles);
    let head = stream_name + " of "@ + label;
    if i < needles.len() {
        if output.leaves_open() {
            error::failure_fault(
                head + " reached --max-output "@ + number::digits(max_output)
                    + " bytes, cannot prove required text "@ + diagnostic::debug_text(texts[i]@),
            )
        } else {
            error::failure_fault(
                head + " does not contain required text "@ + diagnostic::debug_text(texts[i]@),
            )
        }
    } else {
        None
    }
}

/// Holds what a command has written against the texts that it must contain.
pub fn assert_output(
    stream_name: &str,
    label: &str,
    output: &BufferedOutput,
    required_texts: &Vec<String>,
    max_output: usize,
) -> (r: Result<()>)
    ensures
        error::fault(r) == output_fault(
            stream_name@,
            label@,
            output@,
            required_texts@,
            max_output as nat,
        ),
{
    let bytes = output.bytes.as_slice();
    let ghost needles = text_match::utf8_needles(required_texts@);
    let mut i: usize = 0;
    while i < required_texts.len()
        invariant
            i <= required_texts@.len(),
            bytes@ == output.bytes@,
            needles == text_match::utf8_needles(required_texts@),
            forall|j: int| 0 <= j < i ==> text_match::contains(bytes@, #[trigger] needles[j]),
        decreases required_texts.len() - i,
    {
        let needle = required_texts[i].as_str();
        assert(needles[i as int] == utf8::encode_utf8(needle@));
        if !text_match::contains_bytes(bytes, needle) {
            proof {
                text_match::lemma_first_missing(bytes@, needles, i as int);
            }
            let mut message = stream_name.to_owned();
            message.append(" of ");
            message.append(label);
            if output.cannot_prove_absence() {
                message.append(" reached --max-output ");
                message.append(number::decimal(max_output as u128).as_str());
                message.append(" bytes, cannot prove required text ");
            } else {
                message.append(" does not contain required text ");
            }
            message.append(diagnostic::debug(needle).as_str());
            return Err(AppError::failure(message));
        }
        i = i + 1;
    }
    proof {
        text_match::lemma_first_missing(bytes@, needles, i as int);
    }
    Ok(())
}

/// However early reading stopped, accepted output contains every required text; and complete output
/// of which nothing was dropped is found to lack a text only where it does.
pub proof fn lemma_output_is_sound(
    stream_name: Seq<char>,
    label: Seq<char>,
    output: BufferedView,
    texts: Seq<String>,
    max_output: nat,
    stream: Seq<u8>,
)
    requires
        output.bytes.len() <= stream.len(),
        output.bytes == stream.take(output.bytes.len() as int),
        output.complete && !output.truncated ==> output.bytes == stream,
    ensures
        ({
            let needles = text_match::utf8_needles(texts);
            let fault = output_fault(stream_name, label, output, texts, max_output);
            &&& fault is None ==> all_found(stream, needles)
            &&& output.complete && !output.truncated ==> (fault is None <==> all_found(
                stream,
                needles,
            ))
        }),
{
    let needles = text_match::utf8_needles(texts);
    let bytes = output.bytes;
    text_match::lemma_missing_range(bytes, needles);
    let rest = stream.skip(bytes.len() as int);
    assert forall|i: int| 0 <= i < needles.len() && text_match::contains(bytes, needles[i]) implies text_match::contains(
        stream,
        #[trigger] needles[i],
    ) by {
        text_match::lemma_contains_grows(Seq::empty(), bytes, rest, needles[i]);
        assert(Seq::<u8>::empty() + bytes + rest =~= stream);
    }
    let m = text_match::first_missing(bytes, needles);
    if m < needles.len() {
        assert(!text_match::contains(bytes, needles[m]));
    }
}

/// The error of both streams: the standard output first.
pub open spec fn streams_fault(
    label: Seq<char>,
    args: ExecArgs,
    stdout: BufferedView,
    stderr: BufferedView,
) -> Option<ErrorView> {
    error::first_fault(
        output_fault("stdout"@, label, stdout, args.stdout_contains@, args.max_output as nat),
        output_fault("stderr"@, label, stderr, args.stderr_contains@, args.max_output as nat),
    )
}

/// Holds both streams of a command against the texts that they must contain.
pub fn assert_streams(
    label: &str,
    args: &ExecArgs,
    stdout: &BufferedOutput,
    stderr: &BufferedOutput,
) -> (r: Result<()>)
    ensures
        error::fault(r) == streams_fault(label@, *args, stdout@, stderr@),
{
    assert_output("stdout", label, stdout, &args.stdout_contains, args.max_output)?;
    assert_output("stderr", label, stderr, &args.stderr_contains, args.max_output)
}

/// How far a command has come.
pub enum ExecStage {
    /// It has not been started.
    Spawning,
    /// It runs.
    Running,
    /// It has ended with this code, and what it wrote to its standard output is awaited.
    Stdout(i32),
    /// What it wrote to its standard error is awaited.
    Stderr(i32, BufferedView),
    /// It ended as it should.
    Passed(i32),
    /// It did not.
    Failed(ErrorView),
}

impl ExecStage {
    /// Whether nothing is left to do.
    pub open spec fn is_final(self) -> bool {
        self is Passed || self is Failed
    }
}

/// The stage once both streams are there.
pub open spec fn settled(
    args: ExecArgs,
    code: i32,
    stdout: BufferedView,
    stderr: BufferedView,
) -> ExecStage {
    match streams_fault(label_of(args), args, stdout, stderr) {
        Some(e) => ExecStage::Failed(e),
        None => ExecStage::Passed(code),
    }
}

/// The stage once the standard output is there: the standard error is awaited where it matters.
pub open spec fn after_stdout(args: ExecArgs, code: i32, stdout: BufferedView) -> ExecStage {
    if args.stderr_contains@.len() > 0 {
        ExecStage::Stderr(code, stdout)
    } else {
        settled(args, code, stdout, BufferedView::none())
    }
}

/// The stage once the command has ended: its code comes before anything that it wrote.
pub open spec fn after_exit(args: ExecArgs, status: ExitStatus) -> ExecStage {
    match status_fault(label_of(args), args.exit_code@, status) {
        Some(e) => ExecStage::Failed(e),
        None => if args.stdout_contains@.len() > 0 {
            ExecStage::Stdout(status.code->0)
        } else {
            after_stdout(args, status.code->0, BufferedView::none())
        },
    }
}

/// What can happen to a command.
pub enum ExecEvent {
    /// It has been started, or could not be.
    Spawned(core::result::Result<(), SpawnFault>),
    /// Something went wrong with it that has nothing to do with its health.
    Fault(Seq<char>, RunFault),
    /// No time is left of so many nanoseconds.
    TimedOut(nat),
    /// It has ended.
    Exited(ExitStatus),
    /// What it wrote to its standard output is there.
    Stdout(BufferedView),
    /// What it wrote to its standard error is there.
    Stderr(BufferedView),
}

/// The stage that a command begins in: the arguments are checked first.
pub open spec fn first_stage(args: ExecArgs) -> ExecStage {
    match args_fault(args) {
        Some(e) => ExecStage::Failed(e),
        None => ExecStage::Spawning,
    }
}

/// The stage after something has happened. What does not fit the stage changes nothing.
pub open spec fn next_stage(args: ExecArgs, stage: ExecStage, event: ExecEvent) -> ExecStage {
    match (stage, event) {
        (ExecStage::Passed(_), _) => stage,
        (ExecStage::Failed(_), _) => stage,
        (_, ExecEvent::Fault(stream_name, fault)) => ExecStage::Failed(
            run_error_view(stream_name, fault),
        ),
        (_, ExecEvent::TimedOut(nanos)) => ExecStage::Failed(timeout_view(label_of(args), nanos)),
        (ExecStage::Spawning, ExecEvent::Spawned(Ok(_))) => ExecStage::Running,
        (ExecStage::Spawning, ExecEvent::Spawned(Err(fault))) => ExecStage::Failed(
            spawn_error_view(args.command@[0]@, fault),
        ),
        (ExecStage::Running, ExecEvent::Exited(status)) => after_exit(args, status),
        (ExecStage::Stdout(code), ExecEvent::Stdout(output)) => after_stdout(args, code, output),
        (ExecStage::Stderr(code, stdout), ExecEvent::Stderr(output)) => settled(
            args,
            code,
            stdout,
            output,
        ),
        _ => stage,
    }
}

enum Stage {
    Spawning,
    Running,
    Stdout(i32),
    Stderr(i32, BufferedOutput),
    Passed(i32),
    Failed(AppError),
}

/// What to do next with a command.
#[derive(Clone, Copy, Debug)]
pub enum ExecAction {
    /// Start it, and capture the streams that matter.
    Spawn { capture_stdout: bool, capture_stderr: bool },
    /// Wait for its end.
    Wait,
    /// Collect what it wrote to its standard output.
    CollectStdout,
    /// Collect what it wrote to its standard error.
    CollectStderr,
    /// Nothing: the verdict is known.
    Finish,
}

/// A command from its start to the verdict.
pub struct ExecProbe<'a> {
    args: &'a ExecArgs,
    stage: Stage,
}

impl<'a> ExecProbe<'a> {
    /// The arguments of the probe.
    pub closed spec fn args(&self) -> ExecArgs {
        *self.args
    }

    /// How far the command has come.
    pub closed spec fn stage(&self) -> ExecStage {
        match self.stage {
            Stage::Spawning => ExecStage::Spawning,
            Stage::Running => ExecStage::Running,
            Stage::Stdout(code) => ExecStage::Stdout(code),
            Stage::Stderr(code, stdout) => ExecStage::Stderr(code, stdout@),
            Stage::Passed(code) => ExecStage::Passed(code),
            Stage::Failed(e) => ExecStage::Failed(e@),
        }
    }

    /// There is a command.
    pub closed spec fn wf(&self) -> bool {
        self.stage is Failed || self.args.command@.len() > 0
    }

    /// The arguments are checked first.
    pub fn new(args: &'a ExecArgs) -> (r: ExecProbe<'a>)
        ensures
            r.wf(),
            r.args() == *args,
            r.stage() == match args_fault(*args) {
                Some(e) => ExecStage::Failed(e),
                None => ExecStage::Spawning,
            },
            r.stage() == first_stage(*args),
    {
        match validate_exec_args(args) {
            Ok(_) => ExecProbe { args, stage: Stage::Spawning },
            Err(e) => ExecProbe { args, stage: Stage::Failed(e) },
        }
    }

    /// What to do next.
    pub fn action(&self) -> (r: ExecAction)
        ensures
            match self.stage() {
                ExecStage::Spawning => r matches ExecAction::Spawn { capture_stdout, capture_stderr }
                    && capture_stdout == (self.args().stdout_contains@.len() > 0) && capture_stderr
                    == (self.args().stderr_contains@.len() > 0),
                ExecStage::Running => r is Wait,
                ExecStage::Stdout(_) => r is CollectStdout,
                ExecStage::Stderr(_, _) => r is CollectStderr,
                _ => r is Finish,
            },
    {
        match &self.stage {
            Stage::Spawning => ExecAction::Spawn {
                capture_stdout: self.args.stdout_contains.len() > 0,
                capture_stderr: self.args.stderr_contains.len() > 0,
            },
            Stage::Running => ExecAction::Wait,
            Stage::Stdout(_) => ExecAction::CollectStdout,
            Stage::Stderr(_, _) => ExecAction::CollectStderr,
            Stage::Passed(_) => ExecAction::Finish,
            Stage::Failed(_) => ExecAction::Finish,
        }
    }

    /// The command has been started, or could not be.
    pub fn on_spawned(self, spawned: core::result::Result<(), SpawnFault>) -> (r: ExecProbe<'a>)
        requires
            self.wf(),
        ensures
            r.wf(),
            r.args() == self.args(),
            r.stage() == match self.stage() {
                ExecStage::Spawning => match spawned {
                    Ok(_) => ExecStage::Running,
                    Err(fault) => ExecStage::Failed(
                        spawn_error_view(self.args().command@[0]@, fault),
                    ),
                },
                other => other,
            },
            r.stage() == next_stage(self.args(), self.stage(), ExecEvent::Spawned(spawned)),
    {
        match self.stage {
            Stage::Spawning => match spawned {
                Ok(_) => ExecProbe { args: self.args, stage: Stage::Running },
                Err(fault) => ExecProbe {
                    args: self.args,
                    stage: Stage::Failed(spawn_error(&self.args.command[0], &fault)),
                },
            },
            other => ExecProbe { args: self.args, stage: other },
        }
    }

    /// Something went wrong with the command that has nothing to do with its health.
    pub fn on_fault(self, stream_name: &str, fault: &RunFault) -> (r: ExecProbe<'a>)
        requires
            self.wf(),
        ensures
            r.wf(),
            r.args() == self.args(),
            r.stage() == if self.stage().is_final() {
                self.stage()
            } else {
                ExecStage::Failed(run_error_view(stream_name@, *fault))
            },
            r.stage() == next_stage(
                self.args(),
                self.stage(),
                ExecEvent::Fault(stream_name@, *fault),
            ),
    {
        match self.stage {
            Stage::Passed(code) => ExecProbe { args: self.args, stage: Stage::Passed(code) },
            Stage::Failed(e) => ExecProbe { args: self.args, stage: Stage::Failed(e) },
            _ => ExecProbe { args: self.args, stage: Stage::Failed(run_error(stream_name, fault)) },
        }
    }

    /// No time is left.
    pub fn on_timeout(self, timeout: Span) -> (r: ExecProbe<'a>)
        requires
            self.wf(),
        ensures
            r.wf(),
            r.args() == self.args(),
            r.stage() == if self.stage().is_final() {
                self.stage()
            } else {
                ExecStage::Failed(timeout_view(label_of(self.args()), timeout@))
            },
            r.stage() == next_stage(self.args(), self.stage(), ExecEvent::TimedOut(timeout@)),
    {
        match self.stage {
            Stage::Passed(code) => ExecProbe { args: self.args, stage: Stage::Passed(code) },
            Stage::Failed(e) => ExecProbe { args: self.args, stage: Stage::Failed(e) },
            _ => {
                let label = command_label(self.args);
                ExecProbe {
                    args: self.args,
                    stage: Stage::Failed(command_timeout_error(label.as_str(), timeout)),
                }
            },
        }
    }

    /// Both streams are there.
    fn settle(args: &'a ExecArgs, code: i32, stdout: &BufferedOutput, stderr: &BufferedOutput) -> (r:
        ExecProbe<'a>)
        requires
            args.command@.len() > 0,
        ensures
            r.wf(),
            r.args() == *args,
            r.stage() == settled(*args, code, stdout@, stderr@),
    {
        let label = command_label(args);
        match assert_streams(label.as_str(), args, stdout, stderr) {
            Ok(_) => ExecProbe { args, stage: Stage::Passed(code) },
            Err(e) => ExecProbe { args, stage: Stage::Failed(e) },
        }
    }

    /// The standard output is there.
    fn with_stdout(args: &'a ExecArgs, code: i32, stdout: BufferedOutput) -> (r: ExecProbe<'a>)
        requires
            args.command@.len() > 0,
        ensures
            r.wf(),
            r.args() == *args,
            r.stage() == after_stdout(*args, code, stdout@),
    {
        if args.stderr_contains.len() > 0 {
            return ExecProbe { args, stage: Stage::Stderr(code, stdout) };
        }
        Self::settle(args, code, &stdout, &BufferedOutput::default())
    }

    /// The command has ended.
    pub fn on_exited(self, status: ExitStatus) -> (r: ExecProbe<'a>)
        requires
            self.wf(),
        ensures
            r.wf(),
            r.args() == self.args(),
            r.stage() == match self.stage() {
                ExecStage::Running => after_exit(self.args(), status),
                other => other,
            },
            r.stage() == next_stage(self.args(), self.stage(), ExecEvent::Exited(status)),
    {
        match self.stage {
            Stage::Running => {
                let label = command_label(self.args);
                match check_status(label.as_str(), self.args, status) {
                    Err(e) => ExecProbe { args: self.args, stage: Stage::Failed(e) },
                    Ok(code) => {
                        if self.args.stdout_contains.len() > 0 {
                            ExecProbe { args: self.args, stage: Stage::Stdout(code) }
                        } else {
                            Self::with_stdout(self.args, code, BufferedOutput::default())
                        }
                    },
                }
            },
            other => ExecProbe { args: self.args, stage: other },
        }
    }

    /// What the command wrote to its standard output is there.
    pub fn on_stdout(self, output: BufferedOutput) -> (r: ExecProbe<'a>)
        requires
            self.wf(),
        ensures
            r.wf(),
            r.args() == self.args(),
            r.stage() == match self.stage() {
                ExecStage::Stdout(code) => after_stdout(self.args(), code, output@),
                other => other,
            },
            r.stage() == next_stage(self.args(), self.stage(), ExecEvent::Stdout(output@)),
    {
        match self.stage {
            Stage::Stdout(code) => Self::with_stdout(self.args, code, output),
            other => ExecProbe { args: self.args, stage: other },
        }
    }

    /// What the command wrote to its standard error is there.
    pub fn on_stderr(self, output: BufferedOutput) -> (r: ExecProbe<'a>)
        requires
            self.wf(),
        ensures
            r.wf(),
            r.args() == self.args(),
            r.stage() == match self.stage() {
                ExecStage::Stderr(code, stdout) => settled(self.args(), code, stdout, output@),
                other => other,
            },
            r.stage() == next_stage(self.args(), self.stage(), ExecEvent::Stderr(output@)),
    {
        match self.stage {
            Stage::Stderr(code, stdout) => Self::settle(self.args, code, &stdout, &output),
            other => ExecProbe { args: self.args, stage: other },
        }
    }

    /// The verdict.
    pub fn finish(self, elapsed: Span, options: ProbeOptions) -> (r: Result<ProbeReport>)
        requires
            self.wf(),
            self.stage().is_final(),
        ensures
            match self.stage() {
                ExecStage::Passed(code) => r matches Ok(report) && is_report(
                    report,
                    label_of(self.args()),
                    code,
                    elapsed,
                    options,
                ),
                ExecStage::Failed(e) => error::fault(r) == Some(e),
                _ => true,
            },
    {
        match self.stage {
            Stage::Failed(e) => Err(e),
            Stage::Passed(code) => Ok(report(command_label(self.args), code, elapsed, options)),
            _ => vstd::pervasive::unreached(),
        }
    }
}

/// Whether `report` tells of a command that ended as it should.
pub open spec fn is_report(
    report: ProbeReport,
    label: Seq<char>,
    code: i32,
    elapsed: Span,
    options: ProbeOptions,
) -> bool {
    &&& report.mode@ == "exec"@
    &&& report.target@ == label
    &&& report.detail matches Some(detail) && detail@ == "exit_code="@ + number::signed_digits(
        code as int,
    )
    &&& report.elapsed == elapsed
    &&& report.options == options
}

/// A command passes only with an accepted exit code, whatever it wrote, and with every required
/// text in what was captured of its streams.
pub proof fn lemma_passed_command(
    args: ExecArgs,
    status: ExitStatus,
    code: i32,
    stdout: BufferedView,
    stderr: BufferedView,
)
    ensures
        after_exit(args, status) is Failed <==> status.code is None || !accepts_code(
            args.exit_code@,
            status.code->0,
        ) || (args.stdout_contains@.len() == 0 && after_stdout(
            args,
            status.code->0,
            BufferedView::none(),
        ) is Failed),
        settled(args, code, stdout, stderr) is Passed ==> all_found(
            stdout.bytes,
            text_match::utf8_needles(args.stdout_contains@),
        ) && all_found(stderr.bytes, text_match::utf8_needles(args.stderr_contains@)),
{
    text_match::lemma_missing_range(
        stdout.bytes,
        text_match::utf8_needles(args.stdout_contains@),
    );
    text_match::lemma_missing_range(
        stderr.bytes,
        text_match::utf8_needles(args.stderr_contains@),
    );
}

/// A command that ended as it should.
pub fn report(label: String, code: i32, elapsed: Span, options: ProbeOptions) -> (r: ProbeReport)
    ensures
        is_report(r, label@, code, elapsed, options),
{
    let mut detail = "exit_code=".to_owned();
    detail.append(number::signed_decimal(code).as_str());
    ProbeReport::new("exec", label, Some(detail), elapsed, options)
}

} // verus!
