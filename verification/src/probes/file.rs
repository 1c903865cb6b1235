//! The file probe: what a file is, how old it is and what it holds.

use crate::capture::{CaptureBuffer, CaptureView};
use crate::cli::FileArgs;
use crate::diagnostic;
use crate::error;
use crate::error::{AppError, ErrorView, Result};
use crate::number;
use crate::os_text::OsText;
use crate::probe::{ProbeOptions, ProbeReport};
use crate::text_match;
use crate::text_match::TextMatcher;
use crate::timing;
use crate::timing::Span;
use crate::validation;
use vstd::prelude::*;
use vstd::utf8;

verus! {

/// The error of the arguments of the probe.
pub open spec fn args_fault(args: FileArgs) -> Option<ErrorView> {
    error::first_fault(
        validation::non_empty_fault("--path"@, args.path@.len()),
        error::first_fault(
            match (args.min_size, args.max_size) {
                (Some(min), Some(max)) if min > max => error::config_fault(
                    "invalid file size range: min-size "@ + number::digits(min as nat)
                        + " is greater than max-size "@ + number::digits(max as nat),
                ),
                _ => None,
            },
            error::first_fault(
                validation::values_fault("--contains"@, args.contains@),
                error::first_fault(
                    validation::capture_limit_fault(
                        "--max-read"@,
                        args.max_read as int,
                        "file content assertions"@,
                        args.contains@.len() > 0,
                    ),
                    match args.max_age {
                        Some(age) => validation::duration_fault("--max-age"@, age@),
                        None => None,
                    },
                ),
            ),
        ),
    )
}

/// The arguments must name a file and ask for what can be.
pub fn validate_file_args(args: &FileArgs) -> (r: Result<()>)
    ensures
        error::fault(r) == args_fault(*args),
{
    validation::validate_non_empty_path("--path", &args.path)?;
    if let Some(min_size) = args.min_size {
        if let Some(max_size) = args.max_size {
            if min_size > max_size {
                let mut message = "invalid file size range: min-size ".to_owned();
                message.append(number::decimal(min_size as u128).as_str());
                message.append(" is greater than max-size ");
                message.append(number::decimal(max_size as u128).as_str());
                return Err(AppError::invalid_config(message));
            }
        }
    }
    validation::validate_non_empty_values("--contains", args.contains.as_slice())?;
    validation::validate_capture_limit(
        "--max-read",
        args.max_read,
        "file content assertions",
        args.contains.len() > 0,
    )?;
    if let Some(max_age) = args.max_age {
        validation::validate_positive_duration("--max-age", max_age)?;
    }
    Ok(())
}

/// When a file was last modified.
#[derive(Debug)]
pub enum Modified {
    /// This long ago.
    Ago(Span),
    /// Later than now.
    InFuture,
    /// It cannot be told, for this reason.
    Unknown(String),
}

/// What is known of a file without opening it.
#[derive(Debug)]
pub struct FileFacts {
    pub is_file: bool,
    pub len: u64,
    pub modified: Modified,
}

/// The error of the age of a file.
pub open spec fn age_fault(shown: Seq<char>, modified: Modified, max_age: nat) -> Option<ErrorView> {
    match modified {
        Modified::Unknown(reason) => error::failure_fault(
            "failed to read modification time for "@ + shown + ": "@ + reason@,
        ),
        Modified::InFuture => error::failure_fault(
            "file "@ + shown + " has a modification time in the future"@,
        ),
        Modified::Ago(age) => if age@ > max_age {
            error::failure_fault(
                "file "@ + shown + " is older than "@ + timing::duration_text(max_age),
            )
        } else {
            None
        },
    }
}

/// The error of what is known of a file without opening it: its kind first, then its size, then its
/// age.
pub open spec fn facts_fault(args: FileArgs, facts: FileFacts) -> Option<ErrorView> {
    let shown = diagnostic::shown_os(args.path@);
    if !facts.is_file {
        error::failure_fault(shown + " is not a regular file"@)
    } else if args.min_size matches Some(min) && facts.len < min {
        error::failure_fault(
            "file "@ + shown + " is smaller than "@ + number::digits(args.min_size->0 as nat)
                + " bytes"@,
        )
    } else if args.max_size matches Some(max) && facts.len > max {
        error::failure_fault(
            "file "@ + shown + " is larger than "@ + number::digits(args.max_size->0 as nat)
                + " bytes"@,
        )
    } else if args.non_empty && facts.len == 0 {
        error::failure_fault("file "@ + shown + " is empty"@)
    } else {
        match args.max_age {
            Some(max_age) => age_fault(shown, facts.modified, max_age@),
            None => None,
        }
    }
}

/// A message that begins with `file` and the path.
fn file_message(shown: &str, rest: &str) -> (r: String)
    ensures
        r@ == "file "@ + shown@ + rest@,
{
    let mut message = "file ".to_owned();
    message.append(shown);
    message.append(rest);
    message
}

/// Holds what is known of a file without opening it against what is wanted.
pub fn check_facts(args: &FileArgs, facts: &FileFacts) -> (r: Result<()>)
    ensures
        error::fault(r) == facts_fault(*args, *facts),
{
    let path = diagnostic::path(&args.path);
    let shown = path.as_str();
    if !facts.is_file {
        let mut message = shown.to_owned();
        message.append(" is not a regular file");
        return Err(AppError::failure(message));
    }
    if let Some(min_size) = args.min_size {
        if facts.len < min_size {
            let mut message = file_message(shown, " is smaller than ");
            message.append(number::decimal(min_size as u128).as_str());
            message.append(" bytes");
            return Err(AppError::failure(message));
        }
    }
    if let Some(max_size) = args.max_size {
        if facts.len > max_size {
            let mut message = file_message(shown, " is larger than ");
            message.append(number::decimal(max_size as u128).as_str());
            message.append(" bytes");
            return Err(AppError::failure(message));
        }
    }
    if args.non_empty && facts.len == 0 {
        return Err(AppError::failure(file_message(shown, " is empty")));
    }
    if let Some(max_age) = args.max_age {
        match &facts.modified {
            Modified::Unknown(reason) => {
                let mut message = "failed to read modification time for ".to_owned();
                message.append(shown);
                message.append(": ");
                message.append(reason.as_str());
                return Err(AppError::failure(message));
            },
            Modified::InFuture => {
                return Err(
                    AppError::failure(
                        file_message(shown, " has a modification time in the future"),
                    ),
                );
            },
            Modified::Ago(age) => {
                if age.exceeds(max_age) {
                    let mut message = file_message(shown, " is older than ");
                    message.append(timing::format_duration(max_age).as_str());
                    return Err(AppError::failure(message));
                }
            },
        }
    }
    Ok(())
}

/// What keeps a file from being inspected or read.
#[derive(Debug)]
pub enum FileFault {
    /// It does not exist.
    Missing,
    /// Nothing can be learned of it.
    Inspect(String),
    /// It cannot be opened.
    Open(String),
    /// Its contents cannot be read.
    Read(String),
}

/// The message for a file that cannot be inspected or read.
pub open spec fn file_fault_message(path: Seq<u8>, fault: FileFault) -> Seq<char> {
    let shown = diagnostic::shown_os(path);
    match fault {
        FileFault::Missing => "file "@ + shown + " does not exist"@,
        FileFault::Inspect(reason) => "failed to read metadata for "@ + shown + ": "@ + reason@,
        FileFault::Open(reason) => "failed to open "@ + shown + ": "@ + reason@,
        FileFault::Read(reason) => "failed to read "@ + shown + ": "@ + reason@,
    }
}

/// The error for a file that cannot be inspected or read.
pub fn file_error(path: &OsText, fault: &FileFault) -> (r: AppError)
    ensures
        r@ == ErrorView::Failure(file_fault_message(path@, *fault)),
{
    let shown = diagnostic::path(path);
    let (verb, reason) = match fault {
        FileFault::Missing => {
            return AppError::failure(file_message(shown.as_str(), " does not exist"));
        },
        FileFault::Inspect(reason) => ("failed to read metadata for ", reason),
        FileFault::Open(reason) => ("failed to open ", reason),
        FileFault::Read(reason) => ("failed to read ", reason),
    };
    let mut message = verb.to_owned();
    message.append(shown.as_str());
    message.append(": ");
    message.append(reason.as_str());
    AppError::failure(message)
}

/// Whether the file has to be opened.
pub fn needs_open(args: &FileArgs) -> (r: bool)
    ensures
        r == (args.readable || args.contains@.len() > 0),
{
    args.readable || args.contains.len() > 0
}

/// Whether the contents of the file have to be read.
pub fn needs_contents(args: &FileArgs) -> (r: bool)
    ensures
        r == (args.contains@.len() > 0),
{
    args.contains.len() > 0
}

/// What has been read of a file.
pub struct FileView {
    pub capture: CaptureView,
    /// Whether the end of the file has been seen.
    pub ended: bool,
}

impl FileView {
    /// Whether the captured bytes are the whole file.
    pub open spec fn complete(self) -> bool {
        self.ended && !self.capture.incomplete
    }

    /// Whether reading is over: the file has ended, bytes were dropped, or all that is looked for
    /// has been found.
    pub open spec fn finished(self, needles: Seq<Seq<u8>>) -> bool {
        self.ended || self.capture.incomplete || forall|i: int|
            0 <= i < needles.len() ==> text_match::contains(
                self.capture.bytes,
                #[trigger] needles[i],
            )
    }
}

/// The error of the contents of a file: the first text that is missing, or that cannot be proved
/// to be there.
pub open spec fn contents_fault(view: FileView, args: FileArgs) -> Option<ErrorView> {
    let needles = text_match::utf8_needles(args.contains@);
    let shown = diagnostic::shown_os(args.path@);
    let i = text_match::first_missing(view.capture.bytes, needles);
    if i < needles.len() {
        if view.complete() {
            error::failure_fault(
                "file "@ + shown + " does not contain required text "@ + diagnostic::debug_text(
                    args.contains@[i]@,
                ),
            )
        } else {
            error::failure_fault(
                "file "@ + shown + " was truncated at "@ + number::digits(args.max_read as nat)
                    + " bytes, cannot prove required text "@ + diagnostic::debug_text(
                    args.contains@[i]@,
                ),
            )
        }
    } else {
        None
    }
}

/// A file on its way in.
#[derive(Debug)]
pub struct FileReader {
    capture: CaptureBuffer,
    ended: bool,
    limit: usize,
    required: TextMatcher,
}

impl View for FileReader {
    type V = FileView;

    closed spec fn view(&self) -> FileView {
        FileView { capture: self.capture@, ended: self.ended }
    }
}

impl FileReader {
    /// What is looked for.
    pub closed spec fn needles(&self) -> Seq<Seq<u8>> {
        self.required.needles()
    }

    /// How many bytes are kept.
    pub closed spec fn limit(&self) -> usize {
        self.limit
    }

    /// The marks of what has been found are right for the captured bytes.
    pub closed spec fn wf(&self) -> bool {
        &&& self.required.wf()
        &&& self.required.matched().len() == self.required.needles().len()
        &&& self.required.tracks(self.capture@.bytes)
    }

    /// A file of which nothing has been read yet.
    pub fn new(args: &FileArgs) -> (r: FileReader)
        ensures
            r.wf(),
            r.needles() == text_match::utf8_needles(args.contains@),
            r.limit() == args.max_read,
            r@ == (FileView { capture: CaptureView::empty(), ended: false }),
    {
        FileReader {
            capture: CaptureBuffer::default(),
            ended: false,
            limit: args.max_read,
            required: TextMatcher::new(args.contains.as_slice()),
        }
    }

    /// Takes in more of the file.
    pub fn on_data(&mut self, chunk: &[u8])
        requires
            old(self).wf(),
        ensures
            final(self).wf(),
            final(self).needles() == old(self).needles(),
            final(self).limit() == old(self).limit(),
            final(self)@ == (FileView {
                capture: old(self)@.capture.append(chunk@, old(self).limit() as int),
                ended: old(self)@.ended,
            }),
    {
        let limit: usize = self.limit;
        let previous_len: usize = self.capture.append_limited(chunk, limit);
        assert(self.capture@.bytes.take(previous_len as int) =~= old(self).capture@.bytes);
        self.required.observe_appended(self.capture.bytes(), previous_len);
    }

    /// The end of the file has been seen.
    pub fn on_end(&mut self)
        requires
            old(self).wf(),
        ensures
            final(self).wf(),
            final(self).needles() == old(self).needles(),
            final(self).limit() == old(self).limit(),
            final(self)@ == (FileView { capture: old(self)@.capture, ended: true }),
    {
        self.ended = true;
    }

    /// Whether reading is over.
    pub fn is_done(&self) -> (r: bool)
        requires
            self.wf(),
        ensures
            r == self@.finished(self.needles()),
    {
        let all = self.required.all_matched();
        proof {
            self.required.lemma_marks(self.capture@.bytes);
        }
        self.ended || self.capture.is_incomplete() || all
    }

    /// Holds what has been read against the texts that the file must contain.
    pub fn assert_contents(&self, args: &FileArgs) -> (r: Result<()>)
        requires
            self.wf(),
            self.needles() == text_match::utf8_needles(args.contains@),
        ensures
            error::fault(r) == contents_fault(self@, *args),
    {
        let bytes = self.capture.bytes();
        let ghost needles = text_match::utf8_needles(args.contains@);
        let mut i: usize = 0;
        while i < args.contains.len()
            invariant
                i <= args.contains@.len(),
                bytes@ == self@.capture.bytes,
                needles == text_match::utf8_needles(args.contains@),
                forall|j: int| 0 <= j < i ==> text_match::contains(bytes@, #[trigger] needles[j]),
            decreases args.contains.len() - i,
        {
            let needle = args.contains[i].as_str();
            assert(needles[i as int] == utf8::encode_utf8(needle@));
            if !text_match::contains_bytes(bytes, needle) {
                proof {
                    text_match::lemma_first_missing(bytes@, needles, i as int);
                }
                let shown = diagnostic::path(&args.path);
                let mut message = if self.ended && !self.capture.is_incomplete() {
                    file_message(shown.as_str(), " does not contain required text ")
                } else {
                    let mut truncated = file_message(shown.as_str(), " was truncated at ");
                    truncated.append(number::decimal(args.max_read as u128).as_str());
                    truncated.append(" bytes, cannot prove required text ");
                    truncated
                };
                message.append(diagnostic::debug(needle).as_str());
                return Err(AppError::failure(message));
            }
            i = i + 1;
        }
        proof {
            text_match::lemma_first_missing(bytes@, needles, i as int);
        }
        Ok(())
    }
}

/// However early reading stopped, an accepted file contains every required text, and a file that is
/// found to lack one does.
pub proof fn lemma_contents_are_sound(view: FileView, args: FileArgs, file: Seq<u8>)
    requires
        view.capture.bytes.len() <= file.len(),
        view.capture.bytes == file.take(view.capture.bytes.len() as int),
        view.complete() ==> view.capture.bytes == file,
        view.finished(text_match::utf8_needles(args.contains@)),
    ensures
        ({
            let needles = text_match::utf8_needles(args.contains@);
            &&& contents_fault(view, args) is None ==> forall|i: int|
                0 <= i < needles.len() ==> text_match::contains(file, #[trigger] needles[i])
            &&& contents_fault(view, args) is Some && !view.capture.incomplete ==> exists|i: int|
                0 <= i < needles.len() && !text_match::contains(file, #[trigger] needles[i])
        }),
{
    let needles = text_match::utf8_needles(args.contains@);
    let bytes = view.capture.bytes;
    text_match::lemma_missing_range(bytes, needles);
    let rest = file.skip(bytes.len() as int);
    assert forall|i: int| 0 <= i < needles.len() && text_match::contains(bytes, needles[i]) implies text_match::contains(
        file,
        #[trigger] needles[i],
    ) by {
        text_match::lemma_contains_grows(Seq::empty(), bytes, rest, needles[i]);
        assert(Seq::<u8>::empty() + bytes + rest =~= file);
    }
}

/// How far the inspection of a file has come.
pub enum FileStage {
    /// Nothing is known of it.
    Inspecting,
    /// It is this long, and has to be opened.
    Opening(u64),
    /// It is read.
    Reading(u64, FileView),
    /// It is as it should be.
    Passed(u64),
    /// It is not.
    Failed(ErrorView),
}

impl FileStage {
    /// Whether nothing is left to do.
    pub open spec fn is_final(self) -> bool {
        self is Passed || self is Failed
    }
}

/// The stage once something is known of the file.
pub open spec fn after_facts(
    args: FileArgs,
    facts: core::result::Result<FileFacts, FileFault>,
) -> FileStage {
    match facts {
        Err(fault) => FileStage::Failed(
            ErrorView::Failure(file_fault_message(args.path@, fault)),
        ),
        Ok(facts) => match facts_fault(args, facts) {
            Some(e) => FileStage::Failed(e),
            None => if args.readable || args.contains@.len() > 0 {
                FileStage::Opening(facts.len)
            } else {
                FileStage::Passed(facts.len)
            },
        },
    }
}

/// The stage once the file has been opened, or could not be.
pub open spec fn after_opening(
    args: FileArgs,
    len: u64,
    opened: core::result::Result<(), FileFault>,
) -> FileStage {
    match opened {
        Err(fault) => FileStage::Failed(
            ErrorView::Failure(file_fault_message(args.path@, fault)),
        ),
        Ok(_) => if args.contains@.len() > 0 {
            read_on(args, len, FileView { capture: CaptureView::empty(), ended: false })
        } else {
            FileStage::Passed(len)
        },
    }
}

/// The stage once so much has been read.
pub open spec fn read_on(args: FileArgs, len: u64, view: FileView) -> FileStage {
    if view.finished(text_match::utf8_needles(args.contains@)) {
        match contents_fault(view, args) {
            Some(e) => FileStage::Failed(e),
            None => FileStage::Passed(len),
        }
    } else {
        FileStage::Reading(len, view)
    }
}

/// What can happen to a file.
pub enum FileEvent {
    /// Something is known of it, or nothing could be learned.
    Facts(core::result::Result<FileFacts, FileFault>),
    /// It has been opened, or could not be.
    Opened(core::result::Result<(), FileFault>),
    /// More of it has been read.
    Data(Seq<u8>),
    /// Its end has been seen.
    End,
    /// It cannot be read any further.
    ReadError(String),
}

/// The stage that a file begins in: the arguments are checked first.
pub open spec fn first_stage(args: FileArgs) -> FileStage {
    match args_fault(args) {
        Some(e) => FileStage::Failed(e),
        None => FileStage::Inspecting,
    }
}

/// The stage after something has happened. What does not fit the stage changes nothing.
pub open spec fn next_stage(args: FileArgs, stage: FileStage, event: FileEvent) -> FileStage {
    match (stage, event) {
        (FileStage::Inspecting, FileEvent::Facts(facts)) => after_facts(args, facts),
        (FileStage::Opening(len), FileEvent::Opened(opened)) => after_opening(args, len, opened),
        (FileStage::Reading(len, view), FileEvent::Data(chunk)) => read_on(
            args,
            len,
            FileView {
                capture: view.capture.append(chunk, args.max_read as int),
                ended: view.ended,
            },
        ),
        (FileStage::Reading(len, view), FileEvent::End) => read_on(
            args,
            len,
            FileView { capture: view.capture, ended: true },
        ),
        (FileStage::Reading(_, _), FileEvent::ReadError(reason)) => FileStage::Failed(
            ErrorView::Failure(file_fault_message(args.path@, FileFault::Read(reason))),
        ),
        _ => stage,
    }
}

enum Stage {
    Inspecting,
    Opening(u64),
    Reading(u64, FileReader),
    Passed(u64),
    Failed(AppError),
}

/// What to do next with a file.
#[derive(Clone, Copy, Debug)]
pub enum FileAction {
    /// Learn what can be known of it without opening it.
    Inspect,
    /// Open it.
    Open,
    /// Read more of it.
    Read,
    /// Nothing: the verdict is known.
    Finish,
}

/// A file from the first look at it to the verdict.
pub struct FileProbe<'a> {
    args: &'a FileArgs,
    stage: Stage,
}

impl<'a> FileProbe<'a> {
    /// The arguments of the probe.
    pub closed spec fn args(&self) -> FileArgs {
        *self.args
    }

    /// How far the inspection has come.
    pub closed spec fn stage(&self) -> FileStage {
        match self.stage {
            Stage::Inspecting => FileStage::Inspecting,
            Stage::Opening(len) => FileStage::Opening(len),
            Stage::Reading(len, reader) => FileStage::Reading(len, reader@),
            Stage::Passed(len) => FileStage::Passed(len),
            Stage::Failed(e) => FileStage::Failed(e@),
        }
    }

    /// What is read is held against the texts of the arguments.
    pub closed spec fn wf(&self) -> bool {
        self.stage matches Stage::Reading(_, reader) ==> {
            &&& reader.wf()
            &&& reader.needles() == text_match::utf8_needles(self.args.contains@)
            &&& reader.limit() == self.args.max_read
        }
    }

    /// The arguments are checked first.
    pub fn new(args: &'a FileArgs) -> (r: FileProbe<'a>)
        ensures
            r.wf(),
            r.args() == *args,
            r.stage() == match args_fault(*args) {
                Some(e) => FileStage::Failed(e),
                None => FileStage::Inspecting,
            },
            r.stage() == first_stage(*args),
    {
        match validate_file_args(args) {
            Ok(_) => FileProbe { args, stage: Stage::Inspecting },
            Err(e) => FileProbe { args, stage: Stage::Failed(e) },
        }
    }

    /// What to do next.
    pub fn action(&self) -> (r: FileAction)
        ensures
            match self.stage() {
                FileStage::Inspecting => r is Inspect,
                FileStage::Opening(_) => r is Open,
                FileStage::Reading(_, _) => r is Read,
                _ => r is Finish,
            },
    {
        match &self.stage {
            Stage::Inspecting => FileAction::Inspect,
            Stage::Opening(_) => FileAction::Open,
            Stage::Reading(_, _) => FileAction::Read,
            Stage::Passed(_) => FileAction::Finish,
            Stage::Failed(_) => FileAction::Finish,
        }
    }

    /// Something is known of the file, or nothing could be learned.
    pub fn on_facts(self, facts: core::result::Result<FileFacts, FileFault>) -> (r: FileProbe<'a>)
        requires
            self.wf(),
        ensures
            r.wf(),
            r.args() == self.args(),
            r.stage() == match self.stage() {
                FileStage::Inspecting => after_facts(self.args(), facts),
                other => other,
            },
            r.stage() == next_stage(self.args(), self.stage(), FileEvent::Facts(facts)),
    {
        let args = self.args;
        match self.stage {
            Stage::Inspecting => match facts {
                Err(fault) => FileProbe {
                    args,
                    stage: Stage::Failed(file_error(&args.path, &fault)),
                },
                Ok(facts) => match check_facts(args, &facts) {
                    Err(e) => FileProbe { args, stage: Stage::Failed(e) },
                    Ok(_) => if needs_open(args) {
                        FileProbe { args, stage: Stage::Opening(facts.len) }
                    } else {
                        FileProbe { args, stage: Stage::Passed(facts.len) }
                    },
                },
            },
            other => FileProbe { args, stage: other },
        }
    }

    /// Goes on with what has been read.
    fn go_on(args: &'a FileArgs, len: u64, reader: FileReader) -> (r: FileProbe<'a>)
        requires
            reader.wf(),
            reader.needles() == text_match::utf8_needles(args.contains@),
            reader.limit() == args.max_read,
        ensures
            r.wf(),
            r.args() == *args,
            r.stage() == read_on(*args, len, reader@),
    {
        if !reader.is_done() {
            return FileProbe { args, stage: Stage::Reading(len, reader) };
        }
        match reader.assert_contents(args) {
            Ok(_) => FileProbe { args, stage: Stage::Passed(len) },
            Err(e) => FileProbe { args, stage: Stage::Failed(e) },
        }
    }

    /// The file has been opened, or could not be.
    pub fn on_opened(self, opened: core::result::Result<(), FileFault>) -> (r: FileProbe<'a>)
        requires
            self.wf(),
        ensures
            r.wf(),
            r.args() == self.args(),
            r.stage() == match self.stage() {
                FileStage::Opening(len) => after_opening(self.args(), len, opened),
                other => other,
            },
            r.stage() == next_stage(self.args(), self.stage(), FileEvent::Opened(opened)),
    {
        let args = self.args;
        match self.stage {
            Stage::Opening(len) => match opened {
                Err(fault) => FileProbe {
                    args,
                    stage: Stage::Failed(file_error(&args.path, &fault)),
                },
                Ok(_) => if needs_contents(args) {
                    Self::go_on(args, len, FileReader::new(args))
                } else {
                    FileProbe { args, stage: Stage::Passed(len) }
                },
            },
            other => FileProbe { args, stage: other },
        }
    }

    /// More of the file has been read.
    pub fn on_data(self, chunk: &[u8]) -> (r: FileProbe<'a>)
        requires
            self.wf(),
        ensures
            r.wf(),
            r.args() == self.args(),
            r.stage() == match self.stage() {
                FileStage::Reading(len, view) => read_on(
                    self.args(),
                    len,
                    FileView {
                        capture: view.capture.append(chunk@, self.args().max_read as int),
                        ended: view.ended,
                    },
                ),
                other => other,
            },
            r.stage() == next_stage(self.args(), self.stage(), FileEvent::Data(chunk@)),
    {
        match self.stage {
            Stage::Reading(len, reader) => {
                let mut reader = reader;
                reader.on_data(chunk);
                Self::go_on(self.args, len, reader)
            },
            other => FileProbe { args: self.args, stage: other },
        }
    }

    /// The end of the file has been seen.
    pub fn on_end(self) -> (r: FileProbe<'a>)
        requires
            self.wf(),
        ensures
            r.wf(),
            r.args() == self.args(),
            r.stage() == match self.stage() {
                FileStage::Reading(len, view) => read_on(
                    self.args(),
                    len,
                    FileView { capture: view.capture, ended: true },
                ),
                other => other,
            },
            r.stage() == next_stage(self.args(), self.stage(), FileEvent::End),
    {
        match self.stage {
            Stage::Reading(len, reader) => {
                let mut reader = reader;
                reader.on_end();
                Self::go_on(self.args, len, reader)
            },
            other => FileProbe { args: self.args, stage: other },
        }
    }

    /// The file cannot be read any further.
    pub fn on_read_error(self, reason: String) -> (r: FileProbe<'a>)
        requires
            self.wf(),
        ensures
            r.wf(),
            r.args() == self.args(),
            r.stage() == match self.stage() {
                FileStage::Reading(_, _) => FileStage::Failed(
                    ErrorView::Failure(
                        file_fault_message(self.args().path@, FileFault::Read(reason)),
                    ),
                ),
                other => other,
            },
            r.stage() == next_stage(self.args(), self.stage(), FileEvent::ReadError(reason)),
    {
        match self.stage {
            Stage::Reading(_, _) => FileProbe {
                args: self.args,
                stage: Stage::Failed(file_error(&self.args.path, &FileFault::Read(reason))),
            },
            other => FileProbe { args: self.args, stage: other },
        }
    }

    /// The verdict.
    pub fn finish(self, elapsed: Span, options: ProbeOptions) -> (r: Result<ProbeReport>)
        requires
            self.stage().is_final(),
        ensures
            match self.stage() {
                FileStage::Passed(len) => r matches Ok(report) && is_report(
                    report,
                    self.args(),
                    len,
                    elapsed,
                    options,
                ),
                FileStage::Failed(e) => error::fault(r) == Some(e),
                _ => true,
            },
    {
        match self.stage {
            Stage::Failed(e) => Err(e),
            Stage::Passed(len) => Ok(report(self.args, len, elapsed, options)),
            _ => vstd::pervasive::unreached(),
        }
    }
}

/// Whether `report` tells of a file that is as it should be.
pub open spec fn is_report(
    report: ProbeReport,
    args: FileArgs,
    len: u64,
    elapsed: Span,
    options: ProbeOptions,
) -> bool {
    &&& report.mode@ == "file"@
    &&& report.target@ == diagnostic::field_os(args.path@)
    &&& report.detail matches Some(detail) && detail@ == "size="@ + number::digits(len as nat)
        + "B"@
    &&& report.elapsed == elapsed
    &&& report.options == options
}

/// A file of which something is known goes on only if it is a regular file of a wanted size and
/// age.
pub proof fn lemma_inspected_file(args: FileArgs, facts: FileFacts)
    requires
        !(after_facts(args, Ok(facts)) is Failed),
    ensures
        facts.is_file,
        args.min_size matches Some(min) ==> min <= facts.len,
        args.max_size matches Some(max) ==> facts.len <= max,
        args.non_empty ==> facts.len > 0,
        args.max_age matches Some(max_age) ==> (facts.modified matches Modified::Ago(age) && age@
            <= max_age@),
{
}

/// A file that is as it should be.
pub fn report(args: &FileArgs, len: u64, elapsed: Span, options: ProbeOptions) -> (r: ProbeReport)
    ensures
        is_report(r, *args, len, elapsed, options),
{
    let mut detail = "size=".to_owned();
    detail.append(number::decimal(len as u128).as_str());
    detail.append("B");
    ProbeReport::new("file", diagnostic::path_field(&args.path), Some(detail), elapsed, options)
}

} // verus!
