//! What every probe is told and what it reports.

use crate::cli::Cli;
use crate::error;
use crate::error::{AppError, ErrorView, Exit, Result};
use crate::output;
use crate::timing;
use crate::timing::Span;
use crate::validation;
use vstd::prelude::*;

verus! {

/// The options that all probes share.
#[derive(Clone, Copy, Debug)]
pub struct ProbeOptions {
    pub timeout: Span,
    pub quiet: bool,
    pub verbose: bool,
    pub max_latency: Option<Span>,
}

impl ProbeOptions {
    /// The shared options of a command line.
    pub fn from_cli(cli: &Cli) -> (r: ProbeOptions)
        ensures
            r.timeout == cli.timeout,
            r.quiet == cli.quiet,
            r.verbose == cli.verbose,
            r.max_latency == cli.max_latency,
    {
        ProbeOptions {
            timeout: cli.timeout,
            quiet: cli.quiet,
            verbose: cli.verbose,
            max_latency: cli.max_latency,
        }
    }

    /// The error of the spans of time: a timeout of zero, then one whose end the clock cannot
    /// tell, then a latency limit of zero.
    pub open spec fn fault(self, has_deadline: bool) -> Option<ErrorView> {
        error::first_fault(
            validation::duration_fault("--timeout"@, self.timeout@),
            if !has_deadline {
                error::config_fault("--timeout is too large"@)
            } else {
                match self.max_latency {
                    Some(limit) => validation::duration_fault("--max-latency"@, limit@),
                    None => None,
                }
            },
        )
    }

    /// The timeout and the latency limit must not be zero, and the clock must be able to tell when
    /// the timeout ends.
    pub fn validate(&self, has_deadline: bool) -> (r: Result<()>)
        ensures
            error::fault(r) == self.fault(has_deadline),
    {
        validation::validate_positive_duration("--timeout", self.timeout)?;
        if !has_deadline {
            return Err(deadline_error());
        }
        if let Some(max_latency) = self.max_latency {
            validation::validate_positive_duration("--max-latency", max_latency)?;
        }
        Ok(())
    }
}

/// A healthy target.
#[derive(Debug)]
pub struct ProbeReport {
    /// The kind of probe.
    pub mode: &'static str,
    /// What was probed.
    pub target: String,
    /// What was found, in short.
    pub detail: Option<String>,
    /// How long it took.
    pub elapsed: Span,
    /// The options of the probe.
    pub options: ProbeOptions,
}

/// The characters of an optional text.
pub open spec fn detail_view(detail: Option<String>) -> Option<Seq<char>> {
    match detail {
        Some(detail) => Some(detail@),
        None => None,
    }
}

impl ProbeReport {
    /// The error of a probe that took longer than its limit.
    pub open spec fn latency_fault(self) -> Option<ErrorView> {
        match self.options.max_latency {
            Some(limit) if self.elapsed@ > limit@ => error::failure_fault(
                self.mode@ + " probe to "@ + self.target@ + " exceeded --max-latency "@
                    + timing::duration_text(limit@) + " (observed "@ + timing::duration_text(
                    self.elapsed@,
                ) + ")"@,
            ),
            _ => None,
        }
    }

    /// The line that reports the target as healthy.
    pub open spec fn line(self) -> Seq<char> {
        output::success_line(
            self.mode@,
            self.target@,
            self.elapsed@ / 1_000_000,
            detail_view(self.detail),
        )
    }

    /// A healthy target that was found so after `elapsed`.
    pub fn new(
        mode: &'static str,
        target: String,
        detail: Option<String>,
        elapsed: Span,
        options: ProbeOptions,
    ) -> (r: ProbeReport)
        ensures
            r == (ProbeReport { mode, target, detail, elapsed, options }),
    {
        ProbeReport { mode, target, detail, elapsed, options }
    }

    /// The report itself, unless the probe took longer than its limit.
    pub fn enforce_max_latency(self) -> (r: Result<ProbeReport>)
        ensures
            error::fault(r) == self.latency_fault(),
            r matches Ok(report) ==> report == self,
    {
        if let Some(limit) = self.options.max_latency {
            if self.elapsed.exceeds(limit) {
                let mut message = self.mode.to_owned();
                message.append(" probe to ");
                message.append(self.target.as_str());
                message.append(" exceeded --max-latency ");
                message.append(timing::format_duration(limit).as_str());
                message.append(" (observed ");
                message.append(timing::format_duration(self.elapsed).as_str());
                message.append(")");
                return Err(AppError::failure(message));
            }
        }
        Ok(self)
    }

    /// How the process ends on a healthy target.
    pub fn print_and_exit_code(self) -> (r: Exit)
        ensures
            r.code == 0,
            r.line is Some <==> self.options.verbose && !self.options.quiet,
            r.line matches Some(line) ==> line@ == self.line(),
    {
        let quiet = self.options.quiet;
        self.print_and_exit_code_with_quiet(quiet)
    }

    /// How the process ends on a healthy target: with code 0, and with a line only where output
    /// was asked for and silence was not.
    pub fn print_and_exit_code_with_quiet(self, quiet: bool) -> (r: Exit)
        ensures
            r.code == 0,
            r.line is Some <==> self.options.verbose && !quiet,
            r.line matches Some(line) ==> line@ == self.line(),
    {
        let line = if self.options.verbose && !quiet {
            let detail = match &self.detail {
                Some(detail) => Some(detail.as_str()),
                None => None,
            };
            Some(
                output::format_success(
                    self.mode,
                    self.target.as_str(),
                    self.elapsed.as_millis(),
                    detail,
                ),
            )
        } else {
            None
        };
        Exit { code: 0, line }
    }
}

/// The message of a probe that ran out of time.
pub open spec fn timeout_message(label: Seq<char>, nanos: nat) -> Seq<char> {
    label + " probe timed out after "@ + timing::duration_text(nanos)
}

/// The error of a probe that ran out of time.
pub fn timeout_error(label: &str, timeout: Span) -> (r: AppError)
    ensures
        r@ == ErrorView::Failure(timeout_message(label@, timeout@)),
{
    let mut message = label.to_owned();
    message.append(" probe timed out after ");
    message.append(timing::format_duration(timeout).as_str());
    AppError::failure(message)
}

/// The error of a timeout so long that the deadline lies beyond what the clock can tell.
pub fn deadline_error() -> (r: AppError)
    ensures
        r@ == ErrorView::InvalidConfig("--timeout is too large"@),
{
    AppError::invalid_config("--timeout is too large".to_owned())
}

/// What is wrong with what a probe found: an error, or a target that answered too slowly.
pub open spec fn result_fault(result: Result<ProbeReport>) -> Option<ErrorView> {
    match result {
        Err(e) => Some(e@),
        Ok(report) => report.latency_fault(),
    }
}

/// The code that the process ends with.
pub open spec fn exit_code_of(result: Result<ProbeReport>) -> int {
    match result_fault(result) {
        Some(e) => e.code(),
        None => 0,
    }
}

/// The line that the process ends with, where it prints one.
pub open spec fn exit_line_of(result: Result<ProbeReport>, quiet: bool) -> Option<Seq<char>> {
    match result_fault(result) {
        Some(e) => if quiet {
            None
        } else {
            Some(e.message())
        },
        None => {
            let report = result->Ok_0;
            if report.options.verbose && !report.options.quiet {
                Some(report.line())
            } else {
                None
            }
        },
    }
}

/// How the process ends on what a probe found: an error, a target that answered too slowly, or a
/// healthy target.
pub fn finish(result: Result<ProbeReport>, quiet: bool) -> (r: Exit)
    ensures
        r.code == exit_code_of(result),
        match r.line {
            Some(line) => exit_line_of(result, quiet) == Some(line@),
            None => exit_line_of(result, quiet) is None,
        },
{
    match result {
        Ok(report) => match report.enforce_max_latency() {
            Ok(report) => report.print_and_exit_code(),
            Err(e) => e.print_and_exit_code_with_quiet(quiet),
        },
        Err(e) => e.print_and_exit_code_with_quiet(quiet),
    }
}

/// A probe fails for its latency exactly when it has a limit and took longer; taking exactly as
/// long as the limit is healthy.
pub proof fn lemma_latency_limit(report: ProbeReport)
    ensures
        report.latency_fault() is Some <==> (report.options.max_latency matches Some(limit)
            && report.elapsed@ > limit@),
        report.latency_fault() matches Some(e) ==> e is Failure && e.code() == 1,
{
}

/// The process ends with code 0 exactly on a healthy target that answered in time, else with 1, 3
/// or 4. A failure is reported unless silence is asked for, a healthy target only where output is
/// asked for, and silence leaves nothing to print and the code as it is.
pub proof fn lemma_exit(result: Result<ProbeReport>, quiet: bool)
    ensures
        exit_code_of(result) == 0 <==> result_fault(result) is None,
        exit_code_of(result) == 0 || exit_code_of(result) == 1 || exit_code_of(result) == 3
            || exit_code_of(result) == 4,
        exit_code_of(result) != 0 ==> (exit_line_of(result, quiet) is Some <==> !quiet),
        exit_code_of(result) == 0 ==> (exit_line_of(result, quiet) is Some
            <==> result->Ok_0.options.verbose && !result->Ok_0.options.quiet),
{
}

} // verus!
