//! The arguments of the command line once they have been parsed.

use crate::error;
use crate::error::{AppError, Result};
use crate::os_text::OsText;
use crate::text;
use crate::timing;
use crate::timing::{Part, Span};
use vstd::prelude::*;

verus! {

/// The whole command line.
#[derive(Debug)]
pub struct Cli {
    /// Hard deadline for one probe.
    pub timeout: Span,
    /// Fail if a successful probe takes longer than this.
    pub max_latency: Option<Span>,
    /// Suppress output.
    pub quiet: bool,
    /// Print structured success output.
    pub verbose: bool,
    /// The probe to run.
    pub command: Command,
}

/// The probe to run.
#[derive(Debug)]
pub enum Command {
    Http(Box<HttpArgs>),
    Tcp(TcpArgs),
    Grpc(GrpcArgs),
    Exec(ExecArgs),
    File(FileArgs),
}

/// The arguments of the HTTP probe.
#[derive(Debug)]
pub struct HttpArgs {
    /// HTTP or HTTPS endpoint URL to probe.
    pub url: Option<String>,
    /// Unix socket path for HTTP over a Unix socket.
    pub sock: Option<OsText>,
    /// Request path when using a Unix socket.
    pub path: Option<String>,
    /// HTTP method to send.
    pub method: String,
    /// Request headers to send.
    pub header: Vec<String>,
    /// Override of the request Host header.
    pub host: Option<String>,
    /// Accepted status codes or inclusive ranges.
    pub status: Vec<String>,
    /// Response headers that must exist.
    pub header_present: Vec<String>,
    /// Response headers whose value must equal a text.
    pub header_equals: Vec<String>,
    /// Response headers whose value must contain a text.
    pub header_contains: Vec<String>,
    /// Response headers whose value must not contain a text.
    pub header_not_contains: Vec<String>,
    /// The text that the response body must equal.
    pub body_equals: Option<String>,
    /// Texts that the response body must contain.
    pub contains: Vec<String>,
    /// Texts that the response body must not contain.
    pub not_contains: Vec<String>,
    /// The TLS options.
    pub tls: TlsArgs,
    /// Maximum response body bytes to read.
    pub max_body: usize,
}

/// The arguments of the TCP probe.
#[derive(Debug)]
pub struct TcpArgs {
    /// TCP address to connect to.
    pub addr: String,
}

/// The arguments of the gRPC probe.
#[derive(Debug)]
pub struct GrpcArgs {
    /// gRPC server address.
    pub addr: String,
    /// gRPC health service name.
    pub service: Option<String>,
    /// Use TLS for the connection.
    pub tls: bool,
    /// HTTP/2 authority value to send.
    pub authority: Option<String>,
    /// The TLS options.
    pub tls_args: TlsArgs,
}

/// The arguments of the exec probe.
#[derive(Debug)]
pub struct ExecArgs {
    /// Accepted process exit codes.
    pub exit_code: Vec<i32>,
    /// Texts that the standard output must contain.
    pub stdout_contains: Vec<String>,
    /// Texts that the standard error must contain.
    pub stderr_contains: Vec<String>,
    /// Maximum bytes of either stream to keep.
    pub max_output: usize,
    /// The command and its arguments.
    pub command: Vec<OsText>,
}

/// The arguments of the file probe.
#[derive(Debug)]
pub struct FileArgs {
    /// File path to inspect.
    pub path: OsText,
    /// Require the file to be readable.
    pub readable: bool,
    /// Require the file to be non-empty.
    pub non_empty: bool,
    /// Texts that the file must contain.
    pub contains: Vec<String>,
    /// Require the file to be at least this many bytes long.
    pub min_size: Option<u64>,
    /// Require the file to be at most this many bytes long.
    pub max_size: Option<u64>,
    /// Require the file to have been modified at most this long ago.
    pub max_age: Option<Span>,
    /// Maximum file bytes to read for content assertions.
    pub max_read: usize,
}

/// The TLS options.
#[derive(Debug)]
pub struct TlsArgs {
    /// Additional PEM CA certificate bundle to trust.
    pub ca: Option<OsText>,
    /// Client certificate PEM file for mTLS.
    pub cert: Option<OsText>,
    /// Client private key PEM file for mTLS.
    pub key: Option<OsText>,
    /// TLS server name override for SNI and certificate verification.
    pub server_name: Option<String>,
    /// Skip TLS certificate and hostname verification.
    pub insecure_skip_verify: bool,
}

impl Default for TlsArgs {
    fn default() -> (r: TlsArgs)
        ensures
            r.ca is None && r.cert is None && r.key is None && r.server_name is None,
            !r.insecure_skip_verify,
    {
        TlsArgs { ca: None, cert: None, key: None, server_name: None, insecure_skip_verify: false }
    }
}

/// The nanoseconds of a duration, with or without whitespace around it: none where the text is no
/// duration, or one that is longer than the longest span.
pub open spec fn duration_of(raw: Seq<char>) -> Option<nat> {
    let trimmed = text::trim_spec(raw);
    if timing::parts_sum(trimmed, 0, Part::Number) <= timing::longest() {
        timing::duration_value(trimmed)
    } else {
        None
    }
}

/// The span of time that a read duration stands for, or the error for a text that is none.
pub fn accept_duration(raw: &str, read: Option<Span>) -> (r: Result<Span>)
    ensures
        match read {
            Some(span) => r == core::result::Result::<Span, AppError>::Ok(span),
            None => error::fault(r) == error::config_fault("invalid duration: "@ + raw@),
        },
{
    match read {
        Some(span) => Ok(span),
        None => {
            let mut message = "invalid duration: ".to_owned();
            message.append(raw);
            Err(AppError::invalid_config(message))
        },
    }
}

/// The span of time that a text such as `1h 30m` writes, with or without whitespace around it.
pub fn parse_duration(raw: &str) -> (r: Result<Span>)
    ensures
        match duration_of(raw@) {
            Some(nanos) => r matches Ok(span) && span@ == nanos,
            None => error::fault(r) == error::config_fault("invalid duration: "@ + raw@),
        },
{
    let trimmed = text::trim(raw);
    let read = if timing::duration_fits(trimmed) {
        timing::read_duration(trimmed)
    } else {
        None
    };
    accept_duration(raw, read)
}

} // verus!
