//! The HTTP probe: what is asked of the server and what its answer must be.

use crate::authority;
use crate::authority::{PortPolicy, RawFormat};
use crate::capture::CaptureView;
use crate::cli::{HttpArgs, TlsArgs};
use crate::diagnostic;
use crate::error;
use crate::error::{AppError, ErrorView, Result};
use crate::headers;
use crate::number;
use crate::os_text;
use crate::os_text::OsText;
use crate::probe::{ProbeOptions, ProbeReport};
use crate::probes::http_body;
use crate::probes::http_body::{BodyReader, BodySize, BodyView};
use crate::text;
use crate::text_match;
use crate::timing::Span;
use crate::tls;
use crate::tls::BundledRoots;
use crate::url_text;
use crate::url_text::{ParsedUrl, UrlView};
use crate::validation;
use hyper::header::HeaderValue;
use hyper::HeaderMap;
use vstd::prelude::*;
use vstd::utf8;

verus! {

/// What a request calls itself where no other name is given.
pub const USER_AGENT_VALUE: &'static str = "salus/0.1.0";

/// The methods that a probe can send.
#[derive(Clone, Copy, Debug, PartialEq, Eq, Structural)]
pub enum Method {
    Get,
    Head,
}

/// A header of the request.
#[derive(Debug)]
pub struct RequestHeader {
    /// Its name in lower case.
    pub name: String,
    pub value: String,
}

/// A text that a header of the response is held against.
#[derive(Debug)]
pub struct HeaderAssertion {
    /// The name of the header in lower case.
    pub name: String,
    pub value: String,
}

/// What the headers of the response are held against.
#[derive(Debug)]
pub struct HeaderAssertions {
    pub present: Vec<String>,
    pub equals: Vec<HeaderAssertion>,
    pub contains: Vec<HeaderAssertion>,
    pub not_contains: Vec<HeaderAssertion>,
}

/// Status codes from one to another, both included.
#[derive(Clone, Copy, Debug)]
pub struct StatusRange {
    pub start: u16,
    pub end: u16,
}

/// The accepted status codes.
#[derive(Debug)]
pub struct StatusRanges {
    pub ranges: Vec<StatusRange>,
}

/// The arguments of the probe once they have been read.
#[derive(Debug)]
pub struct PreparedHttpArgs {
    pub method: Method,
    pub headers: Vec<RequestHeader>,
    pub header_assertions: HeaderAssertions,
    pub status_ranges: StatusRanges,
}

/// A server that is reached by its URL.
#[derive(Debug)]
pub struct UrlTarget {
    /// The URL as it was given.
    pub label: String,
    /// Where to connect to: the URL in its normal form.
    pub endpoint: String,
    /// What the request asks for.
    pub request_uri: String,
    /// The value of the Host header.
    pub host: String,
    pub uses_tls: bool,
}

/// A server that is reached through a Unix socket.
#[derive(Debug)]
pub struct UnixTarget {
    /// The socket and the path in one.
    pub label: String,
    /// The socket.
    pub sock: OsText,
    /// The value of the Host header.
    pub host: String,
    /// The path of the request.
    pub path: String,
}

/// What is probed.
#[derive(Debug)]
pub enum HttpTarget {
    Url(UrlTarget),
    Unix(UnixTarget),
}

/// A probe that is ready to run.
#[derive(Debug)]
pub struct HttpPlan {
    pub prepared: PreparedHttpArgs,
    pub target: HttpTarget,
}

// Methods.

/// The method that a text names, in any case and with whitespace around it.
pub open spec fn method_of(raw: Seq<char>) -> Option<Method> {
    let name = text::upper_text(text::trim_spec(raw));
    if name == "GET"@ {
        Some(Method::Get)
    } else if name == "HEAD"@ {
        Some(Method::Head)
    } else {
        None
    }
}

/// The error of a text that names no method.
pub open spec fn method_fault(raw: Seq<char>) -> Option<ErrorView> {
    if method_of(raw) is Some {
        None
    } else {
        error::config_fault(
            "unsupported HTTP method "@ + diagnostic::shown(text::upper_text(text::trim_spec(raw)))
                + ", expected GET or HEAD"@,
        )
    }
}

/// The method that a text names.
pub fn parse_method(raw: &str) -> (r: Result<Method>)
    ensures
        error::fault(r) == method_fault(raw@),
        r matches Ok(method) ==> method_of(raw@) == Some(method),
{
    let name = text::to_upper(text::trim(raw));
    if text::same(name.as_str(), "GET") {
        return Ok(Method::Get);
    }
    if text::same(name.as_str(), "HEAD") {
        proof {
            reveal_strlit("GET");
            reveal_strlit("HEAD");
            assert("GET"@.len() != "HEAD"@.len());
        }
        return Ok(Method::Head);
    }
    let mut message = "unsupported HTTP method ".to_owned();
    message.append(diagnostic::value(name.as_str()).as_str());
    message.append(", expected GET or HEAD");
    Err(AppError::invalid_config(message))
}

// Headers of the request.

/// A request header: its name in lower case and its value.
pub open spec fn request_header(raw: Seq<char>) -> (Seq<char>, Seq<char>) {
    let (name, value) = text::split_once(raw, ':')->0;
    (text::lower_text(text::trim_spec(name)), text::trim_spec(value))
}

/// Whether a header frames the message.
pub open spec fn is_framing(name: Seq<char>) -> bool {
    name == "content-length"@ || name == "transfer-encoding"@
}

/// Whether a header speaks of the connection rather than of the request.
pub open spec fn is_hop_by_hop(name: Seq<char>) -> bool {
    name == "connection"@ || name == "proxy-connection"@
}

/// The error of a text that names no header.
pub open spec fn name_fault(shown: Seq<char>, name: Seq<char>) -> Option<ErrorView> {
    if headers::is_header_name(name) {
        None
    } else {
        error::config_fault(
            "invalid header name "@ + diagnostic::debug_text(shown) + ": "@
                + "invalid HTTP header name"@,
        )
    }
}

/// The error of a request header.
pub open spec fn header_fault(raw: Seq<char>) -> Option<ErrorView> {
    match text::split_once(raw, ':') {
        None => error::config_fault(
            "invalid header "@ + diagnostic::debug_text(raw) + ", expected name:value"@,
        ),
        Some((shown, _)) => {
            let (name, value) = request_header(raw);
            if name_fault(shown, text::trim_spec(shown)) is Some {
                name_fault(shown, text::trim_spec(shown))
            } else if name == "host"@ {
                error::config_fault("--header cannot set Host; use --host instead"@)
            } else if is_framing(name) {
                error::config_fault("--header cannot set HTTP framing header "@ + name)
            } else if is_hop_by_hop(name) {
                error::config_fault("--header cannot set HTTP hop-by-hop header "@ + name)
            } else if !headers::is_header_value(value) {
                error::config_fault(
                    "invalid header value for "@ + name + ": "@ + "failed to parse header value"@,
                )
            } else {
                None
            }
        },
    }
}

/// [`header_fault`] as a check of a list.
pub open spec fn header_check() -> spec_fn(String) -> Option<ErrorView> {
    |raw: String| header_fault(raw@)
}

/// The name in lower case, or the error for it.
fn header_name(shown: &str, raw: &str) -> (r: Result<String>)
    ensures
        error::fault(r) == name_fault(shown@, raw@),
        r matches Ok(name) ==> name@ == text::lower_text(raw@),
{
    match headers::parse_name(raw) {
        Ok(name) => Ok(name),
        Err(reason) => {
            let mut message = "invalid header name ".to_owned();
            message.append(diagnostic::debug(shown).as_str());
            message.append(": ");
            message.append(reason.as_str());
            Err(AppError::invalid_config(message))
        },
    }
}

/// One request header.
fn parse_header(raw: &str) -> (r: Result<RequestHeader>)
    ensures
        error::fault(r) == header_fault(raw@),
        r matches Ok(header) ==> (header.name@, header.value@) == request_header(raw@),
{
    match text::split_once_char(raw, ':') {
        None => {
            let mut message = "invalid header ".to_owned();
            message.append(diagnostic::debug(raw).as_str());
            message.append(", expected name:value");
            Err(AppError::invalid_config(message))
        },
        Some((shown, value)) => {
            let name = header_name(shown, text::trim(shown))?;
            let label = name.as_str();
            if text::same(label, "host") {
                return Err(
                    AppError::invalid_config(
                        "--header cannot set Host; use --host instead".to_owned(),
                    ),
                );
            }
            if text::same(label, "content-length") || text::same(label, "transfer-encoding") {
                let mut message = "--header cannot set HTTP framing header ".to_owned();
                message.append(label);
                return Err(AppError::invalid_config(message));
            }
            if text::same(label, "connection") || text::same(label, "proxy-connection") {
                let mut message = "--header cannot set HTTP hop-by-hop header ".to_owned();
                message.append(label);
                return Err(AppError::invalid_config(message));
            }
            let value = text::trim(value);
            if let Err(reason) = headers::check_value(value) {
                let mut message = "invalid header value for ".to_owned();
                message.append(label);
                message.append(": ");
                message.append(reason.as_str());
                return Err(AppError::invalid_config(message));
            }
            Ok(RequestHeader { name, value: value.to_owned() })
        },
    }
}

/// Whether the headers are those that the texts write.
pub open spec fn are_headers(parsed: Seq<RequestHeader>, raw: Seq<String>) -> bool {
    &&& parsed.len() == raw.len()
    &&& forall|i: int|
        0 <= i < raw.len() ==> ((#[trigger] parsed[i]).name@, parsed[i].value@) == request_header(
            raw[i]@,
        )
}

/// The request headers that the texts write, or the first error among them.
pub fn parse_headers(raw_headers: &Vec<String>) -> (r: Result<Vec<RequestHeader>>)
    ensures
        error::fault(r) == error::first_of(raw_headers@, header_check()),
        r matches Ok(parsed) ==> are_headers(parsed@, raw_headers@),
{
    let mut parsed: Vec<RequestHeader> = Vec::new();
    let mut i: usize = 0;
    while i < raw_headers.len()
        invariant
            i <= raw_headers@.len(),
            parsed@.len() == i,
            forall|j: int|
                0 <= j < i ==> (header_check())(#[trigger] raw_headers@[j]) is None,
            forall|j: int|
                0 <= j < i ==> ((#[trigger] parsed@[j]).name@, parsed@[j].value@)
                    == request_header(raw_headers@[j]@),
        decreases raw_headers.len() - i,
    {
        match parse_header(raw_headers[i].as_str()) {
            Ok(header) => {
                parsed.push(header);
            },
            Err(e) => {
                proof {
                    error::lemma_first_of(raw_headers@, header_check(), i as int);
                }
                return Err(e);
            },
        }
        i = i + 1;
    }
    proof {
        error::lemma_first_of(raw_headers@, header_check(), i as int);
    }
    Ok(parsed)
}

// Headers of the response.

/// The error of a header name that must be there.
pub open spec fn present_check() -> spec_fn(String) -> Option<ErrorView> {
    |raw: String| name_fault(raw@, text::trim_spec(raw@))
}

/// Whether the names are those that the texts write.
pub open spec fn are_names(parsed: Seq<String>, raw: Seq<String>) -> bool {
    &&& parsed.len() == raw.len()
    &&& forall|i: int|
        0 <= i < raw.len() ==> (#[trigger] parsed[i])@ == text::lower_text(
            text::trim_spec(raw[i]@),
        )
}

/// The header names that the texts write, or the first error among them.
pub fn parse_header_names(raw_names: &Vec<String>) -> (r: Result<Vec<String>>)
    ensures
        error::fault(r) == error::first_of(raw_names@, present_check()),
        r matches Ok(parsed) ==> are_names(parsed@, raw_names@),
{
    let mut parsed: Vec<String> = Vec::new();
    let mut i: usize = 0;
    while i < raw_names.len()
        invariant
            i <= raw_names@.len(),
            parsed@.len() == i,
            forall|j: int|
                0 <= j < i ==> (present_check())(#[trigger] raw_names@[j]) is None,
            forall|j: int|
                0 <= j < i ==> (#[trigger] parsed@[j])@ == text::lower_text(
                    text::trim_spec(raw_names@[j]@),
                ),
        decreases raw_names.len() - i,
    {
        let raw = raw_names[i].as_str();
        match header_name(raw, text::trim(raw)) {
            Ok(name) => {
                parsed.push(name);
            },
            Err(e) => {
                proof {
                    error::lemma_first_of(raw_names@, present_check(), i as int);
                }
                return Err(e);
            },
        }
        i = i + 1;
    }
    proof {
        error::lemma_first_of(raw_names@, present_check(), i as int);
    }
    Ok(parsed)
}

/// The error of a header assertion.
pub open spec fn assertion_fault(raw: Seq<char>, flag: Seq<char>, allow_empty: bool) -> Option<
    ErrorView,
> {
    match text::split_once(raw, ':') {
        None => error::config_fault(
            "invalid header assertion "@ + diagnostic::debug_text(raw) + ", expected name:value"@,
        ),
        Some((shown, value)) => error::first_fault(
            name_fault(shown, text::trim_spec(shown)),
            if !allow_empty && text::trim_spec(value).len() == 0 {
                error::config_fault(flag + " value must not be empty"@)
            } else {
                None
            },
        ),
    }
}

/// [`assertion_fault`] as a check of a list.
pub open spec fn assertion_check(flag: Seq<char>, allow_empty: bool) -> spec_fn(String) -> Option<
    ErrorView,
> {
    |raw: String| assertion_fault(raw@, flag, allow_empty)
}

/// Whether the assertions are those that the texts write.
pub open spec fn are_assertions(parsed: Seq<HeaderAssertion>, raw: Seq<String>) -> bool {
    &&& parsed.len() == raw.len()
    &&& forall|i: int|
        0 <= i < raw.len() ==> ((#[trigger] parsed[i]).name@, parsed[i].value@) == request_header(
            raw[i]@,
        )
}

/// One header assertion.
fn parse_assertion(raw: &str, flag: &str, allow_empty_value: bool) -> (r: Result<HeaderAssertion>)
    ensures
        error::fault(r) == assertion_fault(raw@, flag@, allow_empty_value),
        r matches Ok(assertion) ==> (assertion.name@, assertion.value@) == request_header(raw@),
{
    match text::split_once_char(raw, ':') {
        None => {
            let mut message = "invalid header assertion ".to_owned();
            message.append(diagnostic::debug(raw).as_str());
            message.append(", expected name:value");
            Err(AppError::invalid_config(message))
        },
        Some((shown, value)) => {
            let name = header_name(shown, text::trim(shown))?;
            let value = text::trim(value);
            if !allow_empty_value && value.is_empty() {
                let mut message = flag.to_owned();
                message.append(" value must not be empty");
                return Err(AppError::invalid_config(message));
            }
            Ok(HeaderAssertion { name, value: value.to_owned() })
        },
    }
}

/// The header assertions that the texts write, or the first error among them.
pub fn parse_header_assertions(
    raw_assertions: &Vec<String>,
    flag: &str,
    allow_empty_value: bool,
) -> (r: Result<Vec<HeaderAssertion>>)
    ensures
        error::fault(r) == error::first_of(
            raw_assertions@,
            assertion_check(flag@, allow_empty_value),
        ),
        r matches Ok(parsed) ==> are_assertions(parsed@, raw_assertions@),
{
    let ghost check = assertion_check(flag@, allow_empty_value);
    let mut parsed: Vec<HeaderAssertion> = Vec::new();
    let mut i: usize = 0;
    while i < raw_assertions.len()
        invariant
            i <= raw_assertions@.len(),
            check == assertion_check(flag@, allow_empty_value),
            parsed@.len() == i,
            forall|j: int| 0 <= j < i ==> check(#[trigger] raw_assertions@[j]) is None,
            forall|j: int|
                0 <= j < i ==> ((#[trigger] parsed@[j]).name@, parsed@[j].value@)
                    == request_header(raw_assertions@[j]@),
        decreases raw_assertions.len() - i,
    {
        match parse_assertion(raw_assertions[i].as_str(), flag, allow_empty_value) {
            Ok(assertion) => {
                parsed.push(assertion);
            },
            Err(e) => {
                proof {
                    error::lemma_first_of(raw_assertions@, check, i as int);
                }
                return Err(e);
            },
        }
        i = i + 1;
    }
    proof {
        error::lemma_first_of(raw_assertions@, check, i as int);
    }
    Ok(parsed)
}

// Status codes.

/// The error of a text that is no status code.
pub open spec fn code_fault(raw: Seq<char>) -> Option<ErrorView> {
    match number::unsigned_value(raw) {
        Some(n) if n <= u16::MAX => if 100 <= n <= 599 {
            None
        } else {
            error::config_fault(
                "invalid status code "@ + number::digits(n) + ", expected 100..=599"@,
            )
        },
        _ => error::config_fault(
            "invalid status code "@ + diagnostic::shown(raw) + ", expected integer"@,
        ),
    }
}

/// The two ends of a range, or the one code that a text writes. A leading hyphen is no range.
pub open spec fn range_parts(raw: Seq<char>) -> (Seq<char>, Option<Seq<char>>) {
    match text::split_once(raw, '-') {
        Some((start, end)) if text::trim_spec(start).len() > 0 => (
            text::trim_spec(start),
            Some(text::trim_spec(end)),
        ),
        _ => (text::trim_spec(raw), None),
    }
}

/// The status codes that a text writes: from one to another.
pub open spec fn range_values(raw: Seq<char>) -> (nat, nat) {
    match range_parts(raw) {
        (start, Some(end)) => (number::unsigned_value(start)->0, number::unsigned_value(end)->0),
        (code, None) => (number::unsigned_value(code)->0, number::unsigned_value(code)->0),
    }
}

/// The error of a text that writes no status codes.
pub open spec fn range_fault(raw: Seq<char>) -> Option<ErrorView> {
    match range_parts(raw) {
        (start, Some(end)) => error::first_fault(
            code_fault(start),
            error::first_fault(
                code_fault(end),
                if range_values(raw).0 > range_values(raw).1 {
                    error::config_fault(
                        "invalid status range "@ + diagnostic::shown(raw)
                            + ", start is greater than end"@,
                    )
                } else {
                    None
                },
            ),
        ),
        (code, None) => code_fault(code),
    }
}

/// [`range_fault`] as a check of a list.
pub open spec fn range_check() -> spec_fn(String) -> Option<ErrorView> {
    |raw: String| range_fault(raw@)
}

impl StatusRange {
    /// Whether a code lies in the range.
    pub open spec fn has(self, code: int) -> bool {
        self.start <= code <= self.end
    }

    /// Whether a code lies in the range.
    pub fn contains(&self, code: u16) -> (r: bool)
        ensures
            r == self.has(code as int),
    {
        self.start <= code && code <= self.end
    }
}

impl StatusRanges {
    /// Whether a code is accepted.
    pub open spec fn accepts(self, code: int) -> bool {
        exists|i: int| 0 <= i < self.ranges@.len() && (#[trigger] self.ranges@[i]).has(code)
    }

    /// Whether a code is accepted.
    pub fn matches(&self, code: u16) -> (r: bool)
        ensures
            r == self.accepts(code as int),
    {
        let mut i: usize = 0;
        while i < self.ranges.len()
            invariant
                i <= self.ranges@.len(),
                forall|j: int| 0 <= j < i ==> !(#[trigger] self.ranges@[j]).has(code as int),
            decreases self.ranges.len() - i,
        {
            if self.ranges[i].contains(code) {
                return true;
            }
            i = i + 1;
        }
        false
    }
}

/// Whether the ranges are those that the texts write: 200 to 299 where there are none.
pub open spec fn are_ranges(parsed: Seq<StatusRange>, raw: Seq<String>) -> bool {
    if raw.len() == 0 {
        parsed.len() == 1 && parsed[0].start == 200 && parsed[0].end == 299
    } else {
        &&& parsed.len() == raw.len()
        &&& forall|i: int|
            0 <= i < raw.len() ==> range_values(raw[i]@) == (
                (#[trigger] parsed[i]).start as nat,
                parsed[i].end as nat,
            )
    }
}

/// A status code from 100 to 599.
pub fn parse_status_code(raw: &str) -> (r: Result<u16>)
    ensures
        error::fault(r) == code_fault(raw@),
        r matches Ok(code) ==> number::unsigned_value(raw@) == Some(code as nat) && 100 <= code
            <= 599,
{
    match number::parse_u16(raw) {
        None => {
            let mut message = "invalid status code ".to_owned();
            message.append(diagnostic::value(raw).as_str());
            message.append(", expected integer");
            Err(AppError::invalid_config(message))
        },
        Some(code) => {
            if code < 100 || code > 599 {
                let mut message = "invalid status code ".to_owned();
                message.append(number::decimal(code as u128).as_str());
                message.append(", expected 100..=599");
                return Err(AppError::invalid_config(message));
            }
            Ok(code)
        },
    }
}

/// The status codes that one text writes.
fn parse_status_range(raw: &str) -> (r: Result<StatusRange>)
    ensures
        error::fault(r) == range_fault(raw@),
        r matches Ok(range) ==> range_values(raw@) == (range.start as nat, range.end as nat),
{
    if let Some((start, end)) = text::split_once_char(raw, '-') {
        let start = text::trim(start);
        if !start.is_empty() {
            let start: u16 = parse_status_code(start)?;
            let end: u16 = parse_status_code(text::trim(end))?;
            if start > end {
                let mut message = "invalid status range ".to_owned();
                message.append(diagnostic::value(raw).as_str());
                message.append(", start is greater than end");
                return Err(AppError::invalid_config(message));
            }
            return Ok(StatusRange { start, end });
        }
    }
    let code: u16 = parse_status_code(text::trim(raw))?;
    Ok(StatusRange { start: code, end: code })
}

/// The accepted status codes that the texts write, 200 to 299 where there are none, or the first
/// error among them.
pub fn parse_status_ranges(raw_ranges: &Vec<String>) -> (r: Result<StatusRanges>)
    ensures
        error::fault(r) == error::first_of(raw_ranges@, range_check()),
        r matches Ok(parsed) ==> are_ranges(parsed.ranges@, raw_ranges@),
{
    let mut ranges: Vec<StatusRange> = Vec::new();
    if raw_ranges.len() == 0 {
        ranges.push(StatusRange { start: 200, end: 299 });
        return Ok(StatusRanges { ranges });
    }
    let mut i: usize = 0;
    while i < raw_ranges.len()
        invariant
            i <= raw_ranges@.len(),
            ranges@.len() == i,
            forall|j: int| 0 <= j < i ==> (range_check())(#[trigger] raw_ranges@[j]) is None,
            forall|j: int|
                0 <= j < i ==> range_values(raw_ranges@[j]@) == (
                    (#[trigger] ranges@[j]).start as nat,
                    ranges@[j].end as nat,
                ),
        decreases raw_ranges.len() - i,
    {
        match parse_status_range(raw_ranges[i].as_str()) {
            Ok(range) => {
                ranges.push(range);
            },
            Err(e) => {
                proof {
                    error::lemma_first_of(raw_ranges@, range_check(), i as int);
                }
                return Err(e);
            },
        }
        i = i + 1;
    }
    proof {
        error::lemma_first_of(raw_ranges@, range_check(), i as int);
    }
    Ok(StatusRanges { ranges })
}

/// A text that writes status codes writes a range from 100 to 599 that is not empty.
pub proof fn lemma_ranges_are_status_codes(raw: Seq<char>)
    requires
        range_fault(raw) is None,
    ensures
        100 <= range_values(raw).0 <= range_values(raw).1 <= 599,
{
}

/// Where no status is asked for, exactly the codes from 200 to 299 are accepted.
pub proof fn lemma_default_status(ranges: StatusRanges, raw: Seq<String>, code: int)
    requires
        raw.len() == 0,
        are_ranges(ranges.ranges@, raw),
    ensures
        ranges.accepts(code) <==> 200 <= code <= 299,
{
    if 200 <= code <= 299 {
        assert(ranges.ranges@[0].has(code));
    }
}

// The arguments as a whole.

/// Whether anything is wanted of the body.
pub open spec fn wants_body(args: HttpArgs) -> bool {
    args.body_equals is Some || args.contains@.len() > 0 || args.not_contains@.len() > 0
}

/// Whether anything is wanted of the body.
pub fn has_body_assertions(args: &HttpArgs) -> (r: bool)
    ensures
        r == wants_body(*args),
{
    args.body_equals.is_some() || args.contains.len() > 0 || args.not_contains.len() > 0
}

/// The error of arguments that do not name one server.
pub open spec fn server_fault(args: HttpArgs) -> Option<ErrorView> {
    if args.url is Some && args.sock is Some {
        error::config_fault("--url and --sock cannot be used together"@)
    } else if args.url is None && args.sock is None {
        error::config_fault("either --url or --sock must be provided"@)
    } else {
        match args.sock {
            Some(sock) => if sock@.len() == 0 {
                validation::empty_fault("--sock"@)
            } else {
                match args.path {
                    None => error::config_fault("--path is required with --sock"@),
                    Some(path) => error::first_fault(
                        url_text::uds_path_fault(path@, url_text::parsed_uri(path@)),
                        if tls::any_option(args.tls) {
                            error::config_fault("TLS flags are not supported with --sock"@)
                        } else {
                            None
                        },
                    ),
                }
            },
            None => if args.path is Some {
                error::config_fault("--path may only be used with --sock"@)
            } else {
                None
            },
        }
    }
}

/// The error of assertions on the body.
pub open spec fn body_args_fault(args: HttpArgs) -> Option<ErrorView> {
    error::first_fault(
        validation::capture_limit_fault(
            "--max-body"@,
            args.max_body as int,
            "body assertions"@,
            wants_body(args),
        ),
        error::first_fault(
            validation::values_fault("--contains"@, args.contains@),
            error::first_fault(
                validation::values_fault("--not-contains"@, args.not_contains@),
                error::first_fault(
                    method_fault(args.method@),
                    if method_of(args.method@) == Some(Method::Head) && wants_body(args) {
                        error::config_fault(
                            "HTTP body assertions are not supported with HEAD requests"@,
                        )
                    } else {
                        None
                    },
                ),
            ),
        ),
    )
}

/// The arguments must name one server, and assertions on the body must be ones that can be made.
pub fn validate_http_args(args: &HttpArgs) -> (r: Result<()>)
    ensures
        error::fault(r) == error::first_fault(server_fault(*args), body_args_fault(*args)),
{
    if args.url.is_some() && args.sock.is_some() {
        return Err(
            AppError::invalid_config("--url and --sock cannot be used together".to_owned()),
        );
    }
    if args.url.is_none() && args.sock.is_none() {
        return Err(AppError::invalid_config("either --url or --sock must be provided".to_owned()));
    }
    match &args.sock {
        Some(sock) => {
            validation::validate_non_empty_path("--sock", sock)?;
            match &args.path {
                None => {
                    return Err(
                        AppError::invalid_config("--path is required with --sock".to_owned()),
                    );
                },
                Some(path) => {
                    url_text::validate_uds_path(path.as_str())?;
                },
            }
            if tls::has_tls_flags(&args.tls) {
                return Err(
                    AppError::invalid_config("TLS flags are not supported with --sock".to_owned()),
                );
            }
        },
        None => {
            if args.path.is_some() {
                return Err(
                    AppError::invalid_config("--path may only be used with --sock".to_owned()),
                );
            }
        },
    }
    validation::validate_capture_limit(
        "--max-body",
        args.max_body,
        "body assertions",
        has_body_assertions(args),
    )?;
    validation::validate_non_empty_values("--contains", args.contains.as_slice())?;
    validation::validate_non_empty_values("--not-contains", args.not_contains.as_slice())?;
    match parse_method(args.method.as_str()) {
        Err(e) => Err(e),
        Ok(method) => {
            if method == Method::Head && has_body_assertions(args) {
                return Err(
                    AppError::invalid_config(
                        "HTTP body assertions are not supported with HEAD requests".to_owned(),
                    ),
                );
            }
            Ok(())
        },
    }
}

/// The error of what is read from the arguments, in the order of the fields.
pub open spec fn prepared_fault(args: HttpArgs) -> Option<ErrorView> {
    error::first_fault(
        method_fault(args.method@),
        error::first_fault(
            error::first_of(args.header@, header_check()),
            error::first_fault(
                error::first_of(args.header_present@, present_check()),
                error::first_fault(
                    error::first_of(
                        args.header_equals@,
                        assertion_check("--header-equals"@, true),
                    ),
                    error::first_fault(
                        error::first_of(
                            args.header_contains@,
                            assertion_check("--header-contains"@, false),
                        ),
                        error::first_fault(
                            error::first_of(
                                args.header_not_contains@,
                                assertion_check("--header-not-contains"@, false),
                            ),
                            error::first_of(args.status@, range_check()),
                        ),
                    ),
                ),
            ),
        ),
    )
}

/// Whether `prepared` is what the arguments write.
pub open spec fn is_prepared(prepared: PreparedHttpArgs, args: HttpArgs) -> bool {
    &&& method_of(args.method@) == Some(prepared.method)
    &&& are_headers(prepared.headers@, args.header@)
    &&& are_names(prepared.header_assertions.present@, args.header_present@)
    &&& are_assertions(prepared.header_assertions.equals@, args.header_equals@)
    &&& are_assertions(prepared.header_assertions.contains@, args.header_contains@)
    &&& are_assertions(prepared.header_assertions.not_contains@, args.header_not_contains@)
    &&& are_ranges(prepared.status_ranges.ranges@, args.status@)
}

impl PreparedHttpArgs {
    /// The arguments, read.
    pub fn from_args(args: &HttpArgs) -> (r: Result<PreparedHttpArgs>)
        ensures
            error::fault(r) == prepared_fault(*args),
            r matches Ok(prepared) ==> is_prepared(prepared, *args),
    {
        let method = parse_method(args.method.as_str())?;
        let headers = parse_headers(&args.header)?;
        let present = parse_header_names(&args.header_present)?;
        let equals = parse_header_assertions(&args.header_equals, "--header-equals", true)?;
        let contains = parse_header_assertions(
            &args.header_contains,
            "--header-contains",
            false,
        )?;
        let not_contains = parse_header_assertions(
            &args.header_not_contains,
            "--header-not-contains",
            false,
        )?;
        let status_ranges = parse_status_ranges(&args.status)?;
        Ok(
            PreparedHttpArgs {
                method,
                headers,
                header_assertions: HeaderAssertions { present, equals, contains, not_contains },
                status_ranges,
            },
        )
    }
}

// The server.

/// The error of a Host header.
pub open spec fn host_fault(host: Seq<char>) -> Option<ErrorView> {
    authority::authority_fault(
        host,
        "Host header"@,
        PortPolicy::Optional,
        RawFormat::Debug,
        authority::parsed_authority(host),
    )
}

/// The error of a Host header that is given on the command line.
pub open spec fn override_fault(raw: Seq<char>) -> Option<ErrorView> {
    if text::trim_spec(raw).len() == 0 {
        validation::empty_fault("--host"@)
    } else {
        host_fault(text::trim_spec(raw))
    }
}

/// The Host header that a URL stands for: its host, with the port where it is not the usual one.
pub open spec fn host_of(url: UrlView) -> Seq<char> {
    let host = url.host->0;
    match url.port {
        Some(port) if !(url.scheme == "http"@ && port == 80) && !(url.scheme == "https"@ && port
            == 443) => host + ":"@ + number::digits(port as nat),
        _ => host,
    }
}

/// A Host header is one that can be sent: an accepted authority can be the value of a header.
pub proof fn lemma_host_is_header_value(
    host: Seq<char>,
    policy: PortPolicy,
    parsed: core::result::Result<Seq<char>, Seq<char>>,
)
    requires
        authority::authority_reason(host, policy, parsed) is None,
    ensures
        headers::is_header_value(host),
{
    authority::lemma_accepted_authority(host, policy, parsed);
    assert forall|i: int| 0 <= i < host.len() implies #[trigger] host[i] == '\t' || (host[i] >= ' '
        && host[i] != '\u{7f}') by {
        assert(!authority::is_refused(host[i]));
    }
}

/// The Host header that is given on the command line, without the whitespace around it.
pub fn explicit_host_header(raw: &str) -> (r: Result<String>)
    ensures
        error::fault(r) == override_fault(raw@),
        r matches Ok(host) ==> host@ == text::trim_spec(raw@),
{
    let host = text::trim(raw);
    validation::validate_non_empty_str("--host", host)?;
    validate_host_header(host)?;
    Ok(host.to_owned())
}

/// A Host header must be a host with an optional port.
fn validate_host_header(host: &str) -> (r: Result<()>)
    ensures
        error::fault(r) == host_fault(host@),
{
    match authority::validate_authority(
        host,
        "Host header",
        PortPolicy::Optional,
        RawFormat::Debug,
    ) {
        Ok(_) => Ok(()),
        Err(e) => Err(e),
    }
}

/// The error of the Host header of a request by URL.
pub open spec fn url_host_fault(url: UrlView, given: Option<String>) -> Option<ErrorView> {
    match given {
        Some(raw) => override_fault(raw@),
        None => match url.host {
            None => error::config_fault("URL "@ + url.text + " does not contain a host"@),
            Some(_) => host_fault(host_of(url)),
        },
    }
}

/// The Host header of a request by URL.
pub open spec fn url_host(url: UrlView, given: Option<String>) -> Seq<char> {
    match given {
        Some(raw) => text::trim_spec(raw@),
        None => host_of(url),
    }
}

/// What a request by URL asks for: the URL, with the given host in the place of its own where one is
/// given. The connection goes to the host of the URL either way.
pub open spec fn url_request(url: UrlView, given: Option<String>) -> Seq<char> {
    match given {
        Some(raw) => url.scheme + "://"@ + text::trim_spec(raw@) + url.rest,
        None => url.text,
    }
}

/// The Host header of a request by URL: the one that is given, else the one that the URL stands
/// for.
pub fn default_host_header(url: &ParsedUrl, override_host: &Option<String>) -> (r: Result<String>)
    ensures
        error::fault(r) == url_host_fault(url@, *override_host),
        r matches Ok(host) ==> host@ == url_host(url@, *override_host),
{
    if let Some(host) = override_host {
        return explicit_host_header(host.as_str());
    }
    match &url.host {
        None => {
            let mut message = "URL ".to_owned();
            message.append(url.text.as_str());
            message.append(" does not contain a host");
            Err(AppError::invalid_config(message))
        },
        Some(host) => {
            let mut header = host.clone();
            if let Some(port) = url.port {
                let usual = (port == 80 && text::same(url.scheme.as_str(), "http")) || (port == 443
                    && text::same(url.scheme.as_str(), "https"));
                if !usual {
                    header.append(":");
                    header.append(number::decimal(port as u128).as_str());
                }
            }
            validate_host_header(header.as_str())?;
            Ok(header)
        },
    }
}

/// The error of a URL that has been parsed: first of what the parser found in it, then of its own
/// text.
pub open spec fn url_fault(
    raw: Seq<char>,
    parsed: core::result::Result<UrlView, Seq<char>>,
    host: Option<String>,
    tls: TlsArgs,
    roots: BundledRoots,
) -> Option<ErrorView> {
    match parsed {
        Err(reason) => url_text::refused(raw, reason),
        Ok(url) => if url.scheme != "http"@ && url.scheme != "https"@ {
            error::config_fault(
                "unsupported URL scheme "@ + url.scheme + ", expected http or https"@,
            )
        } else if url.username.len() > 0 || url.has_password {
            error::config_fault("URL user info is not supported for security reasons"@)
        } else if url.has_fragment {
            error::config_fault("URL fragments are not supported in HTTP probes"@)
        } else if url.port == Some(0u16) {
            error::config_fault("URL port must be between 1 and 65535"@)
        } else {
            error::first_fault(
                url_text::url_text_fault(raw),
                error::first_fault(
                    url_host_fault(url, host),
                    if url.scheme == "https"@ {
                        tls::options_fault(tls, roots)
                    } else if tls::any_option(tls) {
                        error::config_fault("TLS flags may only be used with https URLs"@)
                    } else {
                        None
                    },
                ),
            )
        },
    }
}

/// The result of parsing a URL, as sequences of characters.
pub open spec fn url_view(parsed: core::result::Result<ParsedUrl, String>) -> core::result::Result<
    UrlView,
    Seq<char>,
> {
    match parsed {
        Ok(url) => Ok(url@),
        Err(message) => Err(message@),
    }
}

/// Whether `target` is the server that a parsed URL stands for.
pub open spec fn is_url_target(
    target: UrlTarget,
    raw: Seq<char>,
    parsed: core::result::Result<UrlView, Seq<char>>,
    host: Option<String>,
) -> bool {
    &&& parsed is Ok
    &&& target.label@ == raw
    &&& target.endpoint@ == parsed->Ok_0.text
    &&& target.request_uri@ == url_request(parsed->Ok_0, host)
    &&& target.host@ == url_host(parsed->Ok_0, host)
    &&& target.uses_tls == (parsed->Ok_0.scheme == "https"@)
}

/// The server that a parsed URL stands for.
pub fn accept_url(
    raw: &str,
    parsed: core::result::Result<ParsedUrl, String>,
    args: &HttpArgs,
    roots: BundledRoots,
) -> (r: Result<UrlTarget>)
    ensures
        error::fault(r) == url_fault(raw@, url_view(parsed), args.host, args.tls, roots),
        r matches Ok(target) ==> is_url_target(target, raw@, url_view(parsed), args.host),
{
    let url = match parsed {
        Ok(url) => url,
        Err(reason) => {
            return Err(url_text::invalid_url(raw, reason.as_str()));
        },
    };
    let uses_tls = text::same(url.scheme.as_str(), "https");
    if !uses_tls && !text::same(url.scheme.as_str(), "http") {
        let mut message = "unsupported URL scheme ".to_owned();
        message.append(url.scheme.as_str());
        message.append(", expected http or https");
        return Err(AppError::invalid_config(message));
    }
    if !url.username.as_str().is_empty() || url.has_password {
        return Err(url_text::user_info_error());
    }
    if url.has_fragment {
        return Err(
            AppError::invalid_config("URL fragments are not supported in HTTP probes".to_owned()),
        );
    }
    if let Some(port) = url.port {
        if port == 0 {
            return Err(
                AppError::invalid_config("URL port must be between 1 and 65535".to_owned()),
            );
        }
    }
    url_text::validate_url_text(raw)?;
    let host = default_host_header(&url, &args.host)?;
    if uses_tls {
        tls::validate_tls_options(&args.tls, roots)?;
    } else if tls::has_tls_flags(&args.tls) {
        return Err(
            AppError::invalid_config("TLS flags may only be used with https URLs".to_owned()),
        );
    }
    let request_uri = match &args.host {
        Some(_) => {
            let mut uri = url.scheme.clone();
            uri.append("://");
            uri.append(host.as_str());
            uri.append(url.rest.as_str());
            uri
        },
        None => url.text.clone(),
    };
    Ok(UrlTarget { label: raw.to_owned(), endpoint: url.text, request_uri, host, uses_tls })
}

/// The server that a URL stands for.
pub fn prepare_url_target(raw: &str, args: &HttpArgs, roots: BundledRoots) -> (r: Result<UrlTarget>)
    ensures
        error::fault(r) == url_fault(
            raw@,
            url_text::parsed_url(raw@),
            args.host,
            args.tls,
            roots,
        ),
        r matches Ok(target) ==> is_url_target(
            target,
            raw@,
            url_text::parsed_url(raw@),
            args.host,
        ),
{
    accept_url(raw, url_text::parse_url(raw), args, roots)
}

/// The error of the Host header of a request over a Unix socket.
pub open spec fn unix_host_fault(args: HttpArgs) -> Option<ErrorView> {
    match args.host {
        Some(raw) => override_fault(raw@),
        None => None,
    }
}

/// Whether `target` is the server behind a Unix socket.
pub open spec fn is_unix_target(target: UnixTarget, sock: Seq<u8>, path: Seq<char>, args: HttpArgs) -> bool {
    &&& target.label@ == "unix:"@ + os_text::lossy_text(sock) + path
    &&& target.sock@ == sock
    &&& target.path@ == path
    &&& target.host@ == match args.host {
        Some(raw) => text::trim_spec(raw@),
        None => "localhost"@,
    }
}

/// The server behind a Unix socket.
pub fn prepare_unix_target(sock: &OsText, path: &str, args: &HttpArgs) -> (r: Result<UnixTarget>)
    ensures
        error::fault(r) == error::first_fault(
            url_text::uds_path_fault(path@, url_text::parsed_uri(path@)),
            unix_host_fault(*args),
        ),
        r matches Ok(target) ==> is_unix_target(target, sock@, path@, *args),
{
    url_text::validate_uds_path(path)?;
    let host = match &args.host {
        Some(host) => explicit_host_header(host.as_str())?,
        None => "localhost".to_owned(),
    };
    let mut label = "unix:".to_owned();
    label.append(sock.to_string_lossy().as_str());
    label.append(path);
    Ok(UnixTarget { label, sock: sock.copy(), host, path: path.to_owned() })
}

/// The error of the server, whichever way it is reached.
pub open spec fn target_fault(args: HttpArgs, roots: BundledRoots) -> Option<ErrorView> {
    match args.sock {
        Some(_) => unix_host_fault(args),
        None => {
            let raw = args.url->0@;
            url_fault(raw, url_text::parsed_url(raw), args.host, args.tls, roots)
        },
    }
}

/// The error of the arguments of the probe: first of which server they name and what is wanted of
/// the body, then of each argument, then of the server itself.
pub open spec fn plan_fault(args: HttpArgs, roots: BundledRoots) -> Option<ErrorView> {
    error::first_fault(
        server_fault(args),
        error::first_fault(
            body_args_fault(args),
            error::first_fault(prepared_fault(args), target_fault(args, roots)),
        ),
    )
}

/// Everything that is settled before the server is asked.
pub fn plan(args: &HttpArgs, roots: BundledRoots) -> (r: Result<HttpPlan>)
    ensures
        error::fault(r) == plan_fault(*args, roots),
        r matches Ok(plan) ==> is_prepared(plan.prepared, *args) && match plan.target {
            HttpTarget::Unix(target) => args.sock matches Some(sock) && args.path matches Some(path)
                && is_unix_target(target, sock@, path@, *args),
            HttpTarget::Url(target) => args.sock is None && (args.url matches Some(raw)
                && is_url_target(target, raw@, url_text::parsed_url(raw@), args.host)),
        },
{
    validate_http_args(args)?;
    let prepared = PreparedHttpArgs::from_args(args)?;
    if let Some(sock) = &args.sock {
        return match &args.path {
            Some(path) => match prepare_unix_target(sock, path.as_str(), args) {
                Ok(target) => Ok(HttpPlan { prepared, target: HttpTarget::Unix(target) }),
                Err(e) => Err(e),
            },
            None => Err(AppError::invalid_config("--path is required with --sock".to_owned())),
        };
    }
    match &args.url {
        Some(url) => match prepare_url_target(url.as_str(), args, roots) {
            Ok(target) => Ok(HttpPlan { prepared, target: HttpTarget::Url(target) }),
            Err(e) => Err(e),
        },
        None => Err(
            AppError::invalid_config("--url is required when --sock is not set".to_owned()),
        ),
    }
}

// The request.

/// The names and values of headers.
pub open spec fn header_views(list: Seq<RequestHeader>) -> Seq<(Seq<char>, Seq<char>)> {
    Seq::new(list.len(), |i: int| (list[i].name@, list[i].value@))
}

/// Whether a header with this name is among them.
pub open spec fn has_header(list: Seq<(Seq<char>, Seq<char>)>, name: Seq<char>) -> bool {
    exists|i: int| 0 <= i < list.len() && (#[trigger] list[i]).0 == name
}

/// The headers of a request: the host first, then what the request calls itself unless another
/// name is given, then the given ones in their order.
pub open spec fn all_headers(host: Seq<char>, given: Seq<(Seq<char>, Seq<char>)>) -> Seq<
    (Seq<char>, Seq<char>),
> {
    let host = seq![("host"@, host)];
    if has_header(given, "user-agent"@) {
        host + given
    } else {
        host + seq![("user-agent"@, USER_AGENT_VALUE@)] + given
    }
}

/// The headers of a request.
pub fn request_headers(host: &str, prepared: &PreparedHttpArgs) -> (r: Vec<RequestHeader>)
    ensures
        header_views(r@) == all_headers(host@, header_views(prepared.headers@)),
{
    let ghost given = header_views(prepared.headers@);
    let mut list: Vec<RequestHeader> = Vec::new();
    list.push(RequestHeader { name: "host".to_owned(), value: host.to_owned() });
    let mut named = false;
    let mut i: usize = 0;
    while i < prepared.headers.len()
        invariant
            i <= prepared.headers@.len(),
            given == header_views(prepared.headers@),
            named <==> exists|j: int| 0 <= j < i && (#[trigger] given[j]).0 == "user-agent"@,
        decreases prepared.headers.len() - i,
    {
        if text::same(prepared.headers[i].name.as_str(), "user-agent") {
            assert(given[i as int].0 == "user-agent"@);
            named = true;
        }
        i = i + 1;
    }
    if !named {
        list.push(
            RequestHeader { name: "user-agent".to_owned(), value: USER_AGENT_VALUE.to_owned() },
        );
    }
    let ghost head = header_views(list@);
    proof {
        assert(has_header(given, "user-agent"@) == named);
        if named {
            assert(head =~= seq![("host"@, host@)]);
        } else {
            assert(head =~= seq![("host"@, host@)] + seq![("user-agent"@, USER_AGENT_VALUE@)]);
        }
    }
    let mut k: usize = 0;
    assert(header_views(list@) =~= head + given.take(0));
    while k < prepared.headers.len()
        invariant
            k <= prepared.headers@.len(),
            given == header_views(prepared.headers@),
            header_views(list@) == head + given.take(k as int),
        decreases prepared.headers.len() - k,
    {
        let header = &prepared.headers[k];
        let ghost before = header_views(list@);
        list.push(RequestHeader { name: header.name.clone(), value: header.value.clone() });
        proof {
            assert(given[k as int] == (header.name@, header.value@));
            assert(header_views(list@) =~= before.push((header.name@, header.value@)));
            assert(header_views(list@) =~= head + given.take(k + 1));
        }
        k = k + 1;
    }
    assert(given.take(given.len() as int) =~= given);
    list
}

/// No given header takes the place of the Host header, frames the message or speaks of the
/// connection, and each can be sent: a request carries its host exactly once, and first.
pub proof fn lemma_request_headers(prepared: PreparedHttpArgs, args: HttpArgs, host: Seq<char>)
    requires
        prepared_fault(args) is None,
        is_prepared(prepared, args),
    ensures
        ({
            let all = all_headers(host, header_views(prepared.headers@));
            &&& all[0] == ("host"@, host)
            &&& forall|i: int| 0 < i < all.len() ==> (#[trigger] all[i]).0 != "host"@
            &&& forall|i: int|
                0 <= i < prepared.headers@.len() ==> {
                    let name = (#[trigger] prepared.headers@[i]).name@;
                    !is_framing(name) && !is_hop_by_hop(name) && headers::is_header_value(
                        prepared.headers@[i].value@,
                    )
                }
        }),
{
    error::lemma_first_of_none(args.header@, header_check());
    let given = header_views(prepared.headers@);
    assert forall|i: int| 0 <= i < prepared.headers@.len() implies {
        let name = (#[trigger] prepared.headers@[i]).name@;
        name != "host"@ && !is_framing(name) && !is_hop_by_hop(name) && headers::is_header_value(
            prepared.headers@[i].value@,
        )
    } by {
        assert((header_check())(args.header@[i]) is None);
        assert((prepared.headers@[i].name@, prepared.headers@[i].value@) == request_header(
            args.header@[i]@,
        ));
    }
    let all = all_headers(host, given);
    reveal_strlit("host");
    reveal_strlit("user-agent");
    assert("host"@.len() != "user-agent"@.len());
    assert forall|i: int| 0 < i < all.len() implies (#[trigger] all[i]).0 != "host"@ by {
        let k = all.len() - given.len();
        if i >= k {
            assert(all[i] == given[i - k]);
            assert(given[i - k].0 == prepared.headers@[i - k].name@);
        }
    }
}

// The answer.

/// Whether one of the values is the text.
pub open spec fn any_equals(values: Seq<Seq<u8>>, wanted: Seq<u8>) -> bool {
    exists|i: int| 0 <= i < values.len() && #[trigger] values[i] == wanted
}

/// Whether one of the values contains the text.
pub open spec fn any_contains(values: Seq<Seq<u8>>, wanted: Seq<u8>) -> bool {
    exists|i: int| 0 <= i < values.len() && text_match::contains(#[trigger] values[i], wanted)
}

/// The error of a header that must be there.
pub open spec fn missing_check(response: HeaderMap<HeaderValue>, target: Seq<char>) -> spec_fn(
    String,
) -> Option<ErrorView> {
    |name: String|
        if headers::values_under(response, name@).len() == 0 {
            error::failure_fault(
                "response header "@ + name@ + " is missing from "@ + target,
            )
        } else {
            None
        }
}

/// What an assertion asks of the values of a header.
#[derive(Clone, Copy, Debug)]
pub enum Wanted {
    /// One of them is the text.
    Equal,
    /// One of them contains the text.
    Contained,
    /// None of them contains the text.
    Absent,
}

/// Whether the values of a header are what an assertion asks for.
pub open spec fn holds(wanted: Wanted, values: Seq<Seq<u8>>, needle: Seq<u8>) -> bool {
    match wanted {
        Wanted::Equal => any_equals(values, needle),
        Wanted::Contained => any_contains(values, needle),
        Wanted::Absent => !any_contains(values, needle),
    }
}

/// How the failure of an assertion is put.
pub open spec fn wanted_text(wanted: Wanted) -> Seq<char> {
    match wanted {
        Wanted::Equal => " does not equal required value "@,
        Wanted::Contained => " does not contain required text "@,
        Wanted::Absent => " contains forbidden text "@,
    }
}

/// The error of a header that is held against a text.
pub open spec fn wanted_check(
    response: HeaderMap<HeaderValue>,
    target: Seq<char>,
    wanted: Wanted,
) -> spec_fn(HeaderAssertion) -> Option<ErrorView> {
    |assertion: HeaderAssertion|
        if holds(
            wanted,
            headers::values_under(response, assertion.name@),
            utf8::encode_utf8(assertion.value@),
        ) {
            None
        } else {
            error::failure_fault(
                "response header "@ + assertion.name@ + " from "@ + target + wanted_text(wanted)
                    + diagnostic::debug_text(assertion.value@),
            )
        }
}

/// The error of the headers of a response: missing ones first, then values that differ, then values
/// that lack a text, then values that hold a forbidden one.
pub open spec fn response_headers_fault(
    response: HeaderMap<HeaderValue>,
    assertions: HeaderAssertions,
    target: Seq<char>,
) -> Option<ErrorView> {
    error::first_fault(
        error::first_of(assertions.present@, missing_check(response, target)),
        error::first_fault(
            error::first_of(
                assertions.equals@,
                wanted_check(response, target, Wanted::Equal),
            ),
            error::first_fault(
                error::first_of(
                    assertions.contains@,
                    wanted_check(response, target, Wanted::Contained),
                ),
                error::first_of(
                    assertions.not_contains@,
                    wanted_check(response, target, Wanted::Absent),
                ),
            ),
        ),
    )
}

/// Whether one of the values is the text.
fn one_equals(values: &Vec<Vec<u8>>, wanted: &[u8]) -> (r: bool)
    ensures
        r == any_equals(headers::byte_views(values@), wanted@),
{
    let ghost views = headers::byte_views(values@);
    let mut i: usize = 0;
    while i < values.len()
        invariant
            i <= values@.len(),
            views == headers::byte_views(values@),
            forall|j: int| 0 <= j < i ==> #[trigger] views[j] != wanted@,
        decreases values.len() - i,
    {
        assert(views[i as int] == values@[i as int]@);
        if same_bytes(values[i].as_slice(), wanted) {
            return true;
        }
        i = i + 1;
    }
    false
}

/// Whether two byte strings are the same.
fn same_bytes(a: &[u8], b: &[u8]) -> (r: bool)
    ensures
        r == (a@ == b@),
{
    if a.len() != b.len() {
        return false;
    }
    let mut i: usize = 0;
    while i < a.len()
        invariant
            i <= a@.len(),
            a@.len() == b@.len(),
            forall|j: int| 0 <= j < i ==> a@[j] == b@[j],
        decreases a.len() - i,
    {
        if a[i] != b[i] {
            return false;
        }
        i = i + 1;
    }
    assert(a@ =~= b@);
    true
}

/// Whether one of the values contains the text.
fn one_contains(values: &Vec<Vec<u8>>, wanted: &str) -> (r: bool)
    ensures
        r == any_contains(headers::byte_views(values@), utf8::encode_utf8(wanted@)),
{
    let ghost views = headers::byte_views(values@);
    let mut i: usize = 0;
    while i < values.len()
        invariant
            i <= values@.len(),
            views == headers::byte_views(values@),
            forall|j: int|
                0 <= j < i ==> !text_match::contains(
                    #[trigger] views[j],
                    utf8::encode_utf8(wanted@),
                ),
        decreases values.len() - i,
    {
        assert(views[i as int] == values@[i as int]@);
        if text_match::contains_bytes(values[i].as_slice(), wanted) {
            return true;
        }
        i = i + 1;
    }
    false
}

/// Holds the headers of a response against a list of texts.
fn assert_values(
    response: &HeaderMap<HeaderValue>,
    assertions: &Vec<HeaderAssertion>,
    target: &str,
    wanted: Wanted,
) -> (r: Result<()>)
    ensures
        error::fault(r) == error::first_of(
            assertions@,
            wanted_check(*response, target@, wanted),
        ),
{
    let ghost check = wanted_check(*response, target@, wanted);
    let mut i: usize = 0;
    while i < assertions.len()
        invariant
            i <= assertions@.len(),
            check == wanted_check(*response, target@, wanted),
            forall|j: int| 0 <= j < i ==> check(#[trigger] assertions@[j]) is None,
        decreases assertions.len() - i,
    {
        let assertion = &assertions[i];
        let values = headers::values_of(response, assertion.name.as_str());
        let needle = assertion.value.as_str();
        let held = match wanted {
            Wanted::Equal => one_equals(&values, needle.as_bytes()),
            Wanted::Contained => one_contains(&values, needle),
            Wanted::Absent => !one_contains(&values, needle),
        };
        if !held {
            let mut message = "response header ".to_owned();
            message.append(assertion.name.as_str());
            message.append(" from ");
            message.append(target);
            message.append(
                match wanted {
                    Wanted::Equal => " does not equal required value ",
                    Wanted::Contained => " does not contain required text ",
                    Wanted::Absent => " contains forbidden text ",
                },
            );
            message.append(diagnostic::debug(needle).as_str());
            proof {
                error::lemma_first_of(assertions@, check, i as int);
            }
            return Err(AppError::failure(message));
        }
        i = i + 1;
    }
    proof {
        error::lemma_first_of(assertions@, check, i as int);
    }
    Ok(())
}

/// Holds the headers of a response against what is wanted of them.
pub fn assert_response_headers(
    response: &HeaderMap<HeaderValue>,
    assertions: &HeaderAssertions,
    target: &str,
) -> (r: Result<()>)
    ensures
        error::fault(r) == response_headers_fault(*response, *assertions, target@),
{
    let ghost check = missing_check(*response, target@);
    let mut i: usize = 0;
    while i < assertions.present.len()
        invariant
            i <= assertions.present@.len(),
            check == missing_check(*response, target@),
            forall|j: int| 0 <= j < i ==> check(#[trigger] assertions.present@[j]) is None,
        decreases assertions.present.len() - i,
    {
        let name = assertions.present[i].as_str();
        let values = headers::values_of(response, name);
        assert(headers::byte_views(values@).len() == values@.len());
        if values.len() == 0 {
            let mut message = "response header ".to_owned();
            message.append(name);
            message.append(" is missing from ");
            message.append(target);
            proof {
                error::lemma_first_of(assertions.present@, check, i as int);
            }
            return Err(AppError::failure(message));
        }
        i = i + 1;
    }
    proof {
        error::lemma_first_of(assertions.present@, check, i as int);
    }
    assert_values(response, &assertions.equals, target, Wanted::Equal)?;
    assert_values(response, &assertions.contains, target, Wanted::Contained)?;
    assert_values(response, &assertions.not_contains, target, Wanted::Absent)
}

/// The error of the status and the headers of a response.
pub open spec fn head_fault(
    status: u16,
    response: HeaderMap<HeaderValue>,
    prepared: PreparedHttpArgs,
    target: Seq<char>,
) -> Option<ErrorView> {
    if !prepared.status_ranges.accepts(status as int) {
        error::failure_fault(
            "HTTP status "@ + number::digits(status as nat) + " from "@ + target
                + " is outside the allowed range"@,
        )
    } else {
        response_headers_fault(response, prepared.header_assertions, target)
    }
}

/// Holds the status and the headers of a response against what is wanted of them.
pub fn evaluate_head(
    status: u16,
    response: &HeaderMap<HeaderValue>,
    prepared: &PreparedHttpArgs,
    target: &str,
) -> (r: Result<()>)
    ensures
        error::fault(r) == head_fault(status, *response, *prepared, target@),
{
    if !prepared.status_ranges.matches(status) {
        let mut message = "HTTP status ".to_owned();
        message.append(number::decimal(status as u128).as_str());
        message.append(" from ");
        message.append(target);
        message.append(" is outside the allowed range");
        return Err(AppError::failure(message));
    }
    assert_response_headers(response, &prepared.header_assertions, target)
}

/// Holds the status and the headers of a response against what is wanted of them, and begins with
/// its body where anything is wanted of that.
pub fn evaluate_response(
    status: u16,
    response: &HeaderMap<HeaderValue>,
    size: BodySize,
    args: &HttpArgs,
    prepared: &PreparedHttpArgs,
    target: &str,
) -> (r: Result<Option<BodyReader>>)
    ensures
        error::fault(r) == head_fault(status, *response, *prepared, target@),
        r matches Ok(body) ==> (body is Some <==> wants_body(*args)),
        r matches Ok(Some(reader)) ==> {
            &&& reader.wf()
            &&& reader.wants() == http_body::wants_of(*args)
            &&& reader.limit() == args.max_body
            &&& reader@ == (BodyView { capture: CaptureView::empty(), size, ended: false })
        },
{
    evaluate_head(status, response, prepared, target)?;
    if !has_body_assertions(args) {
        return Ok(None);
    }
    Ok(Some(BodyReader::new(args, size)))
}

/// A healthy server.
pub fn report(status: u16, target: String, elapsed: Span, options: ProbeOptions) -> (r: ProbeReport)
    ensures
        r.mode@ == "http"@,
        r.target == target,
        r.detail matches Some(detail) && detail@ == "status="@ + number::digits(status as nat),
        r.elapsed == elapsed,
        r.options == options,
{
    let mut detail = "status=".to_owned();
    detail.append(number::decimal(status as u128).as_str());
    ProbeReport::new("http", target, Some(detail), elapsed, options)
}

/// What can go wrong between the request and the answer.
#[derive(Debug)]
pub enum ExchangeFault {
    /// The request cannot be built.
    Build(String),
    /// The socket cannot be reached.
    Connect(String),
    /// The server does not speak HTTP.
    Handshake(String),
    /// The request fails.
    Request(String),
    /// The body breaks off.
    Body(String),
}

/// The error for what went wrong between the request and the answer.
pub open spec fn exchange_error_view(target: HttpTarget, fault: ExchangeFault) -> ErrorView {
    match fault {
        ExchangeFault::Build(reason) => ErrorView::InvalidConfig(
            "invalid HTTP request: "@ + reason@,
        ),
        ExchangeFault::Connect(reason) => ErrorView::Failure(
            match target {
                HttpTarget::Unix(unix) => "failed to connect to unix socket "@
                    + diagnostic::shown_os(unix.sock@) + ": "@ + reason@,
                HttpTarget::Url(url) => "failed to connect to "@ + url.label@ + ": "@ + reason@,
            },
        ),
        ExchangeFault::Handshake(reason) => ErrorView::Failure(
            "HTTP handshake failed: "@ + reason@,
        ),
        ExchangeFault::Request(reason) => ErrorView::Failure(
            match target {
                HttpTarget::Unix(unix) => "HTTP request over unix socket "@ + diagnostic::shown_os(
                    unix.sock@,
                ) + " failed: "@ + reason@,
                HttpTarget::Url(url) => "HTTP request to "@ + url.label@ + " failed: "@ + reason@,
            },
        ),
        ExchangeFault::Body(reason) => ErrorView::Failure("failed reading HTTP body: "@ + reason@),
    }
}

/// The error for what went wrong between the request and the answer.
pub fn exchange_error(target: &HttpTarget, fault: &ExchangeFault) -> (r: AppError)
    ensures
        r@ == exchange_error_view(*target, *fault),
{
    match fault {
        ExchangeFault::Build(reason) => {
            let mut message = "invalid HTTP request: ".to_owned();
            message.append(reason.as_str());
            AppError::invalid_config(message)
        },
        ExchangeFault::Connect(reason) => {
            let mut message = match target {
                HttpTarget::Unix(unix) => {
                    let mut m = "failed to connect to unix socket ".to_owned();
                    m.append(diagnostic::path(&unix.sock).as_str());
                    m
                },
                HttpTarget::Url(url) => {
                    let mut m = "failed to connect to ".to_owned();
                    m.append(url.label.as_str());
                    m
                },
            };
            message.append(": ");
            message.append(reason.as_str());
            AppError::failure(message)
        },
        ExchangeFault::Handshake(reason) => {
            let mut message = "HTTP handshake failed: ".to_owned();
            message.append(reason.as_str());
            AppError::failure(message)
        },
        ExchangeFault::Request(reason) => {
            let mut message = match target {
                HttpTarget::Unix(unix) => {
                    let mut m = "HTTP request over unix socket ".to_owned();
                    m.append(diagnostic::path(&unix.sock).as_str());
                    m
                },
                HttpTarget::Url(url) => {
                    let mut m = "HTTP request to ".to_owned();
                    m.append(url.label.as_str());
                    m
                },
            };
            message.append(" failed: ");
            message.append(reason.as_str());
            AppError::failure(message)
        },
        ExchangeFault::Body(reason) => {
            let mut message = "failed reading HTTP body: ".to_owned();
            message.append(reason.as_str());
            AppError::failure(message)
        },
    }
}

} // verus!
