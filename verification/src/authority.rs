//! Host and port as they are given on the command line.

use crate::diagnostic;
use crate::error;
use crate::error::{AppError, ErrorView, Result};
use crate::ipv6;
use crate::number;
use crate::text;
use vstd::prelude::*;

verus! {

/// Whether an authority must name a port.
#[derive(Clone, Copy, Debug)]
pub enum PortPolicy {
    Optional,
    Required,
}

/// How a rejected authority is shown.
#[derive(Clone, Copy, Debug)]
pub enum RawFormat {
    /// As it stands, unless it needs quotes.
    Display,
    /// Always in quotes.
    Debug,
}

/// What is wrong with a port.
#[derive(Clone, Copy, Debug, PartialEq, Eq, Structural)]
pub enum PortError {
    NotInteger,
    OutOfRange,
}

/// A host with an optional port that has passed all checks.
#[derive(Debug)]
pub struct Authority {
    /// The authority as it was given.
    pub text: String,
    /// Its host, with the brackets of an IPv6 address.
    pub host: String,
}

/// The reason why an address has to be rejected that is an IPv6 address without its brackets.
pub const IPV6_BRACKETS_REQUIRED: &'static str = "IPv6 addresses must be enclosed in brackets";

impl PortError {
    /// The message of the error.
    pub open spec fn text(self) -> Seq<char> {
        match self {
            PortError::NotInteger => "port must be a valid integer"@,
            PortError::OutOfRange => "port must be between 1 and 65535"@,
        }
    }

    /// The message of the error.
    pub fn message(self) -> (r: &'static str)
        ensures
            r@ == self.text(),
    {
        match self {
            PortError::NotInteger => "port must be a valid integer",
            PortError::OutOfRange => "port must be between 1 and 65535",
        }
    }
}

/// The host that `http::uri::Authority` reads from a text, or the message of its error.
pub uninterp spec fn parsed_authority(s: Seq<char>) -> core::result::Result<Seq<char>, Seq<char>>;

/// `<http::uri::Authority as FromStr>::from_str` and `Authority::host`: the host of the authority
/// that a text is, or the message of the error, under the name `parsed_authority`.
#[verifier::external_body]
fn parse_authority(raw: &str) -> (r: core::result::Result<String, String>)
    ensures
        match r {
            Ok(host) => parsed_authority(raw@) == core::result::Result::<Seq<char>, Seq<char>>::Ok(host@),
            Err(message) => parsed_authority(raw@) == core::result::Result::<Seq<char>, Seq<char>>::Err(message@),
        },
{
    match raw.parse::<hyper::http::uri::Authority>() {
        Ok(authority) => Ok(authority.host().to_owned()),
        Err(error) => Err(error.to_string()),
    }
}

/// Whether a character never stands in an authority.
pub open spec fn is_refused(c: char) -> bool {
    c == '\\' || c == '"' || text::is_white(c) || text::is_ctl(c)
}

/// Why the characters of a text cannot form an authority.
pub open spec fn text_reason(raw: Seq<char>) -> Option<Seq<char>> {
    if exists|i: int| 0 <= i < raw.len() && is_refused(#[trigger] raw[i]) {
        Some(
            "authority must not contain whitespace, control characters, backslashes, or quotes"@,
        )
    } else if exists|i: int| 0 <= i < raw.len() && #[trigger] raw[i] > '\u{7f}' {
        Some(
            "authority must contain only ASCII characters; use punycode for internationalized names"@,
        )
    } else {
        None
    }
}

/// Why the brackets of an authority are wrong.
pub open spec fn bracket_reason(raw: Seq<char>) -> Option<Seq<char>> {
    if !text::begins_with(raw, '[') {
        if raw.contains('[') || raw.contains(']') {
            Some("brackets are only allowed around IPv6 addresses"@)
        } else {
            None
        }
    } else {
        match text::split_once(raw.skip(1), ']') {
            None => Some("bracketed host is missing closing ]"@),
            Some((host, suffix)) => if host.len() == 0 {
                Some("host must not be empty"@)
            } else if !ipv6::is_ipv6(host) {
                Some("bracketed host must be a valid IPv6 address"@)
            } else if suffix.len() > 0 && suffix[0] != ':' {
                Some("bracketed host must be followed by :port or the end of the authority"@)
            } else {
                None
            },
        }
    }
}

/// Whether the host of a raw authority is empty.
pub open spec fn host_is_empty(raw: Seq<char>) -> bool {
    if text::begins_with(raw, '[') {
        text::begins_with(raw.skip(1), ']')
    } else {
        match text::split_once(raw, ':') {
            Some((host, _)) => host.len() == 0,
            None => raw.len() == 0,
        }
    }
}

/// Whether a raw authority is an IPv6 address, with or without a port, that lacks its brackets.
pub open spec fn lacks_brackets(raw: Seq<char>) -> bool {
    !text::begins_with(raw, '[') && {
        ||| raw.contains(':') && ipv6::is_ipv6(raw)
        ||| text::split_last(raw, ':') matches Some((host, _)) && ipv6::is_ipv6(host)
        ||| text::split_pair(raw, ':', ':') is Some
    }
}

/// The port that a raw authority names.
pub open spec fn port_of(raw: Seq<char>) -> Option<Seq<char>> {
    if text::begins_with(raw, '[') {
        match text::split_once(raw.skip(1), ']') {
            Some((_, suffix)) => if text::begins_with(suffix, ':') {
                Some(suffix.skip(1))
            } else {
                None
            },
            None => None,
        }
    } else {
        match text::split_once(raw, ':') {
            Some((_, port)) => Some(port),
            None => None,
        }
    }
}

/// The number of a port, or what is wrong with it.
pub open spec fn port_number(raw: Seq<char>) -> core::result::Result<nat, PortError> {
    if raw.len() == 0 || !number::all_digits(raw) {
        Err(PortError::NotInteger)
    } else if 1 <= number::value_of(raw) <= 65535 {
        Ok(number::value_of(raw))
    } else {
        Err(PortError::OutOfRange)
    }
}

/// Why a text is no authority as far as its shape tells.
pub open spec fn shape_reason(raw: Seq<char>) -> Option<Seq<char>> {
    if text_reason(raw) is Some {
        text_reason(raw)
    } else if raw.contains('@') {
        Some("user info is not allowed"@)
    } else if raw.contains('/') || raw.contains('?') || raw.contains('#') {
        Some("path, query, and fragment are not allowed"@)
    } else if bracket_reason(raw) is Some {
        bracket_reason(raw)
    } else if lacks_brackets(raw) {
        Some(IPV6_BRACKETS_REQUIRED@)
    } else if host_is_empty(raw) {
        Some("host must not be empty"@)
    } else {
        match port_of(raw) {
            Some(port) => match port_number(port) {
                Ok(_) => None,
                Err(error) => Some(error.text()),
            },
            None => None,
        }
    }
}

/// Why an authority of the right shape is rejected once it has been parsed.
pub open spec fn parsed_reason(
    raw: Seq<char>,
    policy: PortPolicy,
    parsed: core::result::Result<Seq<char>, Seq<char>>,
) -> Option<Seq<char>> {
    match parsed {
        Err(message) => Some(message),
        Ok(host) => if host.len() == 0 {
            Some("host must not be empty"@)
        } else if port_of(raw) is None && policy is Required {
            Some("port is required"@)
        } else {
            None
        },
    }
}

/// Why an authority is rejected, given what parsing it gives.
pub open spec fn authority_reason(
    raw: Seq<char>,
    policy: PortPolicy,
    parsed: core::result::Result<Seq<char>, Seq<char>>,
) -> Option<Seq<char>> {
    match shape_reason(raw) {
        Some(reason) => Some(reason),
        None => parsed_reason(raw, policy, parsed),
    }
}

/// A rejected authority as it is shown.
pub open spec fn raw_shown(raw: Seq<char>, format: RawFormat) -> Seq<char> {
    match format {
        RawFormat::Display => diagnostic::shown(raw),
        RawFormat::Debug => diagnostic::debug_text(raw),
    }
}

/// The message for a rejected authority.
pub open spec fn authority_message(
    label: Seq<char>,
    raw: Seq<char>,
    format: RawFormat,
    reason: Seq<char>,
) -> Seq<char> {
    "invalid "@ + label + " "@ + raw_shown(raw, format) + ": "@ + reason
}

/// The error of an authority, given what parsing it gives.
pub open spec fn authority_fault(
    raw: Seq<char>,
    label: Seq<char>,
    policy: PortPolicy,
    format: RawFormat,
    parsed: core::result::Result<Seq<char>, Seq<char>>,
) -> Option<ErrorView> {
    match authority_reason(raw, policy, parsed) {
        Some(reason) => error::config_fault(authority_message(label, raw, format, reason)),
        None => None,
    }
}

/// An accepted authority is plain ASCII without user info, path, query or fragment, has a host,
/// names a port from 1 to 65535 if it names one, and names one where that is required.
pub proof fn lemma_accepted_authority(
    raw: Seq<char>,
    policy: PortPolicy,
    parsed: core::result::Result<Seq<char>, Seq<char>>,
)
    requires
        authority_reason(raw, policy, parsed) is None,
    ensures
        forall|i: int| 0 <= i < raw.len() ==> #[trigger] raw[i] <= '\u{7f}' && !is_refused(raw[i]),
        !raw.contains('@') && !raw.contains('/') && !raw.contains('?') && !raw.contains('#'),
        raw.len() > 0,
        !host_is_empty(raw),
        port_of(raw) matches Some(port) ==> port_number(port) is Ok && 1 <= number::value_of(port)
            <= 65535,
        policy is Required ==> port_of(raw) is Some,
{
}

/// Why the characters of a text cannot form an authority.
fn validate_authority_text(raw: &str) -> (r: core::result::Result<(), &'static str>)
    ensures
        match r {
            Ok(_) => text_reason(raw@) is None,
            Err(reason) => text_reason(raw@) == Some(reason@),
        },
{
    let mut ascii = true;
    for ch in it: raw.chars()
        invariant
            it.seq() == raw@,
            forall|j: int| 0 <= j < it.index() ==> !is_refused(#[trigger] raw@[j]),
            ascii ==> forall|j: int| 0 <= j < it.index() ==> #[trigger] raw@[j] <= '\u{7f}',
            !ascii ==> exists|j: int| 0 <= j < it.index() && #[trigger] raw@[j] > '\u{7f}',
    {
        assert(raw@[it.index()] == ch);
        if ch == '\\' || ch == '"' || text::is_whitespace(ch) || text::is_control(ch) {
            return Err(
                "authority must not contain whitespace, control characters, backslashes, or quotes",
            );
        }
        if ch > '\u{7f}' {
            ascii = false;
        }
    }
    if !ascii {
        return Err(
            "authority must contain only ASCII characters; use punycode for internationalized names",
        );
    }
    Ok(())
}

/// Whether the host of a raw authority is empty.
pub fn raw_host_is_empty(raw: &str) -> (r: bool)
    ensures
        r == host_is_empty(raw@),
{
    if text::starts_with_char(raw, '[') {
        return text::starts_with_char(text::after_first(raw), ']');
    }
    match text::split_once_char(raw, ':') {
        Some((host, _)) => host.is_empty(),
        None => raw.is_empty(),
    }
}

/// Whether a raw authority is an IPv6 address, with or without a port, that lacks its brackets.
pub fn is_unbracketed_ipv6_authority(raw: &str) -> (r: bool)
    ensures
        r == lacks_brackets(raw@),
{
    if text::starts_with_char(raw, '[') {
        return false;
    }
    if text::has_char(raw, ':') && ipv6::is_ipv6_text(raw) {
        return true;
    }
    if let Some((host, _)) = text::rsplit_once_char(raw, ':') {
        if ipv6::is_ipv6_text(host) {
            return true;
        }
    }
    text::split_once_pair(raw, ':', ':').is_some()
}

/// Why the brackets of an authority are wrong.
fn validate_bracketed_host(raw: &str) -> (r: core::result::Result<(), &'static str>)
    ensures
        match r {
            Ok(_) => bracket_reason(raw@) is None,
            Err(reason) => bracket_reason(raw@) == Some(reason@),
        },
{
    if !text::starts_with_char(raw, '[') {
        if text::has_char(raw, '[') || text::has_char(raw, ']') {
            return Err("brackets are only allowed around IPv6 addresses");
        }
        return Ok(());
    }
    match text::split_once_char(text::after_first(raw), ']') {
        None => Err("bracketed host is missing closing ]"),
        Some((host, suffix)) => {
            if host.is_empty() {
                return Err("host must not be empty");
            }
            if !ipv6::is_ipv6_text(host) {
                return Err("bracketed host must be a valid IPv6 address");
            }
            if !suffix.is_empty() && !text::starts_with_char(suffix, ':') {
                return Err(
                    "bracketed host must be followed by :port or the end of the authority",
                );
            }
            Ok(())
        },
    }
}

/// The number of a port, from 1 to 65535, or what is wrong with it.
pub fn validate_port(raw: &str) -> (r: core::result::Result<u16, PortError>)
    ensures
        match r {
            Ok(port) => port_number(raw@) == core::result::Result::<nat, PortError>::Ok(port as nat) && 1 <= port,
            Err(error) => port_number(raw@) == core::result::Result::<nat, PortError>::Err(error),
        },
{
    if raw.is_empty() || !number::only_digits(raw) {
        return Err(PortError::NotInteger);
    }
    match number::digits_u16(raw) {
        Some(port) => if port == 0 {
            Err(PortError::OutOfRange)
        } else {
            Ok(port)
        },
        None => Err(PortError::OutOfRange),
    }
}

/// The port that a raw authority names.
pub fn explicit_port(raw: &str) -> (r: Option<&str>)
    ensures
        match r {
            Some(port) => port_of(raw@) == Some(port@),
            None => port_of(raw@) is None,
        },
{
    if text::starts_with_char(raw, '[') {
        return match text::split_once_char(text::after_first(raw), ']') {
            Some((_, suffix)) => if text::starts_with_char(suffix, ':') {
                Some(text::after_first(suffix))
            } else {
                None
            },
            None => None,
        };
    }
    match text::split_once_char(raw, ':') {
        Some((_, port)) => Some(port),
        None => None,
    }
}

/// The error for a rejected authority.
fn invalid_authority(label: &str, raw: &str, raw_format: RawFormat, reason: &str) -> (r: AppError)
    ensures
        r@ == ErrorView::InvalidConfig(authority_message(label@, raw@, raw_format, reason@)),
{
    let shown = match raw_format {
        RawFormat::Display => diagnostic::value(raw),
        RawFormat::Debug => diagnostic::debug(raw),
    };
    let mut message = "invalid ".to_owned();
    message.append(label);
    message.append(" ");
    message.append(shown.as_str());
    message.append(": ");
    message.append(reason);
    AppError::invalid_config(message)
}

/// Why a text is no authority as far as its shape tells.
pub fn check_shape(raw: &str) -> (r: core::result::Result<(), &'static str>)
    ensures
        match r {
            Ok(_) => shape_reason(raw@) is None,
            Err(reason) => shape_reason(raw@) == Some(reason@),
        },
{
    validate_authority_text(raw)?;
    if text::has_char(raw, '@') {
        return Err("user info is not allowed");
    }
    if text::has_char(raw, '/') || text::has_char(raw, '?') || text::has_char(raw, '#') {
        return Err("path, query, and fragment are not allowed");
    }
    validate_bracketed_host(raw)?;
    if is_unbracketed_ipv6_authority(raw) {
        return Err(IPV6_BRACKETS_REQUIRED);
    }
    if raw_host_is_empty(raw) {
        return Err("host must not be empty");
    }
    if let Some(port) = explicit_port(raw) {
        if let Err(error) = validate_port(port) {
            return Err(error.message());
        }
    }
    Ok(())
}

/// The authority of the right shape whose host has been parsed, or why it is rejected.
pub fn accept_parsed(
    raw: &str,
    label: &str,
    port_policy: PortPolicy,
    raw_format: RawFormat,
    parsed: core::result::Result<String, String>,
) -> (r: Result<Authority>)
    ensures
        match parsed_reason(raw@, port_policy, parsed_view(parsed)) {
            Some(reason) => error::fault(r) == error::config_fault(
                authority_message(label@, raw@, raw_format, reason),
            ),
            None => r matches Ok(authority) && authority.text@ == raw@ && parsed_view(parsed)
                == core::result::Result::<Seq<char>, Seq<char>>::Ok(authority.host@),
        },
{
    match parsed {
        Err(message) => Err(invalid_authority(label, raw, raw_format, message.as_str())),
        Ok(host) => {
            if host.as_str().is_empty() {
                return Err(invalid_authority(label, raw, raw_format, "host must not be empty"));
            }
            if explicit_port(raw).is_none() {
                if let PortPolicy::Required = port_policy {
                    return Err(invalid_authority(label, raw, raw_format, "port is required"));
                }
            }
            Ok(Authority { text: raw.to_owned(), host })
        },
    }
}

/// A parsed host or the message of an error, as sequences of characters.
pub open spec fn parsed_view(parsed: core::result::Result<String, String>) -> core::result::Result<
    Seq<char>,
    Seq<char>,
> {
    match parsed {
        Ok(host) => Ok(host@),
        Err(message) => Err(message@),
    }
}

/// The authority that `raw` is, or why it is rejected: its characters, user info, a path, wrong
/// brackets, an empty host, a bad port, a missing port where one is required, or what the parser
/// finds.
pub fn validate_authority(
    raw: &str,
    label: &str,
    port_policy: PortPolicy,
    raw_format: RawFormat,
) -> (r: Result<Authority>)
    ensures
        error::fault(r) == authority_fault(
            raw@,
            label@,
            port_policy,
            raw_format,
            parsed_authority(raw@),
        ),
        r matches Ok(authority) ==> authority.text@ == raw@ && parsed_authority(raw@)
            == core::result::Result::<Seq<char>, Seq<char>>::Ok(authority.host@),
{
    if let Err(reason) = check_shape(raw) {
        return Err(invalid_authority(label, raw, raw_format, reason));
    }
    accept_parsed(raw, label, port_policy, raw_format, parse_authority(raw))
}

} // verus!
