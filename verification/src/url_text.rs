//! URLs and request paths as they are given on the command line.

use crate::authority;
use crate::error;
use crate::error::{AppError, ErrorView, Result};
use crate::text;
use vstd::prelude::*;

verus! {

/// What a URL is made of, as far as a probe needs it.
#[derive(Debug)]
pub struct ParsedUrl {
    pub scheme: String,
    pub username: String,
    pub has_password: bool,
    pub has_fragment: bool,
    /// The port, unless it is the usual one of the scheme.
    pub port: Option<u16>,
    pub host: Option<String>,
    /// The path and the query.
    pub rest: String,
    /// The URL in its normal form.
    pub text: String,
}

/// A [`ParsedUrl`] with its texts as sequences of characters.
pub struct UrlView {
    pub scheme: Seq<char>,
    pub username: Seq<char>,
    pub has_password: bool,
    pub has_fragment: bool,
    pub port: Option<u16>,
    pub host: Option<Seq<char>>,
    pub rest: Seq<char>,
    pub text: Seq<char>,
}

impl View for ParsedUrl {
    type V = UrlView;

    open spec fn view(&self) -> UrlView {
        UrlView {
            scheme: self.scheme@,
            username: self.username@,
            has_password: self.has_password,
            has_fragment: self.has_fragment,
            port: self.port,
            host: match self.host {
                Some(host) => Some(host@),
                None => None,
            },
            rest: self.rest@,
            text: self.text@,
        }
    }
}

/// What a request target is made of.
#[derive(Debug)]
pub struct ParsedUri {
    pub has_scheme: bool,
    pub has_authority: bool,
    pub path: String,
}

/// A [`ParsedUri`] with its path as a sequence of characters.
pub struct UriView {
    pub has_scheme: bool,
    pub has_authority: bool,
    pub path: Seq<char>,
}

impl View for ParsedUri {
    type V = UriView;

    open spec fn view(&self) -> UriView {
        UriView {
            has_scheme: self.has_scheme,
            has_authority: self.has_authority,
            path: self.path@,
        }
    }
}

/// What `url::Url::parse` makes of a text, or the message of its error.
pub uninterp spec fn parsed_url(s: Seq<char>) -> core::result::Result<UrlView, Seq<char>>;

/// What `http::Uri` makes of a text, or the message of its error.
pub uninterp spec fn parsed_uri(s: Seq<char>) -> core::result::Result<UriView, Seq<char>>;

/// `url::Url::parse`: the parts of the URL or the message of the error, under the name
/// `parsed_url`.
#[verifier::external_body]
pub(crate) fn parse_url(raw: &str) -> (r: core::result::Result<ParsedUrl, String>)
    ensures
        match r {
            Ok(url) => parsed_url(raw@) == core::result::Result::<UrlView, Seq<char>>::Ok(url@),
            Err(message) => parsed_url(raw@) == core::result::Result::<UrlView, Seq<char>>::Err(
                message@,
            ),
        },
{
    let url = url::Url::parse(raw).map_err(|error| error.to_string())?;
    Ok(ParsedUrl {
        scheme: url.scheme().to_owned(),
        username: url.username().to_owned(),
        has_password: url.password().is_some(),
        has_fragment: url.fragment().is_some(),
        port: url.port(),
        host: url.host_str().map(|host| host.to_owned()),
        rest: url[url::Position::BeforePath..url::Position::AfterQuery].to_owned(),
        text: url.as_str().to_owned(),
    })
}

/// `<http::Uri as FromStr>::from_str`: the parts of the request target or the message of the error,
/// under the name `parsed_uri`.
#[verifier::external_body]
pub(crate) fn parse_uri(raw: &str) -> (r: core::result::Result<ParsedUri, String>)
    ensures
        match r {
            Ok(uri) => parsed_uri(raw@) == core::result::Result::<UriView, Seq<char>>::Ok(uri@),
            Err(message) => parsed_uri(raw@) == core::result::Result::<UriView, Seq<char>>::Err(
                message@,
            ),
        },
{
    let uri = raw.parse::<hyper::Uri>().map_err(|error| error.to_string())?;
    Ok(ParsedUri {
        has_scheme: uri.scheme().is_some(),
        has_authority: uri.authority().is_some(),
        path: uri.path().to_owned(),
    })
}

/// Whether two hexadecimal digits follow every percent sign.
pub open spec fn is_percent_encoded(s: Seq<char>) -> bool {
    forall|i: int|
        0 <= i < s.len() && #[trigger] s[i] == '%' ==> i + 2 < s.len() && text::is_hex(s[i + 1])
            && text::is_hex(s[i + 2])
}

/// Whether two hexadecimal digits follow every percent sign.
pub fn has_valid_percent_encoding(s: &str) -> (r: bool)
    ensures
        r == is_percent_encoded(s@),
{
    let v = text::chars_of(s);
    let n: usize = v.len();
    let mut i: usize = 0;
    while i < n
        invariant
            v@ == s@,
            n == v@.len(),
            i <= n,
            forall|j: int|
                0 <= j < i && #[trigger] s@[j] == '%' ==> j + 2 < s@.len() && text::is_hex(
                    s@[j + 1],
                ) && text::is_hex(s@[j + 2]),
        decreases n - i,
    {
        if v[i] == '%' {
            assert(s@[i as int] == '%');
            if n - i <= 2 || !text::is_hex_digit(v[i + 1]) || !text::is_hex_digit(v[i + 2]) {
                return false;
            }
        }
        i = i + 1;
    }
    true
}

/// Whether a text holds whitespace or a control character.
pub open spec fn has_blank(s: Seq<char>) -> bool {
    exists|i: int| 0 <= i < s.len() && (text::is_white(#[trigger] s[i]) || text::is_ctl(s[i]))
}

/// Whether a text holds whitespace or a control character.
fn contains_blank(s: &str) -> (r: bool)
    ensures
        r == has_blank(s@),
{
    for ch in it: s.chars()
        invariant
            it.seq() == s@,
            forall|j: int|
                0 <= j < it.index() ==> !text::is_white(#[trigger] s@[j]) && !text::is_ctl(s@[j]),
    {
        if text::is_whitespace(ch) || text::is_control(ch) {
            assert(s@[it.index()] == ch);
            return true;
        }
    }
    false
}

/// How many characters come before the path, the query or the fragment.
pub open spec fn authority_len(s: Seq<char>) -> int
    decreases s.len(),
{
    if s.len() == 0 || s[0] == '/' || s[0] == '?' || s[0] == '#' {
        0
    } else {
        1 + authority_len(s.skip(1))
    }
}

proof fn lemma_authority_len(s: Seq<char>, i: int)
    requires
        0 <= i <= s.len(),
        forall|j: int| 0 <= j < i ==> #[trigger] s[j] != '/' && s[j] != '?' && s[j] != '#',
        i < s.len() ==> s[i] == '/' || s[i] == '?' || s[i] == '#',
    ensures
        authority_len(s) == i,
    decreases s.len(),
{
    if i > 0 {
        let t = s.skip(1);
        assert(s[0] != '/');
        assert forall|j: int| 0 <= j < i - 1 implies #[trigger] t[j] != '/' && t[j] != '?' && t[j]
            != '#' by {
            assert(t[j] == s[j + 1]);
        }
        lemma_authority_len(t, i - 1);
    }
}

/// The authority that a text begins with.
fn leading_authority(s: &str) -> (r: &str)
    ensures
        r@ == s@.take(authority_len(s@)),
        0 <= authority_len(s@) <= s@.len(),
{
    let v = text::chars_of(s);
    let mut i: usize = 0;
    while i < v.len() && v[i] != '/' && v[i] != '?' && v[i] != '#'
        invariant
            v@ == s@,
            i <= v@.len(),
            forall|j: int| 0 <= j < i ==> #[trigger] s@[j] != '/' && s@[j] != '?' && s@[j] != '#',
        decreases v.len() - i,
    {
        i = i + 1;
    }
    proof {
        lemma_authority_len(s@, i as int);
    }
    let r = s.substring_char(0, i);
    assert(r@ =~= s@.take(i as int));
    r
}

/// Whether a text is `http` or `https`, in any case.
pub open spec fn is_http_scheme(s: Seq<char>) -> bool {
    text::upper_text(s) == "HTTP"@ || text::upper_text(s) == "HTTPS"@
}

/// The message for a URL that is refused.
pub open spec fn url_message(raw: Seq<char>, reason: Seq<char>) -> Seq<char> {
    "invalid URL "@ + raw + ": "@ + reason
}

/// The error of a URL that is refused.
pub open spec fn refused(raw: Seq<char>, reason: Seq<char>) -> Option<ErrorView> {
    error::config_fault(url_message(raw, reason))
}

/// The error of what stands behind `http:` or `https:`: it must be `//`, a host without user info,
/// and a port only with its number.
pub open spec fn rest_fault(raw: Seq<char>, rest: Seq<char>) -> Option<ErrorView> {
    if !text::begins(rest, "//"@) {
        refused(raw, "// must follow the scheme"@)
    } else {
        let authority = rest.skip(2).take(authority_len(rest.skip(2)));
        if authority.contains('@') {
            error::config_fault("URL user info is not supported for security reasons"@)
        } else if authority::lacks_brackets(authority) {
            refused(raw, authority::IPV6_BRACKETS_REQUIRED@)
        } else if authority::host_is_empty(authority) {
            refused(raw, "host must not be empty"@)
        } else {
            match authority::port_of(authority) {
                Some(port) => match authority::port_number(port) {
                    Ok(_) => None,
                    Err(error) => refused(raw, error.text()),
                },
                None => None,
            }
        }
    }
}

/// The error of the text of a URL that a parser would mend in silence.
pub open spec fn url_text_fault(raw: Seq<char>) -> Option<ErrorView> {
    if has_blank(raw) {
        refused(raw, "whitespace and control characters are not allowed"@)
    } else if raw.contains('\\') {
        refused(raw, "backslashes are not allowed"@)
    } else if !is_percent_encoded(raw) {
        refused(raw, "percent signs must be followed by two hexadecimal digits"@)
    } else {
        match text::split_once(raw, ':') {
            Some((scheme, rest)) if is_http_scheme(scheme) => rest_fault(raw, rest),
            _ => None,
        }
    }
}

/// An accepted URL with an `http` or `https` scheme names a host behind `//`, has no user info, and
/// names a port from 1 to 65535 if it names one; none of its characters is a blank or a backslash.
pub proof fn lemma_accepted_url(raw: Seq<char>, scheme: Seq<char>, rest: Seq<char>)
    requires
        url_text_fault(raw) is None,
        text::split_once(raw, ':') == Some((scheme, rest)),
        is_http_scheme(scheme),
    ensures
        !has_blank(raw) && !raw.contains('\\') && is_percent_encoded(raw),
        text::begins(rest, "//"@),
        ({
            let authority = rest.skip(2).take(authority_len(rest.skip(2)));
            &&& !authority.contains('@')
            &&& !authority::host_is_empty(authority)
            &&& authority::port_of(authority) matches Some(port) ==> authority::port_number(
                port,
            ) is Ok
        }),
{
}

/// The error for a URL that is refused.
pub fn invalid_url(raw: &str, reason: &str) -> (r: AppError)
    ensures
        Some(r@) == refused(raw@, reason@),
{
    let mut message = "invalid URL ".to_owned();
    message.append(raw);
    message.append(": ");
    message.append(reason);
    AppError::invalid_config(message)
}

/// The error for a URL with user info.
pub fn user_info_error() -> (r: AppError)
    ensures
        Some(r@) == error::config_fault("URL user info is not supported for security reasons"@),
{
    AppError::invalid_config("URL user info is not supported for security reasons".to_owned())
}

/// What stands behind the scheme must be `//`, a host without user info, and a port only with its
/// number.
fn validate_rest(raw: &str, rest: &str) -> (r: Result<()>)
    ensures
        error::fault(r) == rest_fault(raw@, rest@),
{
    if !text::starts_with(rest, "//") {
        return Err(invalid_url(raw, "// must follow the scheme"));
    }
    proof {
        reveal_strlit("//");
    }
    let n: usize = rest.unicode_len();
    let behind = rest.substring_char(2, n);
    assert(behind@ =~= rest@.skip(2));
    let found = leading_authority(behind);
    if text::has_char(found, '@') {
        return Err(user_info_error());
    }
    if authority::is_unbracketed_ipv6_authority(found) {
        return Err(invalid_url(raw, authority::IPV6_BRACKETS_REQUIRED));
    }
    if authority::raw_host_is_empty(found) {
        return Err(invalid_url(raw, "host must not be empty"));
    }
    if let Some(port) = authority::explicit_port(found) {
        if let Err(error) = authority::validate_port(port) {
            return Err(invalid_url(raw, error.message()));
        }
    }
    Ok(())
}

/// The text of a URL must not be one that a parser would mend in silence.
pub fn validate_url_text(raw: &str) -> (r: Result<()>)
    ensures
        error::fault(r) == url_text_fault(raw@),
{
    if contains_blank(raw) {
        return Err(invalid_url(raw, "whitespace and control characters are not allowed"));
    }
    if text::has_char(raw, '\\') {
        return Err(invalid_url(raw, "backslashes are not allowed"));
    }
    if !has_valid_percent_encoding(raw) {
        return Err(invalid_url(raw, "percent signs must be followed by two hexadecimal digits"));
    }
    if let Some((scheme, rest)) = text::split_once_char(raw, ':') {
        let upper = text::to_upper(scheme);
        if text::same(upper.as_str(), "HTTP") || text::same(upper.as_str(), "HTTPS") {
            return validate_rest(raw, rest);
        }
    }
    Ok(())
}

/// The error of a request path, given what parsing it gives.
pub open spec fn uds_path_fault(
    path: Seq<char>,
    parsed: core::result::Result<UriView, Seq<char>>,
) -> Option<ErrorView> {
    if !text::begins_with(path, '/') {
        error::config_fault("HTTP UDS --path must start with /"@)
    } else if path.contains('#') {
        error::config_fault("HTTP UDS --path must not contain a URL fragment"@)
    } else {
        match parsed {
            Err(message) => error::config_fault("invalid HTTP UDS --path: "@ + message),
            Ok(uri) => if uri.has_scheme || uri.has_authority {
                error::config_fault(
                    "HTTP UDS --path must be an origin-form path, not an absolute URI"@,
                )
            } else if uri.path.len() == 0 {
                error::config_fault("HTTP UDS --path must contain a path"@)
            } else if path.contains('\\') {
                error::config_fault("HTTP UDS --path must not contain backslashes"@)
            } else if !is_percent_encoded(path) {
                error::config_fault("HTTP UDS --path contains invalid percent-encoding"@)
            } else {
                None
            },
        }
    }
}

/// The result of parsing as sequences of characters.
pub open spec fn uri_view(parsed: core::result::Result<ParsedUri, String>) -> core::result::Result<
    UriView,
    Seq<char>,
> {
    match parsed {
        Ok(uri) => Ok(uri@),
        Err(message) => Err(message@),
    }
}

/// Whether a parsed request path can be used over a Unix socket.
pub fn accept_uds_path(path: &str, parsed: core::result::Result<ParsedUri, String>) -> (r: Result<()>)
    ensures
        error::fault(r) == uds_path_fault(path@, uri_view(parsed)),
{
    if !text::starts_with_char(path, '/') {
        return Err(AppError::invalid_config("HTTP UDS --path must start with /".to_owned()));
    }
    if text::has_char(path, '#') {
        return Err(
            AppError::invalid_config("HTTP UDS --path must not contain a URL fragment".to_owned()),
        );
    }
    match parsed {
        Err(reason) => {
            let mut message = "invalid HTTP UDS --path: ".to_owned();
            message.append(reason.as_str());
            Err(AppError::invalid_config(message))
        },
        Ok(uri) => {
            if uri.has_scheme || uri.has_authority {
                return Err(
                    AppError::invalid_config(
                        "HTTP UDS --path must be an origin-form path, not an absolute URI".to_owned(),
                    ),
                );
            }
            if uri.path.as_str().is_empty() {
                return Err(
                    AppError::invalid_config("HTTP UDS --path must contain a path".to_owned()),
                );
            }
            if text::has_char(path, '\\') {
                return Err(
                    AppError::invalid_config("HTTP UDS --path must not contain backslashes".to_owned()),
                );
            }
            if !has_valid_percent_encoding(path) {
                return Err(
                    AppError::invalid_config(
                        "HTTP UDS --path contains invalid percent-encoding".to_owned(),
                    ),
                );
            }
            Ok(())
        },
    }
}

/// A request path over a Unix socket must be an absolute path without a fragment.
pub fn validate_uds_path(path: &str) -> (r: Result<()>)
    ensures
        error::fault(r) == uds_path_fault(path@, parsed_uri(path@)),
{
    accept_uds_path(path, parse_uri(path))
}

} // verus!
