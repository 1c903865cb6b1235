//! Names and values of HTTP headers.

use crate::text;
use hyper::header::HeaderValue;
use hyper::HeaderMap;
use vstd::prelude::*;

verus! {

/// The headers of a message, as `http` keeps them.
#[verifier::external_type_specification]
#[verifier::external_body]
#[verifier::reject_recursive_types(T)]
pub struct ExHeaderMap<T>(HeaderMap<T>);

/// The value of a header, as `http` keeps it.
#[verifier::external_type_specification]
#[verifier::external_body]
pub struct ExHeaderValue(HeaderValue);

/// The values of each header of a message, under the name of the header in lower case.
pub uninterp spec fn header_contents(headers: HeaderMap<HeaderValue>) -> Map<
    Seq<char>,
    Seq<Seq<u8>>,
>;

/// Whether `c` may stand in the name of a header.
pub open spec fn is_token_char(c: char) -> bool {
    ||| text::is_digit(c)
    ||| text::is_letter(c)
    ||| c == '!' || c == '#' || c == '$' || c == '%' || c == '&' || c == '\'' || c == '*'
    ||| c == '+' || c == '-' || c == '.' || c == '^' || c == '_' || c == '`' || c == '|'
    ||| c == '~'
}

/// Whether a text is the name of a header: 1 to 65535 token characters.
pub open spec fn is_header_name(s: Seq<char>) -> bool {
    1 <= s.len() <= 65535 && forall|i: int| 0 <= i < s.len() ==> is_token_char(#[trigger] s[i])
}

/// Whether a text can be the value of a header: no control character but the tab.
pub open spec fn is_header_value(s: Seq<char>) -> bool {
    forall|i: int|
        0 <= i < s.len() ==> #[trigger] s[i] == '\t' || (s[i] >= ' ' && s[i] != '\u{7f}')
}

/// `http::HeaderName::from_bytes` on the bytes of a text: the name in lower case, exactly when the
/// text is the name of a header; else the message of the error.
#[verifier::external_body]
pub(crate) fn parse_name(raw: &str) -> (r: core::result::Result<String, String>)
    ensures
        match r {
            Ok(name) => is_header_name(raw@) && name@ == text::lower_text(raw@),
            Err(message) => !is_header_name(raw@) && message@ == "invalid HTTP header name"@,
        },
{
    match hyper::header::HeaderName::from_bytes(raw.as_bytes()) {
        Ok(name) => Ok(name.as_str().to_owned()),
        Err(error) => Err(error.to_string()),
    }
}

/// `http::HeaderValue::from_str`: accepts exactly the texts that can be the value of a header; else
/// the message of the error.
#[verifier::external_body]
pub(crate) fn check_value(raw: &str) -> (r: core::result::Result<(), String>)
    ensures
        match r {
            Ok(_) => is_header_value(raw@),
            Err(message) => !is_header_value(raw@) && message@ == "failed to parse header value"@,
        },
{
    match HeaderValue::from_str(raw) {
        Ok(_) => Ok(()),
        Err(error) => Err(error.to_string()),
    }
}

/// The bytes of each value.
pub open spec fn byte_views(values: Seq<Vec<u8>>) -> Seq<Seq<u8>> {
    Seq::new(values.len(), |i: int| values[i]@)
}

/// The values of the header with this name, in any case.
pub open spec fn values_under(headers: HeaderMap<HeaderValue>, name: Seq<char>) -> Seq<Seq<u8>> {
    if header_contents(headers).dom().contains(text::lower_text(name)) {
        header_contents(headers)[text::lower_text(name)]
    } else {
        Seq::empty()
    }
}

/// `http::HeaderMap::get_all` on a text: the bytes of all values of the header with this name, in
/// their order; none when there is no such header, as for a text that is no name. Upper and lower
/// case make no difference.
#[verifier::external_body]
pub(crate) fn values_of(headers: &HeaderMap<HeaderValue>, name: &str) -> (r: Vec<Vec<u8>>)
    ensures
        byte_views(r@) == if header_contents(*headers).dom().contains(text::lower_text(name@)) {
            header_contents(*headers)[text::lower_text(name@)]
        } else {
            Seq::empty()
        },
{
    headers.get_all(name).iter().map(|value| value.as_bytes().to_vec()).collect()
}

} // verus!
