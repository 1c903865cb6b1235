//! Laws of the HTTP request: what is refused, where it goes and what it holds.

use crate::authority;
use crate::authority::PortPolicy;
use crate::cli::HttpArgs;
use crate::cli::TlsArgs;
use crate::headers;
use crate::laws::response;
use crate::laws::texts;
use crate::number;
use crate::probes::http;
use crate::probes::http::{Method, PreparedHttpArgs, UnixTarget, UrlTarget};
use crate::text;
use crate::tls;
use crate::tls::BundledRoots;
use crate::url_text;
use crate::url_text::UrlView;
use vstd::prelude::*;

verus! {

/// Without an override, the `Host` of a URL with a port that is not the default of its scheme (80 of
/// http, 443 of https) is the host, a colon and the digits of the port. It is the bare host exactly
/// where there is no port or the port is that default.
pub proof fn lemma_host_shows_the_port(url: UrlView, host: Seq<char>)
    requires
        url.host == Some(host),
        url.scheme == "http"@ || url.scheme == "https"@,
    ensures
        url.port matches Some(port) ==> (url.scheme == "http"@ ==> port != 80) && (url.scheme
            == "https"@ ==> port != 443) ==> http::url_host(url, None) == host + ":"@
            + number::digits(port as nat),
        http::url_host(url, None) == host <==> {
            ||| url.port is None
            ||| url.scheme == "http"@ && url.port == Some(80u16)
            ||| url.scheme == "https"@ && url.port == Some(443u16)
        },
{
    reveal_strlit("http");
    reveal_strlit("https");
    reveal_strlit(":");
    assert("http"@.len() != "https"@.len());
    if let Some(port) = url.port {
        assert((host + ":"@ + number::digits(port as nat)).len() > host.len());
    }
}

/// URLs that differ in the port alone, neither of them the default, have different `Host`s.
pub proof fn lemma_hosts_tell_ports_apart(a: UrlView, b: UrlView, p: u16, q: u16)
    requires
        a.scheme == "http"@ || a.scheme == "https"@,
        b.scheme == a.scheme,
        a.host is Some,
        b.host == a.host,
        a.port == Some(p),
        b.port == Some(q),
        p != q,
        p != 80 && p != 443 && q != 80 && q != 443,
    ensures
        http::url_host(a, None) != http::url_host(b, None),
{
    let host = a.host->0;
    lemma_host_shows_the_port(a, host);
    lemma_host_shows_the_port(b, host);
    number::lemma_digits_read_back(p as nat);
    number::lemma_digits_read_back(q as nat);
    let front = host + ":"@;
    let n = front.len() as int;
    if front + number::digits(p as nat) == front + number::digits(q as nat) {
        assert((front + number::digits(p as nat)).skip(n) =~= number::digits(p as nat));
        assert((front + number::digits(q as nat)).skip(n) =~= number::digits(q as nat));
    }
}

/// An override is what `Host` says, without white space around it, whatever the URL; and it changes
/// neither the endpoint that is connected to nor the label nor whether TLS is used.
pub proof fn lemma_override_names_the_host(
    target: UrlTarget,
    other: UrlTarget,
    raw: Seq<char>,
    parsed: core::result::Result<UrlView, Seq<char>>,
    host: String,
)
    requires
        http::is_url_target(target, raw, parsed, Some(host)),
        http::is_url_target(other, raw, parsed, None),
    ensures
        target.host@ == text::trim_spec(host@),
        target.endpoint@ == other.endpoint@,
        target.endpoint@ == parsed->Ok_0.text,
        target.label@ == raw,
        other.label@ == raw,
        target.uses_tls == other.uses_tls,
        target.uses_tls <==> parsed->Ok_0.scheme == "https"@,
        other.request_uri@ == parsed->Ok_0.text,
        target.request_uri@ == parsed->Ok_0.scheme + "://"@ + target.host@ + parsed->Ok_0.rest,
        other.host@ == http::url_host(parsed->Ok_0, None),
{
}

/// Over a socket, the socket and the path are those of the arguments, and `Host` is the override
/// without white space around it, or `localhost` where there is none.
pub proof fn lemma_socket_request(
    target: UnixTarget,
    sock: Seq<u8>,
    path: Seq<char>,
    args: HttpArgs,
)
    requires
        http::is_unix_target(target, sock, path, args),
    ensures
        target.sock@ == sock,
        target.path@ == path,
        args.host matches Some(raw) ==> target.host@ == text::trim_spec(raw@),
        args.host is None ==> target.host@ == "localhost"@,
{
}

/// GET and HEAD are the methods, whatever the case of their letters and the white space around.
pub proof fn lemma_methods(raw: Seq<char>)
    ensures
        http::method_of(raw) == Some(Method::Get) <==> text::lower_text(text::trim_spec(raw))
            == "get"@,
        http::method_of(raw) == Some(Method::Head) <==> text::lower_text(text::trim_spec(raw))
            == "head"@,
        http::method_fault(raw) is None <==> http::method_of(raw) is Some,
        http::method_fault(raw) matches Some(e) ==> e is InvalidConfig,
{
    let s = text::trim_spec(raw);
    reveal_strlit("get");
    reveal_strlit("head");
    reveal_strlit("GET");
    reveal_strlit("HEAD");
    texts::lemma_case_does_not_matter(s);
    assert(text::lower_text("GET"@) =~= "get"@);
    assert(text::lower_text("HEAD"@) =~= "head"@);
    assert(text::upper_text("get"@) =~= "GET"@);
    assert(text::upper_text("head"@) =~= "HEAD"@);
    assert("GET"@.len() != "HEAD"@.len());
}

proof fn lemma_lower_name(s: Seq<char>)
    ensures
        headers::is_header_name(text::lower_text(s)) <==> headers::is_header_name(s),
{
    let t = text::lower_text(s);
    assert forall|i: int| 0 <= i < s.len() implies headers::is_token_char(#[trigger] s[i])
        == headers::is_token_char(t[i]) by {
    }
    if headers::is_header_name(t) {
        assert forall|i: int| 0 <= i < s.len() implies headers::is_token_char(#[trigger] s[i]) by {
            assert(headers::is_token_char(t[i]));
        }
    }
    if headers::is_header_name(s) {
        assert forall|i: int| 0 <= i < t.len() implies headers::is_token_char(#[trigger] t[i]) by {
            assert(headers::is_token_char(s[i]));
        }
    }
}

/// A header can be sent exactly where it is `name:value` with a name and a value that a header can
/// have, and the name is none of those that the request sets itself or that govern the connection.
pub proof fn lemma_sendable_header(raw: Seq<char>)
    ensures
        http::header_fault(raw) is None <==> exists|name: Seq<char>, value: Seq<char>| #[trigger]
            response::speaks_of(raw, name, value) && headers::is_header_name(name)
                && headers::is_header_value(value) && name != "host"@ && name != "content-length"@
                && name != "transfer-encoding"@ && name != "connection"@ && name
                != "proxy-connection"@,
        http::header_fault(raw) matches Some(e) ==> e is InvalidConfig,
{
    texts::lemma_split_is_at_the_first(raw, ':');
    if raw.contains(':') {
        response::lemma_speaks_of_one(raw);
        let (before, after) = text::split_once(raw, ':')->0;
        lemma_lower_name(text::trim_spec(before));
        let (name, value) = choose|name: Seq<char>, value: Seq<char>|
            response::speaks_of(raw, name, value);
        assert(response::speaks_of(raw, name, value));
    } else {
        lemma_silent(raw);
    }
}

proof fn lemma_silent(raw: Seq<char>)
    requires
        !raw.contains(':'),
    ensures
        forall|name: Seq<char>, value: Seq<char>| !#[trigger] response::speaks_of(raw, name, value),
{
    assert forall|name: Seq<char>, value: Seq<char>| !#[trigger]
        response::speaks_of(raw, name, value) by {
        if response::speaks_of(raw, name, value) {
            let (b, a) = choose|b: Seq<char>, a: Seq<char>|
                raw == #[trigger] (b + seq![':'] + a) && !b.contains(':') && name
                    == text::lower_text(text::trim_spec(b)) && value == text::trim_spec(a);
            assert((b + seq![':'] + a)[b.len() as int] == ':');
        }
    }
}

/// Something can be asked of a header of the response exactly where it is `name:value` with a name
/// that a header can have, and with a value unless an empty one makes sense.
pub proof fn lemma_askable_header(raw: Seq<char>, flag: Seq<char>, allow_empty: bool)
    ensures
        http::assertion_fault(raw, flag, allow_empty) is None <==> exists|
            name: Seq<char>,
            value: Seq<char>,
        | #[trigger]
            response::speaks_of(raw, name, value) && headers::is_header_name(name) && (allow_empty
                || value.len() > 0),
        http::assertion_fault(raw, flag, allow_empty) matches Some(e) ==> e is InvalidConfig,
{
    texts::lemma_split_is_at_the_first(raw, ':');
    if raw.contains(':') {
        response::lemma_speaks_of_one(raw);
        let (before, after) = text::split_once(raw, ':')->0;
        lemma_lower_name(text::trim_spec(before));
        let (name, value) = choose|name: Seq<char>, value: Seq<char>|
            response::speaks_of(raw, name, value);
        assert(response::speaks_of(raw, name, value));
    } else {
        lemma_silent(raw);
    }
}

/// A status can be asked for exactly where some code from 100 to 599 is admitted, and none outside,
/// by a number or by two numbers with a hyphen between.
pub proof fn lemma_status_range(raw: Seq<char>)
    requires
        http::range_fault(raw) is None,
    ensures
        exists|code: int| #[trigger] response::admits(raw, code),
        forall|code: int| #[trigger] response::admits(raw, code) ==> 100 <= code <= 599,
        forall|a: int, b: int, code: int|
            #![trigger response::admits(raw, a), response::admits(raw, b), response::admits(raw, code)]
            response::admits(raw, a) && response::admits(raw, b) && a <= code <= b
                ==> response::admits(raw, code),
{
    http::lemma_ranges_are_status_codes(raw);
    assert forall|code: int|
        (#[trigger] response::admits(raw, code) <==> http::range_values(raw).0 <= code
            <= http::range_values(raw).1) by {
        response::lemma_range_admits(raw, code);
    }
    assert(response::admits(raw, http::range_values(raw).0 as int));
}

/// A status can be asked for exactly where it is written as a number from 100 to 599, or as two such
/// numbers that do not fall, with a hyphen between.
pub proof fn lemma_status_text(raw: Seq<char>)
    ensures
        http::range_fault(raw) is None <==> {
            ||| number::unsigned_value(text::trim_spec(raw)) matches Some(code) && 100 <= code <= 599
            ||| exists|before: Seq<char>, after: Seq<char>|
                {
                    &&& raw == #[trigger] (before + seq!['-'] + after)
                    &&& !before.contains('-')
                    &&& number::unsigned_value(text::trim_spec(before)) matches Some(low)
                    &&& number::unsigned_value(text::trim_spec(after)) matches Some(high)
                    &&& 100 <= low <= high <= 599
                }
        },
        http::range_fault(raw) matches Some(e) ==> e is InvalidConfig,
{
    texts::lemma_split_is_at_the_first(raw, '-');
    match text::split_once(raw, '-') {
        Some((before, after)) => {
            assert((before + seq!['-'] + after)[before.len() as int] == '-');
            assert(raw.contains('-'));
            response::lemma_hyphen_is_no_number(raw);
            assert(raw == before + seq!['-'] + after);
            assert forall|b: Seq<char>, a: Seq<char>|
                raw == #[trigger] (b + seq!['-'] + a) && !b.contains('-') implies b == before && a
                == after by {
                response::lemma_split_at(raw, '-', b, a);
            }
        },
        None => {
            assert forall|b: Seq<char>, a: Seq<char>| raw == #[trigger] (b + seq!['-'] + a) implies
                false by {
                assert((b + seq!['-'] + a)[b.len() as int] == '-');
                assert(raw.contains('-'));
            }
        },
    }
}

/// The arguments can be prepared exactly where the method is known, every header can be sent,
/// everything that is asked of the headers can be asked, and every status can be.
pub proof fn lemma_sound_headers(args: HttpArgs)
    ensures
        http::prepared_fault(args) is None <==> {
            &&& http::method_fault(args.method@) is None
            &&& forall|i: int|
                0 <= i < args.header@.len() ==> http::header_fault((#[trigger] args.header@[i])@)
                    is None
            &&& forall|i: int|
                0 <= i < args.header_present@.len() ==> headers::is_header_name(
                    text::trim_spec((#[trigger] args.header_present@[i])@),
                )
            &&& forall|i: int|
                0 <= i < args.header_equals@.len() ==> http::assertion_fault(
                    (#[trigger] args.header_equals@[i])@,
                    "--header-equals"@,
                    true,
                ) is None
            &&& forall|i: int|
                0 <= i < args.header_contains@.len() ==> http::assertion_fault(
                    (#[trigger] args.header_contains@[i])@,
                    "--header-contains"@,
                    false,
                ) is None
            &&& forall|i: int|
                0 <= i < args.header_not_contains@.len() ==> http::assertion_fault(
                    (#[trigger] args.header_not_contains@[i])@,
                    "--header-not-contains"@,
                    false,
                ) is None
            &&& forall|i: int|
                0 <= i < args.status@.len() ==> http::range_fault((#[trigger] args.status@[i])@)
                    is None
        },
        http::prepared_fault(args) matches Some(e) ==> e is InvalidConfig,
{
    let equals = http::assertion_check("--header-equals"@, true);
    let contains = http::assertion_check("--header-contains"@, false);
    let absent = http::assertion_check("--header-not-contains"@, false);
    texts::lemma_first_element_counts(args.header@, http::header_check());
    texts::lemma_first_element_counts(args.header_present@, http::present_check());
    texts::lemma_first_element_counts(args.header_equals@, equals);
    texts::lemma_first_element_counts(args.header_contains@, contains);
    texts::lemma_first_element_counts(args.header_not_contains@, absent);
    texts::lemma_first_element_counts(args.status@, http::range_check());
    let header = http::header_check();
    let present = http::present_check();
    let range = http::range_check();
    assert forall|i: int| 0 <= i < args.header@.len() implies header(#[trigger] args.header@[i])
        == http::header_fault(args.header@[i]@) by {
    }
    assert forall|i: int| 0 <= i < args.header_present@.len() implies (present(
        #[trigger] args.header_present@[i],
    ) is None <==> headers::is_header_name(text::trim_spec(args.header_present@[i]@))) by {
    }
    assert forall|i: int| 0 <= i < args.header_equals@.len() implies equals(
        #[trigger] args.header_equals@[i],
    ) == http::assertion_fault(args.header_equals@[i]@, "--header-equals"@, true) by {
    }
    assert forall|i: int| 0 <= i < args.header_contains@.len() implies contains(
        #[trigger] args.header_contains@[i],
    ) == http::assertion_fault(args.header_contains@[i]@, "--header-contains"@, false) by {
    }
    assert forall|i: int| 0 <= i < args.header_not_contains@.len() implies absent(
        #[trigger] args.header_not_contains@[i],
    ) == http::assertion_fault(args.header_not_contains@[i]@, "--header-not-contains"@, false) by {
    }
    assert forall|i: int| 0 <= i < args.status@.len() implies range(#[trigger] args.status@[i])
        == http::range_fault(args.status@[i]@) by {
    }
}

/// A request has one `host`, as its first header. It has a `user-agent` whatever is given: the one
/// that is given, or that of the tool. What is given ends it, all of it and in the order given.
pub proof fn lemma_request_holds_what_is_given(
    host: Seq<char>,
    given: Seq<(Seq<char>, Seq<char>)>,
)
    ensures
        ({
            let all = http::all_headers(host, given);
            let own = all.len() - given.len();
            &&& all[0] == ("host"@, host)
            &&& own == 1 || own == 2
            &&& all.skip(own) == given
            &&& exists|i: int| 0 <= i < all.len() && (#[trigger] all[i]).0 == "user-agent"@
            &&& own == 1 <==> exists|i: int|
                0 <= i < given.len() && (#[trigger] given[i]).0 == "user-agent"@
            &&& own == 2 ==> all[1] == ("user-agent"@, "salus/0.1.0"@)
        }),
{
    let all = http::all_headers(host, given);
    let own = all.len() - given.len();
    assert(all.skip(own) =~= given);
    if http::has_header(given, "user-agent"@) {
        let i = choose|i: int| 0 <= i < given.len() && (#[trigger] given[i]).0 == "user-agent"@;
        assert(all[i + 1] == given[i]);
    } else {
        assert(all[1].0 == "user-agent"@);
    }
}

/// What the arguments give as a header is what is sent, name and value, in the order given; and the
/// method is the one that they name.
pub proof fn lemma_headers_are_sent(args: HttpArgs, prepared: PreparedHttpArgs, host: Seq<char>)
    requires
        http::prepared_fault(args) is None,
        http::is_prepared(prepared, args),
    ensures
        ({
            let all = http::all_headers(host, http::header_views(prepared.headers@));
            let own = all.len() - args.header@.len();
            &&& own == 1 || own == 2
            &&& forall|i: int, name: Seq<char>, value: Seq<char>|
                0 <= i < args.header@.len() && #[trigger] response::speaks_of(
                    args.header@[i]@,
                    name,
                    value,
                ) ==> all[own + i] == (name, value)
        }),
        prepared.method is Get <==> text::lower_text(text::trim_spec(args.method@)) == "get"@,
        prepared.method is Head <==> text::lower_text(text::trim_spec(args.method@)) == "head"@,
{
    let given = http::header_views(prepared.headers@);
    lemma_request_holds_what_is_given(host, given);
    lemma_sound_headers(args);
    lemma_methods(args.method@);
    let all = http::all_headers(host, given);
    let own = all.len() - given.len();
    assert forall|i: int, name: Seq<char>, value: Seq<char>|
        0 <= i < args.header@.len() && #[trigger] response::speaks_of(
            args.header@[i]@,
            name,
            value,
        ) implies all[own + i] == (name, value) by {
        let raw = args.header@[i]@;
        assert(http::header_fault(raw) is None);
        texts::lemma_split_is_at_the_first(raw, ':');
        response::lemma_speaks_of_one(raw);
        assert(prepared.headers@[i].name@ == name && prepared.headers@[i].value@ == value);
        assert(all.skip(own)[i] == given[i]);
    }
}

/// Whether anything is asked of the body.
pub open spec fn asks_of_body(args: HttpArgs) -> bool {
    args.body_equals is Some || args.contains@.len() > 0 || args.not_contains@.len() > 0
}

/// What is asked of the body can be asked exactly where no text to look for is empty, the method is
/// known and, where something is asked at all, is not HEAD and keeps between one byte and 16 MiB.
pub proof fn lemma_sound_body(args: HttpArgs)
    ensures
        http::body_args_fault(args) is None <==> {
            &&& forall|i: int|
                0 <= i < args.contains@.len() ==> (#[trigger] args.contains@[i])@.len() > 0
            &&& forall|i: int|
                0 <= i < args.not_contains@.len() ==> (#[trigger] args.not_contains@[i])@.len() > 0
            &&& http::method_of(args.method@) is Some
            &&& asks_of_body(args) ==> 1 <= args.max_body <= 16 * 1024 * 1024
                && text::lower_text(text::trim_spec(args.method@)) != "head"@
        },
        http::body_args_fault(args) matches Some(e) ==> e is InvalidConfig,
{
    lemma_methods(args.method@);
}

/// There is exactly one server: a URL and nothing of a socket, or a socket with a path that can be
/// asked for and nothing of TLS.
pub proof fn lemma_one_server(args: HttpArgs)
    ensures
        http::server_fault(args) is None <==> {
            ||| args.url is Some && args.sock is None && args.path is None
            ||| args.url is None && (args.sock matches Some(sock) && sock@.len() > 0) && (args.path
                matches Some(path) && url_text::uds_path_fault(
                path@,
                url_text::parsed_uri(path@),
            ) is None) && args.tls.ca is None && args.tls.cert is None && args.tls.key is None
                && args.tls.server_name is None && !args.tls.insecure_skip_verify
        },
        http::server_fault(args) matches Some(e) ==> e is InvalidConfig,
{
}

/// A path over a socket is one that begins with a slash, is the path of a request and not an
/// absolute URI, and has no fragment, no backslash and no broken escape.
pub proof fn lemma_socket_path(
    path: Seq<char>,
    parsed: core::result::Result<url_text::UriView, Seq<char>>,
)
    ensures
        url_text::uds_path_fault(path, parsed) is None <==> {
            &&& path.len() > 0 && path[0] == '/'
            &&& !path.contains('#')
            &&& !path.contains('\\')
            &&& forall|i: int|
                0 <= i < path.len() && #[trigger] path[i] == '%' ==> i + 2 < path.len()
                    && text::is_hex(path[i + 1]) && text::is_hex(path[i + 2])
            &&& parsed matches Ok(uri) && !uri.has_scheme && !uri.has_authority && uri.path.len() > 0
        },
        url_text::uds_path_fault(path, parsed) matches Some(e) ==> e is InvalidConfig,
{
}

/// A URL is accepted exactly where it can be parsed, is http or https, has no user, password or
/// fragment and no port 0, is well written, gives a `Host` that can be sent, and has TLS options that
/// are sound with https and none with http.
pub proof fn lemma_accepted_url(
    raw: Seq<char>,
    parsed: core::result::Result<UrlView, Seq<char>>,
    host: Option<String>,
    tls: TlsArgs,
    roots: BundledRoots,
)
    ensures
        http::url_fault(raw, parsed, host, tls, roots) is None <==> {
            &&& parsed matches Ok(url)
            &&& url.scheme == "http"@ || url.scheme == "https"@
            &&& url.username.len() == 0 && !url.has_password && !url.has_fragment
            &&& url.port != Some(0u16)
            &&& url_text::url_text_fault(raw) is None
            &&& host is None ==> url.host is Some
            &&& host matches Some(given) ==> text::trim_spec(given@).len() > 0
            &&& authority::authority_reason(
                http::url_host(url, host),
                PortPolicy::Optional,
                authority::parsed_authority(http::url_host(url, host)),
            ) is None
            &&& url.scheme == "https"@ ==> tls::options_fault(tls, roots) is None
            &&& url.scheme == "http"@ ==> tls.ca is None && tls.cert is None && tls.key is None
                && tls.server_name is None && !tls.insecure_skip_verify
        },
        http::url_fault(raw, parsed, host, tls, roots) matches Some(e) ==> e is InvalidConfig,
{
    reveal_strlit("http");
    reveal_strlit("https");
    assert("http"@.len() != "https"@.len());
}

/// A request is planned exactly where the server, the body, the headers and the target are each
/// sound; and where it is not, the configuration is at fault.
pub proof fn lemma_planned_request(args: HttpArgs, roots: BundledRoots)
    ensures
        http::plan_fault(args, roots) is None <==> http::server_fault(args) is None
            && http::body_args_fault(args) is None && http::prepared_fault(args) is None
            && http::target_fault(args, roots) is None,
        http::plan_fault(args, roots) matches Some(e) ==> e is InvalidConfig,
        args.sock is None ==> (args.url matches Some(raw) ==> http::target_fault(args, roots)
            == http::url_fault(raw@, url_text::parsed_url(raw@), args.host, args.tls, roots)),
        args.sock is Some ==> (http::target_fault(args, roots) is None <==> (args.host matches Some(
            raw,
        ) ==> text::trim_spec(raw@).len() > 0 && authority::authority_reason(
            text::trim_spec(raw@),
            PortPolicy::Optional,
            authority::parsed_authority(text::trim_spec(raw@)),
        ) is None)),
{
    lemma_one_server(args);
    lemma_sound_body(args);
    lemma_sound_headers(args);
    let raw = args.url->0@;
    lemma_accepted_url(raw, url_text::parsed_url(raw), args.host, args.tls, roots);
}

} // verus!
