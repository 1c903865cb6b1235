use hyper::header::{HeaderMap, HeaderName, HeaderValue};
use salus::cli::{HttpArgs, TlsArgs};
use salus::error::AppError;
use salus::os_text::OsText;
use salus::probe::ProbeOptions;
use salus::probes::http::{
    accept_url, default_host_header, evaluate_head, evaluate_response, exchange_error, parse_header_assertions,
    parse_header_names, parse_headers, parse_method, parse_status_code, parse_status_ranges, plan,
    report, request_headers, ExchangeFault, HttpTarget, Method, PreparedHttpArgs,
};
use salus::probes::http_body::{BodyReader, BodySize, BodyStep};
use salus::timing::Span;
use salus::tls::BundledRoots;
use salus::url_text::{accept_uds_path, has_valid_percent_encoding, ParsedUri, ParsedUrl};

const TARGET: &str = "http://a.test/healthz";

fn http() -> HttpArgs {
    HttpArgs {
        url: None,
        sock: None,
        path: None,
        method: "GET".to_string(),
        header: Vec::new(),
        host: None,
        status: Vec::new(),
        header_present: Vec::new(),
        header_equals: Vec::new(),
        header_contains: Vec::new(),
        header_not_contains: Vec::new(),
        body_equals: None,
        contains: Vec::new(),
        not_contains: Vec::new(),
        tls: TlsArgs::default(),
        max_body: 65_536,
    }
}

fn with_url(url: &str) -> HttpArgs {
    HttpArgs {
        url: Some(url.to_string()),
        ..http()
    }
}

fn local() -> HttpArgs {
    with_url("http://127.0.0.1:9/healthz")
}

fn with_sock(sock: &str, path: Option<&str>) -> HttpArgs {
    HttpArgs {
        sock: Some(OsText::new(sock)),
        path: path.map(|path| path.to_string()),
        ..http()
    }
}

fn strings(values: &[&str]) -> Vec<String> {
    values.iter().map(|value| value.to_string()).collect()
}

fn refusal(args: &HttpArgs) -> AppError {
    let error = plan(args, BundledRoots::Included).unwrap_err();
    assert_eq!(error.exit_code(), 3);
    error
}

fn refused_url(url: &str) -> String {
    refusal(&with_url(url)).to_string()
}

fn refused_header(header: &str) -> String {
    let mut args = local();
    args.header = strings(&[header]);
    refusal(&args).to_string()
}

fn refused_host(host: &str) -> String {
    let mut args = local();
    args.host = Some(host.to_string());
    refusal(&args).to_string()
}

fn planned_host(args: &HttpArgs) -> String {
    match plan(args, BundledRoots::Included).unwrap().target {
        HttpTarget::Url(target) => target.host,
        HttpTarget::Unix(target) => target.host,
    }
}

fn response(headers: &[(&str, &[u8])]) -> HeaderMap<HeaderValue> {
    let mut map = HeaderMap::new();
    for (name, value) in headers {
        map.append(
            HeaderName::from_bytes(name.as_bytes()).unwrap(),
            HeaderValue::from_bytes(value).unwrap(),
        );
    }
    map
}

fn head(args: &HttpArgs, status: u16, headers: &[(&str, &[u8])]) -> Result<(), AppError> {
    let prepared = PreparedHttpArgs::from_args(args).unwrap();
    evaluate_head(status, &response(headers), &prepared, TARGET)
}

const UNKNOWN: BodySize = BodySize {
    upper: None,
    exact: None,
};

fn declared(length: u64) -> BodySize {
    BodySize {
        upper: Some(length),
        exact: Some(length),
    }
}

fn body(args: &HttpArgs, size: BodySize, bytes: &[u8]) -> Result<(), AppError> {
    let mut results = Vec::new();
    for chunk in [1, 3, bytes.len() + 1] {
        let mut reader = BodyReader::new(args, size);
        let mut rest = bytes;
        while reader.step() != BodyStep::Done {
            if rest.is_empty() {
                reader.on_end();
            } else {
                let (now, later) = rest.split_at(chunk.min(rest.len()));
                rest = later;
                reader.on_data(now);
            }
        }
        results.push(reader.assert_response_body(args, TARGET));
    }
    let last = results.pop().unwrap();
    for result in results {
        assert_eq!(
            result.err().map(|error| error.to_string()),
            last.as_ref().err().map(|error| error.to_string())
        );
    }
    last
}

fn open_body(args: &HttpArgs, size: BodySize, bytes: &[u8]) -> (BodyStep, Result<(), AppError>) {
    let mut reader = BodyReader::new(args, size);
    reader.on_data(bytes);
    let step = reader.step();
    if step == BodyStep::AwaitEnd {
        reader.on_grace_elapsed();
        assert_eq!(reader.step(), BodyStep::Done);
    }
    (step, reader.assert_response_body(args, TARGET))
}

#[test]
fn default_host_header_preserves_ipv6_brackets() {
    let url = url::Url::parse("http://[::1]:8080/healthz").unwrap();
    let parsed = ParsedUrl {
        scheme: url.scheme().to_string(),
        username: url.username().to_string(),
        has_password: url.password().is_some(),
        has_fragment: url.fragment().is_some(),
        port: url.port(),
        host: url.host_str().map(|host| host.to_string()),
        rest: url[url::Position::BeforePath..url::Position::AfterQuery].to_string(),
        text: url.to_string(),
    };

    assert_eq!(default_host_header(&parsed, &None).unwrap(), "[::1]:8080");
}

#[test]
fn the_host_header_leaves_out_default_ports() {
    assert_eq!(planned_host(&with_url("http://example.test/")), "example.test");
    assert_eq!(planned_host(&with_url("http://example.test:80/")), "example.test");
    assert_eq!(planned_host(&with_url("https://example.test:443/")), "example.test");
    assert_eq!(planned_host(&with_url("http://example.test:443/")), "example.test:443");
    assert_eq!(planned_host(&with_url("http://EXAMPLE.test:8080")), "example.test:8080");
    assert_eq!(planned_host(&with_sock("/tmp/s", Some("/"))), "localhost");

    let mut args = with_sock("/tmp/s", Some("/healthz"));
    args.host = Some("other.test:81".to_string());
    assert_eq!(planned_host(&args), "other.test:81");
    let mut args = local();
    args.host = Some("[::1]:81".to_string());
    assert_eq!(planned_host(&args), "[::1]:81");
}

#[test]
fn targets_are_planned() {
    match plan(&with_url("https://a.test/x?q=1"), BundledRoots::Included).unwrap().target {
        HttpTarget::Url(target) => {
            assert_eq!(target.label, "https://a.test/x?q=1");
            assert_eq!(target.endpoint, "https://a.test/x?q=1");
            assert_eq!(target.request_uri, "https://a.test/x?q=1");
            assert!(target.uses_tls);
        }
        HttpTarget::Unix(_) => panic!(),
    }
    match plan(&with_sock("/tmp/a b", Some("/x?q=1")), BundledRoots::Omitted).unwrap().target {
        HttpTarget::Unix(target) => {
            assert_eq!(target.label, "unix:/tmp/a b/x?q=1");
            assert_eq!(target.path, "/x?q=1");
            assert_eq!(target.sock.bytes, b"/tmp/a b");
        }
        HttpTarget::Url(_) => panic!(),
    }
}

#[test]
fn a_host_override_is_named_in_the_request_and_not_connected_to() {
    let mut args = with_url("https://127.0.0.1:8443/x?q=1");
    args.host = Some(" example.test ".to_string());

    match plan(&args, BundledRoots::Included).unwrap().target {
        HttpTarget::Url(target) => {
            assert_eq!(target.endpoint, "https://127.0.0.1:8443/x?q=1");
            assert_eq!(target.request_uri, "https://example.test/x?q=1");
            assert_eq!(target.host, "example.test");
        }
        HttpTarget::Unix(_) => panic!(),
    }
}

#[test]
fn a_socket_that_is_no_text_is_labelled_as_well_as_can_be() {
    let mut args = with_sock("/tmp/s", Some("/x"));
    args.sock = Some(OsText::from_bytes(b"/tmp/\xff\n".to_vec()));

    match plan(&args, BundledRoots::Included).unwrap().target {
        HttpTarget::Unix(target) => assert_eq!(target.label, "unix:/tmp/\u{FFFD}\n/x"),
        HttpTarget::Url(_) => panic!(),
    }
}

#[test]
fn http_probe_needs_exactly_one_target() {
    assert_eq!(
        refusal(&http()).to_string(),
        "either --url or --sock must be provided"
    );
    let mut both = local();
    both.sock = Some(OsText::new("/tmp/s"));
    assert_eq!(
        refusal(&both).to_string(),
        "--url and --sock cannot be used together"
    );
    let mut path = local();
    path.path = Some("/".to_string());
    assert_eq!(
        refusal(&path).to_string(),
        "--path may only be used with --sock"
    );
}

#[test]
fn http_probe_accepts_lowercase_method_and_spaced_status_range() {
    let mut args = local();
    args.method = "get".to_string();
    args.status = strings(&[" 200 - 299 "]);

    let prepared = plan(&args, BundledRoots::Included).unwrap().prepared;

    assert_eq!(prepared.method, Method::Get);
    assert!(prepared.status_ranges.matches(204));
}

#[test]
fn http_method_error_escapes_control_characters() {
    let error = parse_method("GE\nT").unwrap_err();

    assert_eq!(
        error.to_string(),
        "unsupported HTTP method \"GE\\nT\", expected GET or HEAD"
    );
    assert_eq!(parse_method(" Head ").unwrap(), Method::Head);
    assert_eq!(parse_method("post").unwrap_err().exit_code(), 3);
}

#[test]
fn http_status_error_escapes_control_characters() {
    let error = parse_status_ranges(&strings(&["299-200\n"])).unwrap_err();

    assert!(error.to_string().contains("\"299-200\\n\""));
    assert!(!error.to_string().contains("299-200\n"));
    assert_eq!(error.exit_code(), 3);
}

#[test]
fn http_status_error_quotes_empty_values() {
    assert_eq!(
        parse_status_ranges(&strings(&[""])).unwrap_err().to_string(),
        "invalid status code \"\", expected integer"
    );
}

#[test]
fn http_status_error_treats_leading_hyphen_as_invalid_code() {
    assert_eq!(
        parse_status_ranges(&strings(&["-1"])).unwrap_err().to_string(),
        "invalid status code -1, expected integer"
    );
}

#[test]
fn status_codes_lie_in_their_range() {
    assert_eq!(parse_status_code("100").unwrap(), 100);
    assert_eq!(parse_status_code("599").unwrap(), 599);
    for code in ["99", "600", "0", "65535"] {
        assert_eq!(
            parse_status_code(code).unwrap_err().to_string(),
            format!("invalid status code {code}, expected 100..=599")
        );
    }
    for text in ["", " 200", "x", "65536", "2xx", "-200"] {
        assert!(parse_status_code(text)
            .unwrap_err()
            .to_string()
            .ends_with(", expected integer"));
    }
    assert_eq!(
        parse_status_ranges(&strings(&["300-200"])).unwrap_err().to_string(),
        "invalid status range 300-200, start is greater than end"
    );
}

#[test]
fn statuses_are_held_against_all_ranges() {
    let some = parse_status_ranges(&strings(&["204", "301-302"])).unwrap();
    let default = parse_status_ranges(&Vec::new()).unwrap();

    for code in 0..=u16::MAX {
        assert_eq!(some.matches(code), code == 204 || code == 301 || code == 302);
        assert_eq!(default.matches(code), (200..300).contains(&code));
    }
}

#[test]
fn http_probe_rejects_host_request_header() {
    assert_eq!(
        refused_header("Host:example.test"),
        "--header cannot set Host; use --host instead"
    );
}

#[test]
fn http_probe_rejects_framing_request_header() {
    assert_eq!(
        refused_header("Content-Length:1"),
        "--header cannot set HTTP framing header content-length"
    );
    refused_header("Transfer-Encoding: chunked");
}

#[test]
fn http_probe_rejects_hop_by_hop_request_header() {
    assert_eq!(
        refused_header("Connection: close"),
        "--header cannot set HTTP hop-by-hop header connection"
    );
    for name in ["keep-alive", "te", "trailer", "upgrade"] {
        let headers = parse_headers(&strings(&[&format!("{name}: x")])).unwrap();
        assert_eq!(headers[0].name, name);
    }
}

#[test]
fn http_probe_rejects_proxy_connection_request_header() {
    refused_header("Proxy-Connection: keep-alive");
}

#[test]
fn request_headers_are_a_name_and_a_value() {
    assert_eq!(
        refused_header("no value"),
        "invalid header \"no value\", expected name:value"
    );
    assert_eq!(
        refused_header("a b: c"),
        "invalid header name \"a b\": invalid HTTP header name"
    );
    assert_eq!(
        refused_header("x-a: b\u{1}"),
        "invalid header value for x-a: failed to parse header value"
    );
    let headers = parse_headers(&strings(&[" X-A :  b:c  ", "x-e:"])).unwrap();
    assert_eq!((headers[0].name.as_str(), headers[0].value.as_str()), ("x-a", "b:c"));
    assert_eq!((headers[1].name.as_str(), headers[1].value.as_str()), ("x-e", ""));
}

#[test]
fn http_probe_sends_header() {
    let mut args = local();
    args.header = strings(&["x-api-key:secret"]);
    let prepared = PreparedHttpArgs::from_args(&args).unwrap();

    let sent: Vec<(String, String)> = request_headers("a.test", &prepared)
        .into_iter()
        .map(|header| (header.name, header.value))
        .collect();

    assert_eq!(
        sent,
        [("host", "a.test"), ("user-agent", "salus/0.1.0"), ("x-api-key", "secret")]
            .map(|(name, value)| (name.to_string(), value.to_string()))
    );
}

#[test]
fn http_probe_uses_custom_user_agent_without_default() {
    let mut args = local();
    args.header = strings(&["x-a:b", "User-Agent:custom-probe"]);
    let prepared = PreparedHttpArgs::from_args(&args).unwrap();

    let agents: Vec<String> = request_headers("a.test", &prepared)
        .into_iter()
        .filter(|header| header.name == "user-agent")
        .map(|header| header.value)
        .collect();

    assert_eq!(agents, ["custom-probe"]);
}

#[test]
fn http_probe_rejects_empty_host_override() {
    assert_eq!(refused_host(""), "--host must not be empty");
}

#[test]
fn http_probe_rejects_host_override_without_hostname() {
    refused_host(":8080");
}

#[test]
fn http_probe_rejects_empty_bracketed_host_override() {
    refused_host("[]:80");
}

#[test]
fn http_probe_rejects_bracketed_host_override_with_suffix() {
    refused_host("[::1]example:80");
}

#[test]
fn http_probe_rejects_embedded_bracket_host_override() {
    refused_host("example[::1]:80");
}

#[test]
fn http_probe_rejects_invalid_host_override() {
    refused_host("example.com/path");
}

#[test]
fn http_probe_rejects_invalid_host_override_port() {
    refused_host("example.com:bad");
}

#[test]
fn http_probe_rejects_zero_host_override_port() {
    refused_host("example.com:0");
}

#[test]
fn http_probe_rejects_out_of_range_host_override_port() {
    refused_host("example.com:65536");
}

#[test]
fn http_probe_rejects_invalid_ipv6_host_override_port() {
    refused_host("[::1]:bad");
}

#[test]
fn http_probe_rejects_url_fragment() {
    assert_eq!(
        refused_url("http://127.0.0.1:9/healthz#ready"),
        "URL fragments are not supported in HTTP probes"
    );
}

#[test]
fn http_probe_rejects_url_with_whitespace() {
    refused_url(" http://127.0.0.1:9/healthz");
}

#[test]
fn http_probe_rejects_url_with_embedded_newline() {
    refused_url("http://127.0.0.1:9/health\nz");
}

#[test]
fn http_probe_rejects_url_with_control_character() {
    refused_url("http://127.0.0.1:9/health\u{1}z");
}

#[test]
fn http_probe_rejects_url_with_backslash() {
    assert_eq!(
        refused_url("http://127.0.0.1:9\\healthz"),
        "invalid URL http://127.0.0.1:9\\healthz: backslashes are not allowed"
    );
    assert_eq!(refused_url("http://a b/"), "invalid URL http://a b/: invalid international domain name");
}

#[test]
fn http_probe_rejects_url_with_invalid_percent_encoding() {
    refused_url("http://127.0.0.1:9/%zz");
}

#[test]
fn http_probe_rejects_empty_url() {
    assert_eq!(refused_url(""), "invalid URL : relative URL without a base");
}

#[test]
fn http_probe_rejects_url_with_empty_authority() {
    refused_url("http:///healthz");
}

#[test]
fn http_probe_rejects_url_with_empty_userinfo() {
    assert_eq!(
        refused_url("http://@127.0.0.1:9/healthz"),
        "URL user info is not supported for security reasons"
    );
}

#[test]
fn http_probe_rejects_url_with_empty_user_and_password() {
    refused_url("http://:@127.0.0.1:9/healthz");
}

#[test]
fn http_probe_rejects_url_without_authority_delimiter() {
    refused_url("http:127.0.0.1:9/healthz");
}

#[test]
fn http_probe_rejects_url_with_single_slash_authority_delimiter() {
    refused_url("http:/127.0.0.1:9/healthz");
}

#[test]
fn http_probe_rejects_zero_port() {
    assert_eq!(
        refused_url("http://127.0.0.1:0/healthz"),
        "URL port must be between 1 and 65535"
    );
}

#[test]
fn http_probe_rejects_empty_url_port() {
    refused_url("http://127.0.0.1:/healthz");
}

#[test]
fn http_probe_rejects_empty_ipv6_url_port() {
    refused_url("http://[::1]:/healthz");
}

#[test]
fn urls_are_of_http() {
    assert_eq!(
        refused_url("ftp://a.test/"),
        "unsupported URL scheme ftp, expected http or https"
    );
    let mut args = local();
    args.tls.insecure_skip_verify = true;
    assert_eq!(
        refusal(&args).to_string(),
        "TLS flags may only be used with https URLs"
    );
}

#[test]
fn a_parsed_url_is_accepted_or_not() {
    let url = |username: &str, has_password: bool, port: Option<u16>| ParsedUrl {
        scheme: "http".to_string(),
        username: username.to_string(),
        has_password,
        has_fragment: false,
        port,
        host: Some("a.test".to_string()),
        rest: "/healthz".to_string(),
        text: TARGET.to_string(),
    };
    let accepted = |parsed| accept_url(TARGET, parsed, &local(), BundledRoots::Included);

    assert_eq!(accepted(Ok(url("", false, Some(81)))).unwrap().host, "a.test:81");
    for refused in [url("u", false, None), url("", true, None), url("", false, Some(0))] {
        assert_eq!(accepted(Ok(refused)).unwrap_err().exit_code(), 3);
    }
    let mut hostless = url("", false, None);
    hostless.host = None;
    assert_eq!(
        accepted(Ok(hostless)).unwrap_err().to_string(),
        format!("URL {TARGET} does not contain a host")
    );
    assert!(accepted(Err("bad".to_string()))
        .unwrap_err()
        .to_string()
        .ends_with("bad"));
}

#[test]
fn percent_signs_begin_an_encoded_byte() {
    for text in ["", "a", "%20", "%aF%00x"] {
        assert!(has_valid_percent_encoding(text));
    }
    for text in ["%", "%2", "%zz", "%20%", "%%20"] {
        assert!(!has_valid_percent_encoding(text));
    }
}

#[test]
fn http_probe_rejects_unix_socket_without_path() {
    assert_eq!(
        refusal(&with_sock("/tmp/salus-missing-path.sock", None)).to_string(),
        "--path is required with --sock"
    );
}

#[test]
fn http_probe_rejects_empty_unix_socket_path() {
    assert_eq!(
        refusal(&with_sock("", Some("/healthz"))).to_string(),
        "--sock must not be empty"
    );
}

#[test]
fn http_probe_rejects_unix_socket_path_without_leading_slash() {
    refusal(&with_sock("/tmp/salus-invalid-path.sock", Some("healthz")));
}

#[test]
fn http_probe_rejects_unix_socket_path_fragment() {
    refusal(&with_sock("/tmp/salus-fragment-path.sock", Some("/healthz#ready")));
}

#[test]
fn http_probe_rejects_invalid_unix_socket_uri_path_before_connecting() {
    refusal(&with_sock("/tmp/salus-missing-invalid-path.sock", Some("/health check")));
}

#[test]
fn http_probe_rejects_unix_socket_path_with_backslash_before_connecting() {
    refusal(&with_sock("/tmp/salus-missing-backslash-path.sock", Some("/health\\z")));
}

#[test]
fn http_probe_rejects_unix_socket_path_with_invalid_percent_encoding_before_connecting() {
    refusal(&with_sock("/tmp/salus-missing-percent-path.sock", Some("/%zz")));
}

#[test]
fn unix_socket_probes_have_no_tls() {
    let mut args = with_sock("/tmp/s", Some("/"));
    args.tls.server_name = Some("a.test".to_string());

    assert_eq!(
        refusal(&args).to_string(),
        "TLS flags are not supported with --sock"
    );
}

#[test]
fn a_parsed_socket_path_is_accepted_or_not() {
    let uri = |has_scheme: bool, has_authority: bool, path: &str| ParsedUri {
        has_scheme,
        has_authority,
        path: path.to_string(),
    };

    accept_uds_path("/x?q", Ok(uri(false, false, "/x"))).unwrap();
    for refused in [Ok(uri(true, false, "/x")), Ok(uri(false, true, "/x")), Err("bad".to_string())] {
        assert_eq!(accept_uds_path("/x", refused).unwrap_err().exit_code(), 3);
    }
}

#[test]
fn https_probe_rejects_conflicting_trust_controls() {
    let mut args = with_url("https://127.0.0.1:9/healthz");
    args.tls.ca = Some(OsText::new("tests/fixtures/tls/server.crt"));
    args.tls.insecure_skip_verify = true;

    refusal(&args);
}

#[test]
fn https_probe_rejects_empty_ca_file() {
    let mut args = with_url("https://127.0.0.1:9/healthz");
    args.tls.ca = Some(OsText::new(""));

    refusal(&args);
}

#[test]
fn https_probes_need_something_to_trust() {
    let args = with_url("https://127.0.0.1:9/healthz");

    assert!(plan(&args, BundledRoots::Included).is_ok());
    assert_eq!(plan(&args, BundledRoots::Omitted).unwrap_err().exit_code(), 3);
}

#[test]
fn http_probe_fails_on_redirect_by_default() {
    let error = head(&local(), 302, &[]).unwrap_err();

    assert_eq!(
        error.to_string(),
        "HTTP status 302 from http://a.test/healthz is outside the allowed range"
    );
    assert_eq!(error.exit_code(), 1);
}

#[test]
fn http_probe_succeeds_when_status_override_allows_redirect() {
    let mut args = local();
    args.status = strings(&["302"]);

    head(&args, 302, &[]).unwrap();
}

#[test]
fn http_probe_succeeds_with_exact_header_and_body_assertions() {
    let mut args = local();
    args.header_present = strings(&["x-ready"]);
    args.header_equals = strings(&["x-ready:ok"]);
    args.body_equals = Some("ready".to_string());

    head(&args, 200, &[("X-Ready", b"ok")]).unwrap();
    body(&args, declared(5), b"ready").unwrap();
}

#[test]
fn http_probe_fails_when_required_response_header_is_missing() {
    let mut args = local();
    args.header_present = strings(&["x-ready"]);

    assert_eq!(
        head(&args, 200, &[("x-other", b"ok")]).unwrap_err().to_string(),
        "response header x-ready is missing from http://a.test/healthz"
    );
}

#[test]
fn http_probe_fails_when_response_header_exact_match_is_wrong() {
    let mut args = local();
    args.header_equals = strings(&["x-ready:ok"]);

    assert_eq!(
        head(&args, 200, &[("X-Ready", b"warming")]).unwrap_err().to_string(),
        "response header x-ready from http://a.test/healthz does not equal required value \"ok\""
    );
    head(&args, 200, &[("X-Ready", b"warming"), ("X-Ready", b"ok")]).unwrap();
    assert!(head(&args, 200, &[]).is_err());
}

#[test]
fn http_probe_succeeds_with_response_header_assertions() {
    let mut args = local();
    args.header_contains = strings(&["x-ready:ok"]);
    args.header_not_contains = strings(&["x-ready:error"]);

    head(&args, 200, &[("X-Ready", b"ok")]).unwrap();
}

#[test]
fn http_probe_fails_when_required_response_header_text_is_missing() {
    let mut args = local();
    args.header_contains = strings(&["x-ready:ok"]);

    assert_eq!(
        head(&args, 200, &[("X-Ready", b"warming")]).unwrap_err().to_string(),
        "response header x-ready from http://a.test/healthz does not contain required text \"ok\""
    );
}

#[test]
fn forbidden_header_text_is_looked_for_in_all_values() {
    let mut args = local();
    args.header_not_contains = strings(&["x-ready:error"]);

    head(&args, 200, &[]).unwrap();
    assert_eq!(
        head(&args, 200, &[("x-ready", b"ok"), ("x-ready", b"\xff error")])
            .unwrap_err()
            .to_string(),
        "response header x-ready from http://a.test/healthz contains forbidden text \"error\""
    );
}

#[test]
fn header_assertions_are_a_name_and_a_value() {
    let parsed = parse_header_assertions(&strings(&["X-A: b "]), "--header-equals", true).unwrap();
    assert_eq!((parsed[0].name.as_str(), parsed[0].value.as_str()), ("x-a", "b"));

    assert!(parse_header_assertions(&strings(&["x-a:"]), "--header-equals", true).is_ok());
    assert_eq!(
        parse_header_assertions(&strings(&["x-a"]), "--header-contains", false)
            .unwrap_err()
            .to_string(),
        "invalid header assertion \"x-a\", expected name:value"
    );
    assert_eq!(parse_header_names(&strings(&[" X-A "])).unwrap(), ["x-a"]);
    assert_eq!(parse_header_names(&strings(&[""])).unwrap_err().exit_code(), 3);
}

#[test]
fn http_probe_rejects_empty_header_contains_assertion() {
    let mut args = local();
    args.header_contains = strings(&["x-ready:"]);

    assert_eq!(
        refusal(&args).to_string(),
        "--header-contains value must not be empty"
    );
}

#[test]
fn http_probe_rejects_zero_body_limit_with_body_assertion() {
    let mut args = local();
    args.contains = strings(&["ok"]);
    args.max_body = 0;

    assert_eq!(
        refusal(&args).to_string(),
        "--max-body must be greater than 0 when body assertions are used"
    );
}

#[test]
fn http_probe_rejects_excessive_body_limit_with_body_assertion() {
    let mut args = local();
    args.contains = strings(&["ok"]);
    args.max_body = 16_777_217;

    refusal(&args);
}

#[test]
fn http_probe_rejects_empty_body_contains_assertion() {
    let mut args = local();
    args.contains = strings(&[""]);
    assert_eq!(refusal(&args).to_string(), "--contains must not be empty");

    let mut args = local();
    args.not_contains = strings(&["a", ""]);
    assert_eq!(refusal(&args).to_string(), "--not-contains must not be empty");
}

#[test]
fn http_probe_rejects_body_assertions_for_head_requests() {
    let mut args = local();
    args.method = "HEAD".to_string();
    args.contains = strings(&["ok"]);

    assert_eq!(
        refusal(&args).to_string(),
        "HTTP body assertions are not supported with HEAD requests"
    );
}

#[test]
fn http_probe_rejects_body_assertions_for_lowercase_head_requests() {
    let mut args = local();
    args.method = "head".to_string();
    args.contains = strings(&["ok"]);

    refusal(&args);
}

#[test]
fn a_body_is_read_only_where_it_matters() {
    let plain = local();
    let prepared = PreparedHttpArgs::from_args(&plain).unwrap();
    assert!(evaluate_response(200, &response(&[]), UNKNOWN, &plain, &prepared, TARGET)
        .unwrap()
        .is_none());
    assert!(evaluate_response(500, &response(&[]), UNKNOWN, &plain, &prepared, TARGET).is_err());

    let mut wanting = local();
    wanting.contains = strings(&["ok"]);
    let reader = evaluate_response(200, &response(&[]), UNKNOWN, &wanting, &prepared, TARGET)
        .unwrap()
        .unwrap();
    assert_eq!(reader.step(), BodyStep::Read);
}

#[test]
fn http_probe_stops_reading_body_at_max_body() {
    let mut args = local();
    args.contains = strings(&["ok"]);
    args.max_body = 2;

    let (step, result) = open_body(&args, UNKNOWN, b"ok!");

    assert_eq!(step, BodyStep::Done);
    result.unwrap();
}

#[test]
fn text_beyond_max_body_is_not_proved() {
    let mut args = local();
    args.contains = strings(&["ready"]);
    args.max_body = 4;

    let error = body(&args, declared(9), b"aaaaready").unwrap_err();

    assert_eq!(
        error.to_string(),
        "response body from http://a.test/healthz was truncated at 4 bytes, cannot prove required text \"ready\""
    );
    assert_eq!(error.exit_code(), 1);
}

#[test]
fn http_probe_succeeds_after_required_body_before_stream_closes() {
    let mut args = local();
    args.contains = strings(&["ready"]);

    let (step, result) = open_body(&args, UNKNOWN, b"ready");

    assert_eq!(step, BodyStep::Done);
    result.unwrap();
}

#[test]
fn http_probe_exact_body_mismatch_does_not_wait_for_open_stream() {
    let mut args = local();
    args.body_equals = Some("ready".to_string());

    let (step, result) = open_body(&args, UNKNOWN, b"no");

    assert_eq!(step, BodyStep::Done);
    assert_eq!(
        result.unwrap_err().to_string(),
        "response body from http://a.test/healthz does not equal required text \"ready\""
    );
}

#[test]
fn http_probe_exact_body_length_mismatch_does_not_wait_for_open_stream() {
    let mut args = local();
    args.body_equals = Some("ready".to_string());
    let mut reader = BodyReader::new(&args, declared(6));

    assert_eq!(reader.step(), BodyStep::Done);
    assert!(reader.assert_response_body(&args, TARGET).is_err());
    reader.on_data(b"ready");
    assert!(reader.assert_response_body(&args, TARGET).is_err());
}

#[test]
fn http_probe_forbidden_body_text_does_not_wait_for_open_stream() {
    let mut args = local();
    args.not_contains = strings(&["bad"]);

    let (step, result) = open_body(&args, UNKNOWN, b"bad");

    assert_eq!(step, BodyStep::Done);
    assert_eq!(
        result.unwrap_err().to_string(),
        "response body from http://a.test/healthz contains forbidden text \"bad\""
    );
}

#[test]
fn http_complete_body_at_limit_proves_missing_contains() {
    let mut args = local();
    args.contains = strings(&["ready"]);
    args.max_body = 4;

    assert_eq!(
        body(&args, declared(4), b"aaaa").unwrap_err().to_string(),
        "response body from http://a.test/healthz does not contain required text \"ready\""
    );
}

#[test]
fn http_unknown_length_body_at_limit_proves_missing_contains_after_eof() {
    let mut args = local();
    args.contains = strings(&["ready"]);
    args.max_body = 4;

    assert_eq!(
        body(&args, UNKNOWN, b"aaaa").unwrap_err().to_string(),
        "response body from http://a.test/healthz does not contain required text \"ready\""
    );
}

#[test]
fn http_truncated_body_with_mismatched_prefix_reports_exact_mismatch() {
    let mut args = local();
    args.body_equals = Some("ready".to_string());
    args.max_body = 4;

    assert_eq!(
        body(&args, declared(8), b"xxxxmore").unwrap_err().to_string(),
        "response body from http://a.test/healthz does not equal required text \"ready\""
    );
}

#[test]
fn http_truncated_body_with_forbidden_text_reports_forbidden_text() {
    let mut args = local();
    args.not_contains = strings(&["bad"]);
    args.max_body = 4;

    assert!(body(&args, declared(8), b"bad-data")
        .unwrap_err()
        .to_string()
        .ends_with("contains forbidden text \"bad\""));
}

#[test]
fn http_truncated_body_with_negative_assertion_reports_target_and_limit() {
    let mut args = local();
    args.not_contains = strings(&["missing"]);
    args.max_body = 4;

    assert_eq!(
        body(&args, declared(8), b"aaaaaaaa").unwrap_err().to_string(),
        "response body from http://a.test/healthz was truncated at 4 bytes, cannot prove negative body assertions"
    );
}

#[test]
fn http_probe_fails_when_negative_body_assertion_truncates() {
    let mut args = local();
    args.not_contains = strings(&["zzz"]);
    args.max_body = 4;

    assert_eq!(
        body(&args, declared(32), &[b'a'; 32]).unwrap_err().exit_code(),
        1
    );
}

#[test]
fn http_probe_uses_declared_body_length_to_fail_at_max_body() {
    let mut args = local();
    args.not_contains = strings(&["zzz"]);
    args.max_body = 4;

    let (step, result) = open_body(&args, declared(8), b"aaaa");

    assert_eq!(step, BodyStep::Done);
    assert_eq!(result.unwrap_err().exit_code(), 1);
}

#[test]
fn http_probe_unknown_length_body_at_max_body_does_not_wait_for_open_stream() {
    let mut args = local();
    args.contains = strings(&["ready"]);
    args.max_body = 4;

    let (step, result) = open_body(&args, UNKNOWN, b"aaaa");

    assert_eq!(step, BodyStep::AwaitEnd);
    assert!(result.unwrap_err().to_string().contains("cannot prove required text \"ready\""));
}

#[test]
fn http_probe_accepts_unknown_length_body_exactly_at_max_body_when_complete() {
    let mut args = local();
    args.body_equals = Some("aaaa".to_string());
    args.max_body = 4;

    body(&args, UNKNOWN, b"aaaa").unwrap();
    assert_eq!(open_body(&args, UNKNOWN, b"aaaa").0, BodyStep::Read);
}

#[test]
fn http_probe_does_not_match_replacement_character_for_invalid_body_bytes() {
    let mut args = local();
    args.contains = strings(&["\u{FFFD}"]);

    assert_eq!(body(&args, declared(1), b"\xff").unwrap_err().exit_code(), 1);
}

#[test]
fn http_probe_fails_when_exact_body_assertion_truncates() {
    let mut args = local();
    args.body_equals = Some("ready".to_string());
    args.max_body = 5;

    assert_eq!(
        body(&args, declared(18), b"ready-after-prefix").unwrap_err().exit_code(),
        1
    );
    let mut args = local();
    args.body_equals = Some("ready-after-prefix".to_string());
    args.max_body = 5;
    assert_eq!(
        body(&args, UNKNOWN, b"ready-after-prefix").unwrap_err().to_string(),
        "response body from http://a.test/healthz was truncated at 5 bytes, cannot prove exact body match"
    );
}

#[test]
fn an_empty_body_can_be_asked_for() {
    let mut args = local();
    args.body_equals = Some(String::new());

    body(&args, declared(0), b"").unwrap();
    assert!(body(&args, UNKNOWN, b"x").is_err());
}

#[test]
fn healthy_servers_are_reported() {
    let options = ProbeOptions {
        timeout: Span::from_secs(3),
        quiet: false,
        verbose: true,
        max_latency: None,
    };

    let exit = report(204, TARGET.to_string(), Span::from_millis(7), options).print_and_exit_code();

    assert_eq!(
        exit.line.unwrap(),
        "result=healthy mode=http target=\"http://a.test/healthz\" duration_ms=7 detail=\"status=204\""
    );
}

#[test]
fn http_unix_socket_error_escapes_control_characters_in_socket_path() {
    let target = plan(
        &with_sock("/tmp/salus-cli-bad\nsock", Some("/healthz")),
        BundledRoots::Included,
    )
    .unwrap()
    .target;

    let error = exchange_error(&target, &ExchangeFault::Connect("gone".to_string()));

    assert_eq!(
        error.to_string(),
        "failed to connect to unix socket \"/tmp/salus-cli-bad\\nsock\": gone"
    );
    assert_eq!(error.exit_code(), 1);
    assert_eq!(
        exchange_error(&target, &ExchangeFault::Request("x".to_string())).to_string(),
        "HTTP request over unix socket \"/tmp/salus-cli-bad\\nsock\" failed: x"
    );
}

#[test]
fn faults_of_the_exchange_are_told_apart() {
    let target = plan(&local(), BundledRoots::Included).unwrap().target;

    for (fault, text, code) in [
        (ExchangeFault::Build("x".to_string()), "invalid HTTP request: x", 3),
        (
            ExchangeFault::Connect("x".to_string()),
            "failed to connect to http://127.0.0.1:9/healthz: x",
            1,
        ),
        (ExchangeFault::Handshake("x".to_string()), "HTTP handshake failed: x", 1),
        (
            ExchangeFault::Request("x".to_string()),
            "HTTP request to http://127.0.0.1:9/healthz failed: x",
            1,
        ),
        (ExchangeFault::Body("x".to_string()), "failed reading HTTP body: x", 1),
    ] {
        let error = exchange_error(&target, &fault);
        assert_eq!(error.to_string(), text);
        assert_eq!(error.exit_code(), code);
    }
}
