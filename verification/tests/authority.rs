use salus::authority::{
    check_shape, explicit_port, is_unbracketed_ipv6_authority, raw_host_is_empty,
    validate_authority, validate_port, PortError, PortPolicy, RawFormat,
};

#[test]
fn explicit_port_handles_ipv6_authorities() {
    assert_eq!(explicit_port("[::1]:8080"), Some("8080"));
    assert_eq!(explicit_port("[::1]"), None);
    assert_eq!(explicit_port("[::1]:80:90"), Some("80:90"));
}

#[test]
fn required_port_rejects_missing_port() {
    let error = validate_authority(
        "localhost",
        "TCP address",
        PortPolicy::Required,
        RawFormat::Display,
    )
    .unwrap_err();

    assert_eq!(
        error.to_string(),
        "invalid TCP address localhost: port is required"
    );
}

#[test]
fn optional_port_rejects_zero_port() {
    let error = validate_authority(
        "example.com:0",
        "gRPC authority",
        PortPolicy::Optional,
        RawFormat::Debug,
    )
    .unwrap_err();

    assert_eq!(
        error.to_string(),
        "invalid gRPC authority \"example.com:0\": port must be between 1 and 65535"
    );
}

#[test]
fn bracketed_authority_rejects_empty_host() {
    let error = validate_authority(
        "[]:80",
        "TCP address",
        PortPolicy::Required,
        RawFormat::Display,
    )
    .unwrap_err();

    assert_eq!(
        error.to_string(),
        "invalid TCP address []:80: host must not be empty"
    );
}

#[test]
fn bracketed_authority_requires_ipv6_host() {
    let error = validate_authority(
        "[example.com]:80",
        "TCP address",
        PortPolicy::Required,
        RawFormat::Display,
    )
    .unwrap_err();

    assert_eq!(
        error.to_string(),
        "invalid TCP address [example.com]:80: bracketed host must be a valid IPv6 address"
    );
}

#[test]
fn authority_rejects_brackets_inside_reg_name() {
    let error = validate_authority(
        "example[::1]:80",
        "TCP address",
        PortPolicy::Required,
        RawFormat::Display,
    )
    .unwrap_err();

    assert_eq!(
        error.to_string(),
        "invalid TCP address example[::1]:80: brackets are only allowed around IPv6 addresses"
    );
}

#[test]
fn bracketed_authority_rejects_unexpected_suffix() {
    let error = validate_authority(
        "[::1]example:80",
        "Host header",
        PortPolicy::Optional,
        RawFormat::Debug,
    )
    .unwrap_err();

    assert_eq!(
        error.to_string(),
        "invalid Host header \"[::1]example:80\": bracketed host must be followed by :port or the end of the authority"
    );
}

#[test]
fn authority_rejects_malformed_unbracketed_port_before_generic_parse_error() {
    let error = validate_authority(
        "example.com:80:90",
        "TCP address",
        PortPolicy::Required,
        RawFormat::Display,
    )
    .unwrap_err();

    assert_eq!(
        error.to_string(),
        "invalid TCP address example.com:80:90: port must be a valid integer"
    );
}

#[test]
fn authority_rejects_malformed_bracketed_port_before_generic_parse_error() {
    let error = validate_authority(
        "[::1]:80:90",
        "TCP address",
        PortPolicy::Required,
        RawFormat::Display,
    )
    .unwrap_err();

    assert_eq!(
        error.to_string(),
        "invalid TCP address [::1]:80:90: port must be a valid integer"
    );
}

#[test]
fn authority_rejects_path_before_port_shape() {
    let error = validate_authority(
        "127.0.0.1:50051/healthz",
        "gRPC address",
        PortPolicy::Required,
        RawFormat::Debug,
    )
    .unwrap_err();

    assert_eq!(
        error.to_string(),
        "invalid gRPC address \"127.0.0.1:50051/healthz\": path, query, and fragment are not allowed"
    );
}

#[test]
fn authority_rejects_whitespace_before_port_shape() {
    let error = validate_authority(
        "127.0.0.1:80 ",
        "TCP address",
        PortPolicy::Required,
        RawFormat::Display,
    )
    .unwrap_err();

    assert_eq!(
        error.to_string(),
        "invalid TCP address \"127.0.0.1:80 \": authority must not contain whitespace, control characters, backslashes, or quotes"
    );
}

#[test]
fn authority_rejects_non_ascii_before_generic_parse_error() {
    let error = validate_authority(
        "\u{00E9}xample.test:80",
        "TCP address",
        PortPolicy::Required,
        RawFormat::Display,
    )
    .unwrap_err();

    assert!(
        error
            .to_string()
            .contains("authority must contain only ASCII characters")
    );
}

#[test]
fn authority_rejects_unbracketed_ipv6_before_port_shape() {
    let error = validate_authority(
        "2001:db8::1:80",
        "TCP address",
        PortPolicy::Required,
        RawFormat::Display,
    )
    .unwrap_err();

    assert_eq!(
        error.to_string(),
        "invalid TCP address 2001:db8::1:80: IPv6 addresses must be enclosed in brackets"
    );
}

#[test]
fn authority_rejects_malformed_unbracketed_ipv6_before_port_shape() {
    let error = validate_authority(
        "2001:db8::zz:80",
        "TCP address",
        PortPolicy::Required,
        RawFormat::Display,
    )
    .unwrap_err();

    assert_eq!(
        error.to_string(),
        "invalid TCP address 2001:db8::zz:80: IPv6 addresses must be enclosed in brackets"
    );
}

#[test]
fn bracketed_authority_rejects_missing_closing_bracket() {
    let error = validate_authority(
        "[::1:80",
        "TCP address",
        PortPolicy::Required,
        RawFormat::Display,
    )
    .unwrap_err();

    assert_eq!(
        error.to_string(),
        "invalid TCP address [::1:80: bracketed host is missing closing ]"
    );
}

#[test]
fn port_validation_distinguishes_non_numeric_and_out_of_range_ports() {
    assert_eq!(validate_port("bad").unwrap_err(), PortError::NotInteger);
    assert_eq!(validate_port("65536").unwrap_err(), PortError::OutOfRange);
}

fn reason(raw: &str) -> String {
    validate_authority(raw, "address", PortPolicy::Optional, RawFormat::Display)
        .unwrap_err()
        .to_string()
}

#[test]
fn accepted_authorities_keep_their_text_and_host() {
    let authority = validate_authority(
        "[2001:db8::1]:8443",
        "address",
        PortPolicy::Required,
        RawFormat::Debug,
    )
    .unwrap();
    assert_eq!(authority.text, "[2001:db8::1]:8443");
    assert_eq!(authority.host, "[2001:db8::1]");

    let authority =
        validate_authority("example.com", "address", PortPolicy::Optional, RawFormat::Debug)
            .unwrap();
    assert_eq!(authority.host, "example.com");
}

#[test]
fn authority_rejects_user_info() {
    assert_eq!(
        reason("user@example.com:80"),
        "invalid address user@example.com:80: user info is not allowed"
    );
}

#[test]
fn authority_reports_what_the_parser_finds() {
    assert!(reason("exa<mple.com").starts_with("invalid address exa<mple.com: "));
    assert_eq!(check_shape("exa<mple.com"), Ok(()));
}

#[test]
fn ports_run_from_one_to_65535() {
    assert_eq!(validate_port("1"), Ok(1));
    assert_eq!(validate_port("65535"), Ok(65535));
    assert_eq!(validate_port("00080"), Ok(80));
    assert_eq!(validate_port("0"), Err(PortError::OutOfRange));
    assert_eq!(validate_port(""), Err(PortError::NotInteger));
    assert_eq!(validate_port("+80"), Err(PortError::NotInteger));
    assert_eq!(
        validate_port("99999999999999999999"),
        Err(PortError::OutOfRange)
    );
    assert_eq!(PortError::NotInteger.message(), "port must be a valid integer");
    assert_eq!(
        PortError::OutOfRange.message(),
        "port must be between 1 and 65535"
    );
}

#[test]
fn empty_hosts_are_seen_in_raw_authorities() {
    assert!(raw_host_is_empty(""));
    assert!(raw_host_is_empty(":80"));
    assert!(raw_host_is_empty("[]:80"));
    assert!(!raw_host_is_empty("[::1]"));
    assert!(!raw_host_is_empty("a:80"));
}

#[test]
fn addresses_without_brackets_are_seen() {
    assert!(is_unbracketed_ipv6_authority("::1"));
    assert!(is_unbracketed_ipv6_authority("1:2:3:4:5:6:7:8"));
    assert!(is_unbracketed_ipv6_authority("1:2:3:4:5:6:7:8:80"));
    assert!(is_unbracketed_ipv6_authority("2001:db8::zz"));
    assert!(!is_unbracketed_ipv6_authority("[::1]:80"));
    assert!(!is_unbracketed_ipv6_authority("127.0.0.1:80"));
    assert!(!is_unbracketed_ipv6_authority("example.com"));
}
