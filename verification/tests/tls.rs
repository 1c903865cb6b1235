use salus::cli::TlsArgs;
use salus::os_text::OsText;
use salus::tls::{
    accept_server_name, has_tls_flags, identity_error, identity_files, load_ca,
    load_client_certificates, load_client_key, parse_server_name_override, pem_file_error, trust,
    validate_tls_options, validate_tls_trust_available, BundledRoots, KeyFormat, PemFault, Trust,
};

fn pem(label: &str, base64: &str) -> Vec<u8> {
    format!("-----BEGIN {label}-----\n{base64}\n-----END {label}-----\n").into_bytes()
}

#[test]
fn server_name_override_accepts_bracketed_ipv6_literal() {
    let server_name = parse_server_name_override("[::1]").unwrap();

    assert_eq!(server_name.as_str(), "::1");
}

#[test]
fn server_name_override_rejects_bracketed_dns_name() {
    let error = parse_server_name_override("[localhost]").unwrap_err();

    assert_eq!(
        error.to_string(),
        "invalid TLS server name override \"[localhost]\": brackets are only allowed around IPv6 addresses"
    );
}

#[test]
fn server_name_override_rejects_unmatched_bracket() {
    let error = parse_server_name_override("localhost]").unwrap_err();

    assert_eq!(
        error.to_string(),
        "invalid TLS server name override \"localhost]\": brackets are only allowed around IPv6 addresses"
    );
}

#[test]
fn tls_options_validate_server_name_before_trust_store() {
    let tls = TlsArgs {
        server_name: Some("[localhost]".to_string()),
        ..TlsArgs::default()
    };

    let error = validate_tls_options(&tls, BundledRoots::Omitted).unwrap_err();

    assert_eq!(
        error.to_string(),
        "invalid TLS server name override \"[localhost]\": brackets are only allowed around IPv6 addresses"
    );
}

#[test]
fn tls_options_validate_client_identity_pair_before_trust_store() {
    let tls = TlsArgs {
        cert: Some(OsText::new("client.pem")),
        ..TlsArgs::default()
    };

    let error = validate_tls_options(&tls, BundledRoots::Omitted).unwrap_err();

    assert_eq!(
        error.to_string(),
        "--cert and --key must be provided together"
    );
}

#[test]
fn tls_options_reject_conflicting_trust_controls_before_trust_store() {
    let tls = TlsArgs {
        ca: Some(OsText::new("ca.pem")),
        insecure_skip_verify: true,
        ..TlsArgs::default()
    };

    let error = validate_tls_options(&tls, BundledRoots::Omitted).unwrap_err();

    assert_eq!(
        error.to_string(),
        "--ca cannot be used with --insecure-skip-verify"
    );
}

#[test]
fn tls_options_reject_empty_file_paths() {
    let tls = TlsArgs {
        ca: Some(OsText::new("")),
        ..TlsArgs::default()
    };

    let error = validate_tls_options(&tls, BundledRoots::Omitted).unwrap_err();

    assert_eq!(error.to_string(), "--ca must not be empty");
}

#[test]
fn tls_pem_files_must_be_regular_files() {
    let path = OsText::new("/tmp/salus-tls-non-regular");

    let error = pem_file_error("CA file", &path, &PemFault::NotRegular);

    assert!(error.to_string().contains("is not a regular file"));
    assert_eq!(error.exit_code(), 3);
}

#[test]
fn tls_trust_is_available_with_custom_ca() {
    let tls = TlsArgs {
        ca: Some(OsText::new("ca.pem")),
        ..TlsArgs::default()
    };

    validate_tls_trust_available(&tls, BundledRoots::Omitted).unwrap();
}

#[test]
fn tls_trust_is_available_when_verification_is_disabled() {
    let tls = TlsArgs {
        insecure_skip_verify: true,
        ..TlsArgs::default()
    };

    validate_tls_trust_available(&tls, BundledRoots::Omitted).unwrap();
}

#[test]
fn tls_trust_is_available_with_bundled_roots() {
    validate_tls_trust_available(&TlsArgs::default(), BundledRoots::Included).unwrap();
}

#[test]
fn tls_trust_requires_ca_without_bundled_roots() {
    let error = validate_tls_trust_available(&TlsArgs::default(), BundledRoots::Omitted).unwrap_err();

    assert_eq!(
        error.to_string(),
        "TLS trust store is empty because bundled roots are disabled; provide --ca or --insecure-skip-verify"
    );
}

#[test]
fn server_name_override_accepts_dns_names_and_plain_addresses() {
    assert_eq!(parse_server_name_override("localhost").unwrap(), "localhost");
    assert_eq!(parse_server_name_override("127.0.0.1").unwrap(), "127.0.0.1");
    assert_eq!(parse_server_name_override("0:0:0:0:0:0:0:1").unwrap(), "::1");
}

#[test]
fn server_name_override_reports_what_the_parser_finds() {
    let error = parse_server_name_override("not a name").unwrap_err();

    assert_eq!(
        error.to_string(),
        "invalid TLS server name override \"not a name\": invalid dns name"
    );
    assert_eq!(error.exit_code(), 3);

    let error = accept_server_name("x", Err("odd".to_string())).unwrap_err();
    assert_eq!(
        error.to_string(),
        "invalid TLS server name override \"x\": odd"
    );
}

#[test]
fn tls_options_accept_a_full_client_identity() {
    let tls = TlsArgs {
        ca: Some(OsText::new("ca.pem")),
        cert: Some(OsText::new("client.pem")),
        key: Some(OsText::new("client.key")),
        server_name: Some("localhost".to_string()),
        insecure_skip_verify: false,
    };

    validate_tls_options(&tls, BundledRoots::Omitted).unwrap();
    assert!(has_tls_flags(&tls));
    assert!(!has_tls_flags(&TlsArgs::default()));
}

#[test]
fn tls_options_report_the_first_empty_path() {
    let tls = TlsArgs {
        cert: Some(OsText::new("client.pem")),
        key: Some(OsText::new("")),
        ..TlsArgs::default()
    };

    let error = validate_tls_options(&tls, BundledRoots::Included).unwrap_err();

    assert_eq!(error.to_string(), "--key must not be empty");
}

#[test]
fn trust_follows_the_options() {
    let everyone = TlsArgs {
        insecure_skip_verify: true,
        ..TlsArgs::default()
    };
    assert!(matches!(trust(&everyone, BundledRoots::Included), Trust::Everyone));

    let own = TlsArgs {
        ca: Some(OsText::new("ca.pem")),
        ..TlsArgs::default()
    };
    match trust(&own, BundledRoots::Omitted) {
        Trust::Roots { bundled, ca } => {
            assert!(!bundled);
            assert_eq!(ca.unwrap().bytes, b"ca.pem");
        }
        Trust::Everyone => panic!("a certificate of one's own is no reason to trust everyone"),
    }
    assert!(matches!(
        trust(&TlsArgs::default(), BundledRoots::Included),
        Trust::Roots { bundled: true, ca: None }
    ));
}

#[test]
fn identity_files_come_in_pairs() {
    assert!(identity_files(&TlsArgs::default()).unwrap().is_none());

    let pair = TlsArgs {
        cert: Some(OsText::new("client.pem")),
        key: Some(OsText::new("client.key")),
        ..TlsArgs::default()
    };
    let (cert, key) = identity_files(&pair).unwrap().unwrap();
    assert_eq!(cert.bytes, b"client.pem");
    assert_eq!(key.bytes, b"client.key");

    let lone = TlsArgs {
        key: Some(OsText::new("client.key")),
        ..TlsArgs::default()
    };
    assert_eq!(
        identity_files(&lone).unwrap_err().to_string(),
        "--cert and --key must be provided together"
    );
}

#[test]
fn pem_file_errors_name_the_file() {
    let path = OsText::new("/etc/ca bundle.pem");

    assert_eq!(
        pem_file_error("CA file", &path, &PemFault::Inspect("no such file".to_string()))
            .to_string(),
        "failed to inspect CA file \"/etc/ca bundle.pem\": no such file"
    );
    assert_eq!(
        pem_file_error("client key", &OsText::new("k"), &PemFault::Open("denied".to_string()))
            .to_string(),
        "failed to open client key k: denied"
    );
    assert_eq!(
        pem_file_error("CA file", &OsText::new("d"), &PemFault::NotRegular).to_string(),
        "CA file d is not a regular file"
    );
}

#[test]
fn certificates_are_read_in_their_order() {
    let mut bundle = pem("CERTIFICATE", "AAEC");
    bundle.extend(pem("CERTIFICATE", "AwQ="));

    let certs = load_client_certificates(&OsText::new("client.pem"), &bundle).unwrap();

    let der = certs.iter().map(|cert| cert.der.clone()).collect::<Vec<_>>();
    assert_eq!(der, vec![vec![0, 1, 2], vec![3, 4]]);
}

#[test]
fn a_file_without_certificates_is_refused() {
    let error = load_client_certificates(&OsText::new("client.pem"), b"nothing").unwrap_err();
    assert_eq!(
        error.to_string(),
        "client certificate client.pem does not contain any certificates"
    );

    let error = load_ca(&OsText::new("ca.pem"), b"").unwrap_err();
    assert_eq!(
        error.to_string(),
        "CA file ca.pem does not contain any certificates"
    );
}

#[test]
fn a_broken_pem_file_is_refused() {
    let error =
        load_ca(&OsText::new("ca.pem"), b"-----BEGIN CERTIFICATE-----\nAAEC\n").unwrap_err();

    assert!(error.to_string().starts_with("failed to parse CA file ca.pem: "));
    assert_eq!(error.exit_code(), 3);
}

#[test]
fn a_certificate_that_cannot_be_trusted_is_refused() {
    let error = load_ca(&OsText::new("ca.pem"), &pem("CERTIFICATE", "AAEC")).unwrap_err();

    assert!(error.to_string().starts_with("invalid CA certificate in ca.pem: "));
    assert_eq!(error.exit_code(), 3);
}

#[test]
fn the_format_of_a_client_key_is_kept() {
    for (label, format) in [
        ("PRIVATE KEY", KeyFormat::Pkcs8),
        ("RSA PRIVATE KEY", KeyFormat::Pkcs1),
        ("EC PRIVATE KEY", KeyFormat::Sec1),
    ] {
        let key = load_client_key(&OsText::new("k"), &pem(label, "AAEC")).unwrap();

        assert_eq!(key.format, format);
        assert_eq!(key.der, vec![0, 1, 2]);
    }
}

#[test]
fn a_file_without_a_key_is_refused() {
    let error = load_client_key(&OsText::new("k"), &pem("CERTIFICATE", "AAEC")).unwrap_err();

    assert_eq!(
        error.to_string(),
        "client key k does not contain a supported private key"
    );

    let error = load_client_key(&OsText::new("k"), b"-----BEGIN X-----\nA\n").unwrap_err();
    assert!(error.to_string().starts_with("failed to parse client key k: "));
}

#[test]
fn an_identity_that_does_not_fit_is_a_configuration_error() {
    let error = identity_error("keys may not be consistent");

    assert_eq!(
        error.to_string(),
        "invalid client certificate or key: keys may not be consistent"
    );
    assert_eq!(error.exit_code(), 3);
}
