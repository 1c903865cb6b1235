use salus::cli::TcpArgs;
use salus::error::AppError;
use salus::probe::ProbeOptions;
use salus::probes::tcp::{
    per_attempt_timeout, report, resolve_error, validate_tcp_addr, validate_tcp_args, Attempts,
};
use salus::timing::Span;

fn options() -> ProbeOptions {
    ProbeOptions {
        timeout: Span::from_secs(3),
        quiet: false,
        verbose: true,
        max_latency: None,
    }
}

fn verdict(attempts: &Attempts) -> Result<String, AppError> {
    attempts
        .finish(&tcp("db:5432"), Span::from_nanos(2_999_999), options())
        .map(|report| report.print_and_exit_code().line.unwrap())
}

fn tcp(addr: &str) -> TcpArgs {
    TcpArgs {
        addr: addr.to_string(),
    }
}

#[test]
fn per_attempt_timeout_divides_remaining_budget() {
    assert_eq!(
        per_attempt_timeout(Span::from_secs(3), 3),
        Span::from_secs(1)
    );
}

#[test]
fn per_attempt_timeout_returns_full_budget_for_last_address() {
    assert_eq!(
        per_attempt_timeout(Span::from_millis(750), 1),
        Span::from_millis(750)
    );
}

#[test]
fn per_attempt_timeout_keeps_a_minimum_of_one_millisecond() {
    assert_eq!(
        per_attempt_timeout(Span::from_nanos(1), 8),
        Span::from_millis(1)
    );
}

#[test]
fn per_attempt_timeout_counts_no_attempt_as_one() {
    assert_eq!(
        per_attempt_timeout(Span::from_secs(2), 0),
        Span::from_secs(2)
    );
}

#[test]
fn tcp_probe_rejects_empty_address() {
    let error = validate_tcp_args(&tcp("")).unwrap_err();

    assert_eq!(error.to_string(), "--addr must not be empty");
    assert_eq!(error.exit_code(), 3);
}

#[test]
fn tcp_probe_rejects_address_without_hostname() {
    assert_eq!(validate_tcp_addr(":80").unwrap_err().exit_code(), 3);
}

#[test]
fn tcp_probe_rejects_empty_bracketed_host() {
    assert_eq!(validate_tcp_addr("[]:80").unwrap_err().exit_code(), 3);
}

#[test]
fn tcp_probe_rejects_embedded_bracket_host() {
    assert_eq!(validate_tcp_addr("example[::1]:80").unwrap_err().exit_code(), 3);
}

#[test]
fn tcp_probe_rejects_zero_port() {
    assert_eq!(
        validate_tcp_addr("127.0.0.1:0").unwrap_err().to_string(),
        "invalid TCP address 127.0.0.1:0: port must be between 1 and 65535"
    );
}

#[test]
fn tcp_probe_rejects_out_of_range_port() {
    assert_eq!(validate_tcp_addr("127.0.0.1:65536").unwrap_err().exit_code(), 3);
}

#[test]
fn tcp_error_escapes_control_characters_in_address() {
    let error = validate_tcp_addr("bad\naddr:80").unwrap_err();

    assert!(!error.to_string().contains("bad\naddr:80"));
    assert!(error.to_string().contains("\"bad\\naddr:80\""));
}

#[test]
fn tcp_addresses_are_hosts_with_a_port() {
    for addr in ["127.0.0.1:5432", "localhost:1", "[::1]:65535", "a-b.example:80"] {
        validate_tcp_args(&tcp(addr)).unwrap();
    }
}

#[test]
fn attempts_share_what_is_left() {
    let mut attempts = Attempts::new("db:5432", 3).unwrap();

    let (index, timeout) = attempts.next(Span::from_secs(3)).unwrap();
    assert_eq!((index, timeout), (0, Span::from_secs(1)));
    attempts.failed("refused".to_string());

    let (index, timeout) = attempts.next(Span::from_secs(1)).unwrap();
    assert_eq!((index, timeout), (1, Span::from_millis(500)));
    attempts.timed_out("10.0.0.1:5432");

    let (index, timeout) = attempts.next(Span::from_millis(10)).unwrap();
    assert_eq!((index, timeout), (2, Span::from_millis(10)));
    assert_eq!(
        verdict(&attempts).unwrap_err().to_string(),
        "failed to connect to db:5432: connection to 10.0.0.1:5432 timed out"
    );
    attempts.failed("unreachable".to_string());

    assert!(attempts.next(Span::from_secs(1)).is_none());
    let error = verdict(&attempts).unwrap_err();
    assert_eq!(error.to_string(), "failed to connect to db:5432: unreachable");
    assert_eq!(error.exit_code(), 1);
}

#[test]
fn no_attempt_is_made_without_time() {
    let attempts = Attempts::new("db:5432", 1).unwrap();

    assert!(attempts.next(Span::from_secs(0)).is_none());
    assert_eq!(
        verdict(&attempts).unwrap_err().to_string(),
        "timed out connecting to db:5432"
    );
}

#[test]
fn a_name_without_addresses_fails() {
    let error = Attempts::new("db:5432", 0).unwrap_err();

    assert_eq!(error.to_string(), "no TCP addresses resolved for db:5432");
    assert_eq!(error.exit_code(), 1);
}

#[test]
fn a_name_that_cannot_be_resolved_fails() {
    let error = resolve_error("db:5432", false, "no such host");
    assert_eq!(error.to_string(), "failed to resolve db:5432: no such host");
    assert_eq!(error.exit_code(), 1);

    let error = resolve_error("db:5432", true, "bad port");
    assert_eq!(error.to_string(), "invalid TCP address db:5432: bad port");
    assert_eq!(error.exit_code(), 3);
}

#[test]
fn a_connection_is_reported() {
    let line = "result=healthy mode=tcp target=\"db:5432\" duration_ms=2 detail=\"connected\"";
    let found = report(&tcp("db:5432"), Span::from_nanos(2_999_999), options());
    assert_eq!(found.print_and_exit_code().line.unwrap(), line);

    let mut attempts = Attempts::new("db:5432", 3).unwrap();
    attempts.failed("refused".to_string());
    assert!(verdict(&attempts).is_err());
    attempts.connected();

    assert!(attempts.next(Span::from_secs(1)).is_none());
    assert_eq!(verdict(&attempts).unwrap(), line);
}
