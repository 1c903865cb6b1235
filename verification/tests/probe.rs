use salus::cli::{Cli, Command, TcpArgs};
use salus::error::AppError;
use salus::probe::{deadline_error, finish, timeout_error, ProbeOptions, ProbeReport};
use salus::timing::Span;

fn options(verbose: bool, quiet: bool, max_latency: Option<Span>) -> ProbeOptions {
    ProbeOptions {
        timeout: Span::from_secs(3),
        quiet,
        verbose,
        max_latency,
    }
}

fn report(elapsed: Span, options: ProbeOptions) -> ProbeReport {
    ProbeReport::new("tcp", "a:1".to_string(), Some("connected".to_string()), elapsed, options)
}

#[test]
fn options_come_from_the_command_line() {
    let cli = Cli {
        timeout: Span::from_secs(5),
        max_latency: Some(Span::from_millis(20)),
        quiet: true,
        verbose: false,
        command: Command::Tcp(TcpArgs {
            addr: "a:1".to_string(),
        }),
    };

    let options = ProbeOptions::from_cli(&cli);

    assert_eq!(options.timeout, Span::from_secs(5));
    assert_eq!(options.max_latency, Some(Span::from_millis(20)));
    assert!(options.quiet && !options.verbose);
    options.validate(true).unwrap();
}

#[test]
fn timeout_must_be_greater_than_zero() {
    let mut options = options(false, false, Some(Span::from_secs(0)));
    options.timeout = Span::from_secs(0);

    let error = options.validate(false).unwrap_err();

    assert_eq!(error.to_string(), "--timeout must be greater than 0");
    assert_eq!(error.exit_code(), 3);
}

#[test]
fn max_latency_must_be_greater_than_zero() {
    let options = options(false, false, Some(Span::from_secs(0)));
    let error = options.validate(true).unwrap_err();

    assert_eq!(error.to_string(), "--max-latency must be greater than 0");
    assert_eq!(error.exit_code(), 3);
    assert_eq!(
        options.validate(false).unwrap_err().to_string(),
        "--timeout is too large"
    );
}

#[test]
fn success_is_silent_by_default() {
    for (verbose, quiet, prints) in [
        (false, false, false),
        (false, true, false),
        (true, true, false),
        (true, false, true),
    ] {
        let exit = report(Span::from_millis(5), options(verbose, quiet, None)).print_and_exit_code();

        assert_eq!(exit.code, 0);
        assert_eq!(exit.line.is_some(), prints);
    }
}

#[test]
fn verbose_success_prints_a_structured_line() {
    let exit = report(Span::from_millis(5), options(true, false, None))
        .print_and_exit_code_with_quiet(false);

    assert_eq!(
        exit.line.unwrap(),
        "result=healthy mode=tcp target=\"a:1\" duration_ms=5 detail=\"connected\""
    );
    let exit = report(Span::from_millis(5), options(true, false, None))
        .print_and_exit_code_with_quiet(true);
    assert!(exit.line.is_none());
}

#[test]
fn a_probe_slower_than_its_limit_fails() {
    let limit = Some(Span::from_millis(20));

    let error = report(Span::from_millis(75), options(false, false, limit))
        .enforce_max_latency()
        .unwrap_err();
    assert_eq!(
        error.to_string(),
        "tcp probe to a:1 exceeded --max-latency 20ms (observed 75ms)"
    );
    assert_eq!(error.exit_code(), 1);

    assert!(report(Span::from_millis(20), options(false, false, limit))
        .enforce_max_latency()
        .is_ok());
    assert!(report(Span::from_secs(75), options(false, false, None))
        .enforce_max_latency()
        .is_ok());
}

#[test]
fn a_probe_that_runs_out_of_time_fails() {
    let error = timeout_error("HTTP", Span::from_millis(1500));

    assert_eq!(error.to_string(), "HTTP probe timed out after 1s 500ms");
    assert_eq!(error.exit_code(), 1);
    assert_eq!(deadline_error().exit_code(), 3);
}

#[test]
fn the_process_ends_on_what_was_found() {
    let healthy = finish(Ok(report(Span::from_millis(5), options(true, false, None))), false);
    assert_eq!(healthy.code, 0);
    assert!(healthy.line.is_some());

    let slow = finish(
        Ok(report(
            Span::from_secs(5),
            options(true, false, Some(Span::from_secs(1))),
        )),
        false,
    );
    assert_eq!(slow.code, 1);
    assert!(slow.line.unwrap().contains("exceeded --max-latency 1s (observed 5s)"));

    let failed = finish(Err(AppError::invalid_config("bad".to_string())), false);
    assert_eq!((failed.code, failed.line.as_deref()), (3, Some("bad")));

    let silent = finish(Err(AppError::failure("down".to_string())), true);
    assert_eq!((silent.code, silent.line), (1, None));
}
