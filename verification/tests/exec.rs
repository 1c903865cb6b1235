use salus::cli::ExecArgs;
use salus::error::AppError;
use salus::os_text::OsText;
use salus::probe::ProbeOptions;
use salus::probes::exec::{
    next_output_step, run_error, spawn_error, validate_exec_args, BufferedOutput, ExecAction,
    ExecProbe, ExitStatus, OutputReader, OutputStep, RunFault, SpawnFault,
};
use salus::timing::Span;

fn exec(command: &[&str]) -> ExecArgs {
    ExecArgs {
        exit_code: Vec::new(),
        stdout_contains: Vec::new(),
        stderr_contains: Vec::new(),
        max_output: 65_536,
        command: command.iter().map(|arg| OsText::new(arg)).collect(),
    }
}

fn options() -> ProbeOptions {
    ProbeOptions {
        timeout: Span::from_secs(3),
        quiet: false,
        verbose: true,
        max_latency: None,
    }
}

fn ended(code: i32) -> ExitStatus {
    ExitStatus {
        code: Some(code),
        signal: None,
    }
}

fn read_limited(stream: &[u8], limit: usize, required_texts: Vec<String>) -> BufferedOutput {
    let mut reader = OutputReader::new(limit, &required_texts);
    for chunk in stream.chunks(4096) {
        reader.on_data(chunk);
    }
    reader.on_end();
    reader.snapshot()
}

fn run(args: &ExecArgs, status: ExitStatus, stdout: &[u8], stderr: &[u8]) -> Result<String, AppError> {
    let mut probe = ExecProbe::new(args);
    loop {
        probe = match probe.action() {
            ExecAction::Spawn { .. } => probe.on_spawned(Ok(())),
            ExecAction::Wait => probe.on_exited(status),
            ExecAction::CollectStdout => {
                probe.on_stdout(read_limited(stdout, args.max_output, args.stdout_contains.clone()))
            }
            ExecAction::CollectStderr => {
                probe.on_stderr(read_limited(stderr, args.max_output, args.stderr_contains.clone()))
            }
            ExecAction::Finish => {
                let report = probe.finish(Span::from_millis(1), options())?;
                return Ok(report.print_and_exit_code().line.unwrap());
            }
        };
    }
}

#[test]
fn read_limited_marks_truncated_output() {
    let output = read_limited(&b"abcdef"[..], 3, Vec::new());

    assert_eq!(output.bytes, b"abc");
    assert!(output.truncated);
    assert!(output.complete);
}

#[test]
fn read_limited_leaves_short_output_untruncated() {
    let output = read_limited(&b"abc"[..], 3, Vec::new());

    assert_eq!(output.bytes, b"abc");
    assert!(!output.truncated);
    assert!(output.complete);
}

#[test]
fn complete_output_at_limit_proves_absence() {
    let output = read_limited(&b"abcd"[..], 4, vec!["ready".to_string()]);

    assert_eq!(output.bytes, b"abcd");
    assert!(output.limit_reached);
    assert!(output.complete);
    assert!(!output.cannot_prove_absence());
}

#[test]
fn output_capture_reports_match_before_eof() {
    let mut reader = OutputReader::new(65_536, &["ok".to_string()]);
    reader.on_data(b"ok");

    let output = reader.snapshot();

    assert_eq!(output.bytes, b"ok");
    assert!(!output.truncated);
    assert!(output.matched);
    assert!(!output.complete);
}

#[test]
fn exec_probe_succeeds() {
    let mut args = exec(&["sh", "-c", "printf ok"]);
    args.stdout_contains = vec!["ok".to_string()];

    assert_eq!(
        run(&args, ended(0), b"ok", b"").unwrap(),
        "result=healthy mode=exec target=\"sh\" duration_ms=1 detail=\"exit_code=0\""
    );
}

#[test]
fn streams_are_captured_only_where_they_matter() {
    let mut args = exec(&["sh"]);
    assert!(matches!(
        ExecProbe::new(&args).action(),
        ExecAction::Spawn { capture_stdout: false, capture_stderr: false }
    ));

    args.stderr_contains = vec!["x".to_string()];
    assert!(matches!(
        ExecProbe::new(&args).action(),
        ExecAction::Spawn { capture_stdout: false, capture_stderr: true }
    ));
    assert!(run(&args, ended(0), b"", b"x").is_ok());
    assert_eq!(
        run(&args, ended(0), b"x", b"y").unwrap_err().to_string(),
        "stderr of sh does not contain required text \"x\""
    );
}

#[test]
fn both_streams_are_held_against_their_texts() {
    let mut args = exec(&["sh"]);
    args.stdout_contains = vec!["a".to_string(), "b".to_string()];
    args.stderr_contains = vec!["c".to_string()];

    assert!(run(&args, ended(0), b"b a", b"cc").is_ok());
    assert_eq!(
        run(&args, ended(0), b"a", b"").unwrap_err().to_string(),
        "stdout of sh does not contain required text \"b\""
    );
    assert_eq!(
        run(&args, ended(0), b"ab", b"").unwrap_err().to_string(),
        "stderr of sh does not contain required text \"c\""
    );
}

#[test]
fn exec_probe_rejects_zero_output_limit_with_output_assertion() {
    let mut args = exec(&["sh"]);
    args.stdout_contains = vec!["ok".to_string()];
    args.max_output = 0;

    let error = validate_exec_args(&args).unwrap_err();

    assert_eq!(
        error.to_string(),
        "--max-output must be greater than 0 when output assertions are used"
    );
    assert_eq!(error.exit_code(), 3);
}

#[test]
fn exec_probe_rejects_excessive_output_limit_with_output_assertion() {
    let mut args = exec(&["sh"]);
    args.stderr_contains = vec!["ok".to_string()];
    args.max_output = 16_777_217;

    assert_eq!(validate_exec_args(&args).unwrap_err().exit_code(), 3);
}

#[test]
fn exec_probe_rejects_empty_stdout_contains_assertion() {
    let mut args = exec(&["sh"]);
    args.stdout_contains = vec![String::new()];
    assert_eq!(
        validate_exec_args(&args).unwrap_err().to_string(),
        "--stdout-contains must not be empty"
    );

    let mut args = exec(&["sh"]);
    args.stderr_contains = vec!["a".to_string(), String::new()];
    assert_eq!(
        validate_exec_args(&args).unwrap_err().to_string(),
        "--stderr-contains must not be empty"
    );
}

#[test]
fn exec_probe_rejects_empty_command() {
    assert_eq!(
        validate_exec_args(&exec(&[""])).unwrap_err().to_string(),
        "command must not be empty"
    );
    assert_eq!(
        validate_exec_args(&exec(&[])).unwrap_err().to_string(),
        "missing command to execute"
    );
}

#[test]
fn exec_probe_rejects_numbers_that_are_no_exit_codes() {
    for code in [-1, 256, i32::MIN] {
        let mut args = exec(&["sh"]);
        args.exit_code = vec![0, code];

        assert_eq!(
            validate_exec_args(&args).unwrap_err().to_string(),
            format!("invalid exit code {code}, expected 0..=255")
        );
    }
}

#[test]
fn only_accepted_exit_codes_pass() {
    let mut args = exec(&["sh"]);
    assert_eq!(
        run(&args, ended(42), b"", b"").unwrap_err().to_string(),
        "command sh exited with 42"
    );

    args.exit_code = vec![42, 7];
    assert!(run(&args, ended(42), b"", b"").is_ok());
    assert!(run(&args, ended(7), b"", b"").is_ok());
    let error = run(&args, ended(0), b"", b"").unwrap_err();
    assert_eq!(error.to_string(), "command sh exited with 0");
    assert_eq!(error.exit_code(), 1);
}

#[test]
fn the_exit_code_comes_before_the_output() {
    let mut args = exec(&["sh"]);
    args.stdout_contains = vec!["ok".to_string()];

    let probe = ExecProbe::new(&args).on_spawned(Ok(())).on_exited(ended(42));

    assert!(matches!(probe.action(), ExecAction::Finish));
}

#[test]
fn exec_probe_fails_when_command_is_terminated_by_signal() {
    let args = exec(&["sh"]);
    let killed = ExitStatus {
        code: None,
        signal: Some(15),
    };
    assert_eq!(
        run(&args, killed, b"", b"").unwrap_err().to_string(),
        "command sh terminated without an exit code (signal 15)"
    );

    let gone = ExitStatus {
        code: None,
        signal: None,
    };
    assert_eq!(
        run(&args, gone, b"", b"").unwrap_err().to_string(),
        "command sh terminated without an exit code"
    );
}

#[test]
fn exec_probe_fails_when_required_stdout_may_be_beyond_output_limit() {
    let mut args = exec(&["sh"]);
    args.stdout_contains = vec!["ready".to_string()];
    args.max_output = 4;

    assert_eq!(
        run(&args, ended(0), b"aaaaready", b"").unwrap_err().to_string(),
        "stdout of sh reached --max-output 4 bytes, cannot prove required text \"ready\""
    );
}

#[test]
fn exec_complete_output_at_limit_reports_missing_required_text() {
    let mut args = exec(&["sh"]);
    args.stdout_contains = vec!["ready".to_string()];
    args.max_output = 4;

    assert_eq!(
        run(&args, ended(0), b"aaaa", b"").unwrap_err().to_string(),
        "stdout of sh does not contain required text \"ready\""
    );
}

#[test]
fn exec_probe_does_not_match_replacement_character_for_invalid_stdout_bytes() {
    let mut args = exec(&["sh"]);
    args.stdout_contains = vec!["\u{FFFD}".to_string()];

    assert_eq!(run(&args, ended(0), b"\xff", b"").unwrap_err().exit_code(), 1);
}

#[test]
fn output_beyond_the_limit_does_not_undo_a_match() {
    let mut reader = OutputReader::new(2, &["ok".to_string()]);
    reader.on_data(b"o");
    reader.on_data(b"k!");
    reader.on_data(&[0; 4096]);

    let output = reader.snapshot();

    assert!(output.matched && output.truncated && output.limit_reached);
    assert!(output.cannot_prove_absence());
}

#[test]
fn a_stream_that_stays_open_is_not_waited_for_long() {
    let second = Span::from_secs(1);
    let grace = Span::from_millis(250);
    let none = Span::from_secs(0);
    let idle = BufferedOutput::default();

    assert!(matches!(next_output_step(true, &idle, none, none), OutputStep::UseFinal));
    assert!(matches!(next_output_step(false, &idle, none, second), OutputStep::UseSnapshot));
    assert!(matches!(next_output_step(false, &idle, grace, none), OutputStep::TimedOut));
    match next_output_step(false, &idle, grace, second) {
        OutputStep::Wait(span) => assert_eq!(span, grace),
        other => panic!("{other:?}"),
    }
    match next_output_step(false, &idle, second, grace) {
        OutputStep::Wait(span) => assert_eq!(span, grace),
        other => panic!("{other:?}"),
    }

    let matched = BufferedOutput {
        matched: true,
        ..BufferedOutput::default()
    };
    assert!(matches!(next_output_step(false, &matched, grace, none), OutputStep::UseSnapshot));
    let truncated = BufferedOutput {
        truncated: true,
        ..BufferedOutput::default()
    };
    assert!(matches!(next_output_step(false, &truncated, grace, second), OutputStep::UseSnapshot));
}

#[test]
fn a_command_that_does_not_start_is_told_apart() {
    let program = OsText::new("no such");

    let missing = spawn_error(&program, &SpawnFault::NotFound);
    assert_eq!(missing.to_string(), "command \"no such\" was not found");
    assert_eq!(missing.exit_code(), 3);

    let denied = spawn_error(&program, &SpawnFault::PermissionDenied);
    assert_eq!(denied.to_string(), "command \"no such\" is not executable");
    assert_eq!(denied.exit_code(), 3);

    let args = exec(&["no such"]);
    let other = ExecProbe::new(&args)
        .on_spawned(Err(SpawnFault::Other("too many".to_string())))
        .finish(Span::from_secs(0), options())
        .unwrap_err();
    assert_eq!(other.to_string(), "failed to spawn \"no such\": too many");
    assert_eq!(other.exit_code(), 4);
}

#[test]
fn a_command_that_takes_too_long_fails() {
    let args = exec(&["sleep"]);

    let error = ExecProbe::new(&args)
        .on_spawned(Ok(()))
        .on_timeout(Span::from_millis(100))
        .finish(Span::from_secs(0), options())
        .unwrap_err();

    assert_eq!(error.to_string(), "command sleep timed out after 100ms");
    assert_eq!(error.exit_code(), 1);
}

#[test]
fn faults_of_the_tool_are_internal() {
    for (fault, text) in [
        (RunFault::Capture, "failed to capture child stdout"),
        (RunFault::Wait("io".to_string()), "failed waiting for child: io"),
        (RunFault::Read("io".to_string()), "failed reading child output: io"),
        (RunFault::Task("panic".to_string()), "stdout task failed: panic"),
    ] {
        let error = run_error("stdout", &fault);
        assert_eq!(error.to_string(), text);
        assert_eq!(error.exit_code(), 4);
    }

    let args = exec(&["sh"]);
    let probe = ExecProbe::new(&args)
        .on_spawned(Ok(()))
        .on_fault("stdout", &RunFault::Wait("io".to_string()));
    assert_eq!(
        probe.finish(Span::from_secs(0), options()).unwrap_err().exit_code(),
        4
    );
}

#[test]
fn a_command_that_is_no_text_is_named_as_well_as_can_be() {
    let mut args = exec(&[]);
    args.command = vec![OsText::from_bytes(vec![b's', 0xff])];

    let error = run(&args, ended(1), b"", b"").unwrap_err();

    assert_eq!(error.to_string(), "command s\u{FFFD} exited with 1");
}
