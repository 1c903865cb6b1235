use salus::cli::FileArgs;
use salus::error::AppError;
use salus::os_text::OsText;
use salus::probe::ProbeOptions;
use salus::probes::file::{
    check_facts, validate_file_args, FileAction, FileFacts, FileFault, FileProbe, Modified,
};
use salus::timing::Span;

fn file(contains: &[&str]) -> FileArgs {
    FileArgs {
        path: OsText::new("/tmp/ready"),
        readable: false,
        non_empty: false,
        contains: contains.iter().map(|text| text.to_string()).collect(),
        min_size: None,
        max_size: None,
        max_age: None,
        max_read: 65_536,
    }
}

fn facts(len: u64) -> FileFacts {
    FileFacts {
        is_file: true,
        len,
        modified: Modified::Ago(Span::from_secs(1)),
    }
}

fn options() -> ProbeOptions {
    ProbeOptions {
        timeout: Span::from_secs(3),
        quiet: false,
        verbose: true,
        max_latency: None,
    }
}

fn refusal(args: &FileArgs) -> AppError {
    validate_file_args(args).unwrap_err()
}

fn probe(args: &FileArgs, contents: &[u8], chunk: usize) -> Result<String, AppError> {
    let mut probe = FileProbe::new(args);
    let mut rest = contents;
    loop {
        probe = match probe.action() {
            FileAction::Inspect => probe.on_facts(Ok(facts(contents.len() as u64))),
            FileAction::Open => probe.on_opened(Ok(())),
            FileAction::Read => {
                if rest.is_empty() {
                    probe.on_end()
                } else {
                    let (now, later) = rest.split_at(chunk.min(rest.len()));
                    rest = later;
                    probe.on_data(now)
                }
            }
            FileAction::Finish => {
                let report = probe.finish(Span::from_millis(1), options())?;
                return Ok(report.print_and_exit_code().line.unwrap());
            }
        };
    }
}

#[test]
fn file_probe_succeeds() {
    let mut args = file(&["ready"]);
    args.readable = true;

    for chunk in 1..8 {
        assert_eq!(
            probe(&args, b"ready\n", chunk).unwrap(),
            "result=healthy mode=file target=\"/tmp/ready\" duration_ms=1 detail=\"size=6B\""
        );
    }
}

#[test]
fn file_probe_succeeds_with_readable_only_and_zero_read_limit() {
    let mut args = file(&[]);
    args.readable = true;
    args.max_read = 0;

    assert!(probe(&args, b"ready\n", 4).is_ok());
}

#[test]
fn file_probe_rejects_zero_read_limit_when_content_must_be_read() {
    let mut args = file(&["ready"]);
    args.max_read = 0;

    assert_eq!(
        refusal(&args).to_string(),
        "--max-read must be greater than 0 when file content assertions are used"
    );
}

#[test]
fn file_probe_rejects_excessive_read_limit_when_content_must_be_read() {
    let mut args = file(&["ready"]);
    args.max_read = 16_777_217;

    assert_eq!(refusal(&args).exit_code(), 3);
}

#[test]
fn file_probe_rejects_zero_max_age() {
    let mut args = file(&[]);
    args.max_age = Some(Span::from_secs(0));

    assert_eq!(refusal(&args).to_string(), "--max-age must be greater than 0");
}

#[test]
fn file_probe_rejects_empty_contains_assertion() {
    assert_eq!(refusal(&file(&[""])).to_string(), "--contains must not be empty");
}

#[test]
fn file_probe_rejects_empty_path() {
    let mut args = file(&[]);
    args.path = OsText::new("");

    assert_eq!(refusal(&args).to_string(), "--path must not be empty");
    assert_eq!(
        FileProbe::new(&args)
            .finish(Span::from_secs(0), options())
            .unwrap_err()
            .exit_code(),
        3
    );
}

#[test]
fn file_probe_rejects_an_empty_size_range() {
    let mut args = file(&[]);
    args.min_size = Some(3);
    args.max_size = Some(2);

    assert_eq!(
        refusal(&args).to_string(),
        "invalid file size range: min-size 3 is greater than max-size 2"
    );
}

#[test]
fn file_probe_fails_when_required_text_may_be_beyond_read_limit() {
    let mut args = file(&["ready"]);
    args.max_read = 4;

    for chunk in 1..12 {
        let error = probe(&args, b"aaaaaready\n", chunk).unwrap_err();
        assert_eq!(
            error.to_string(),
            "file /tmp/ready was truncated at 4 bytes, cannot prove required text \"ready\""
        );
        assert_eq!(error.exit_code(), 1);
    }
}

#[test]
fn a_complete_file_at_the_limit_proves_that_text_is_missing() {
    let mut args = file(&["ready"]);
    args.max_read = 4;

    let error = probe(&args, b"aaaa", 3).unwrap_err();

    assert_eq!(
        error.to_string(),
        "file /tmp/ready does not contain required text \"ready\""
    );
}

#[test]
fn the_first_missing_text_is_reported() {
    let error = probe(&file(&["a", "b", "c"]), b"a only", 2).unwrap_err();

    assert!(error.to_string().ends_with("does not contain required text \"b\""));
}

#[test]
fn file_probe_does_not_match_replacement_character_for_invalid_bytes() {
    assert_eq!(
        probe(&file(&["\u{FFFD}"]), b"\xff", 1).unwrap_err().exit_code(),
        1
    );
}

#[test]
fn file_probe_fails_when_modified_time_is_in_the_future() {
    let mut args = file(&[]);
    args.max_age = Some(Span::from_secs(5));
    let mut known = facts(6);
    known.modified = Modified::InFuture;

    let error = check_facts(&args, &known).unwrap_err();

    assert_eq!(
        error.to_string(),
        "file /tmp/ready has a modification time in the future"
    );
    assert_eq!(error.exit_code(), 1);
}

#[test]
fn file_probe_checks_the_age() {
    let mut args = file(&[]);
    args.max_age = Some(Span::from_secs(5));
    let mut known = facts(6);

    known.modified = Modified::Ago(Span::from_secs(5));
    check_facts(&args, &known).unwrap();

    known.modified = Modified::Ago(Span::from_nanos(5_000_000_001));
    assert_eq!(
        check_facts(&args, &known).unwrap_err().to_string(),
        "file /tmp/ready is older than 5s"
    );

    known.modified = Modified::Unknown("not supported".to_string());
    assert_eq!(
        check_facts(&args, &known).unwrap_err().to_string(),
        "failed to read modification time for /tmp/ready: not supported"
    );
}

#[test]
fn file_probe_checks_kind_and_size() {
    let mut args = file(&[]);
    let mut known = facts(0);
    args.non_empty = true;
    assert_eq!(
        check_facts(&args, &known).unwrap_err().to_string(),
        "file /tmp/ready is empty"
    );

    args.min_size = Some(2);
    args.max_size = Some(4);
    for len in 2..=4 {
        check_facts(&args, &facts(len)).unwrap();
    }
    assert_eq!(
        check_facts(&args, &facts(1)).unwrap_err().to_string(),
        "file /tmp/ready is smaller than 2 bytes"
    );
    assert_eq!(
        check_facts(&args, &facts(5)).unwrap_err().to_string(),
        "file /tmp/ready is larger than 4 bytes"
    );

    known.is_file = false;
    assert_eq!(
        check_facts(&args, &known).unwrap_err().to_string(),
        "/tmp/ready is not a regular file"
    );
}

#[test]
fn faults_on_the_way_end_the_probe() {
    let args = file(&["ready"]);

    let missing = FileProbe::new(&args).on_facts(Err(FileFault::Missing));
    assert_eq!(
        missing.finish(Span::from_secs(0), options()).unwrap_err().to_string(),
        "file /tmp/ready does not exist"
    );

    let hidden = FileProbe::new(&args).on_facts(Err(FileFault::Inspect("denied".to_string())));
    assert_eq!(
        hidden.finish(Span::from_secs(0), options()).unwrap_err().to_string(),
        "failed to read metadata for /tmp/ready: denied"
    );

    let closed = FileProbe::new(&args)
        .on_facts(Ok(facts(6)))
        .on_opened(Err(FileFault::Open("denied".to_string())));
    assert_eq!(
        closed.finish(Span::from_secs(0), options()).unwrap_err().to_string(),
        "failed to open /tmp/ready: denied"
    );

    let broken = FileProbe::new(&args)
        .on_facts(Ok(facts(6)))
        .on_opened(Ok(()))
        .on_data(b"re")
        .on_read_error("io".to_string());
    let error = broken.finish(Span::from_secs(0), options()).unwrap_err();
    assert_eq!(error.to_string(), "failed to read /tmp/ready: io");
    assert_eq!(error.exit_code(), 1);
}

#[test]
fn file_error_escapes_control_characters_in_path() {
    let mut args = file(&[]);
    args.path = OsText::new("/tmp/bad\npath");

    let error = FileProbe::new(&args)
        .on_facts(Err(FileFault::Missing))
        .finish(Span::from_secs(0), options())
        .unwrap_err();

    assert_eq!(error.to_string(), "file \"/tmp/bad\\npath\" does not exist");
}

#[test]
fn verbose_file_success_escapes_non_utf8_path() {
    let mut args = file(&[]);
    args.path = OsText::from_bytes(b"/tmp/\xff".to_vec());

    let line = probe(&args, b"", 1).unwrap();

    assert!(line.contains("\\xFF"));
    assert!(!line.contains('\u{FFFD}'));
}
