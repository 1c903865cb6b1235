use salus::os_text::OsText;
use salus::timing::Span;
use salus::validation::{
    validate_capture_limit, validate_non_empty_path, validate_non_empty_str,
    validate_non_empty_values, validate_positive_duration, MAX_CAPTURE_BYTES,
};

#[test]
fn capture_limit_validation_only_applies_when_assertions_are_enabled() {
    validate_capture_limit("--max-body", 0, "body assertions", false).unwrap();

    let error = validate_capture_limit("--max-body", 0, "body assertions", true).unwrap_err();

    assert_eq!(
        error.to_string(),
        "--max-body must be greater than 0 when body assertions are used"
    );
}

#[test]
fn non_empty_str_validation_reports_flag_name() {
    let error = validate_non_empty_str("--url", "").unwrap_err();

    assert_eq!(error.to_string(), "--url must not be empty");
}

#[test]
fn non_empty_path_validation_reports_flag_name() {
    let error = validate_non_empty_path("--path", &OsText::new("")).unwrap_err();

    assert_eq!(error.to_string(), "--path must not be empty");
}

#[test]
fn non_empty_values_validation_reports_flag_name() {
    let error = validate_non_empty_values("--contains", &[String::new()]).unwrap_err();

    assert_eq!(error.to_string(), "--contains must not be empty");
}

#[test]
fn positive_duration_validation_reports_flag_name() {
    let error = validate_positive_duration("--timeout", Span::from_secs(0)).unwrap_err();

    assert_eq!(error.to_string(), "--timeout must be greater than 0");
}

#[test]
fn capture_limit_has_an_upper_bound() {
    validate_capture_limit("--max-read", MAX_CAPTURE_BYTES, "file content assertions", true)
        .unwrap();

    let error =
        validate_capture_limit("--max-read", 16_777_217, "file content assertions", true)
            .unwrap_err();

    assert_eq!(
        error.to_string(),
        "--max-read must be at most 16777216 bytes when file content assertions are used"
    );
    assert_eq!(error.exit_code(), 3);
}

#[test]
fn values_that_are_there_pass() {
    validate_non_empty_str("--url", "x").unwrap();
    validate_non_empty_path("--path", &OsText::new("x")).unwrap();
    validate_non_empty_values("--contains", &[]).unwrap();
    validate_non_empty_values("--contains", &["a".to_string(), "b".to_string()]).unwrap();
    validate_positive_duration("--timeout", Span::from_nanos(1)).unwrap();
    assert!(validate_non_empty_values("--contains", &["a".to_string(), String::new()]).is_err());
}
