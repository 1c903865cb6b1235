use salus::error::AppError;

#[test]
fn exit_codes_tell_the_kinds_apart() {
    assert_eq!(AppError::failure("a".to_string()).exit_code(), 1);
    assert_eq!(AppError::invalid_config("a".to_string()).exit_code(), 3);
    assert_eq!(AppError::internal("a".to_string()).exit_code(), 4);
}

#[test]
fn errors_are_printed_unless_silence_is_asked_for() {
    let error = AppError::internal("broken".to_string());

    let exit = error.print_and_exit_code_with_quiet(false);
    assert_eq!(exit.code, 4);
    assert_eq!(exit.line.unwrap(), "broken");

    let exit = error.print_and_exit_code_with_quiet(true);
    assert_eq!(exit.code, 4);
    assert!(exit.line.is_none());
    assert_eq!(error.to_string(), "broken");
}
