use salus::timing::Span;

#[test]
fn spans_are_seconds_and_nanoseconds() {
    let span = Span::new(3, 250_000_001);

    assert_eq!(span.as_secs(), 3);
    assert_eq!(span.subsec_nanos(), 250_000_001);
    assert_eq!(span.as_nanos(), 3_250_000_001);
    assert_eq!(span.as_millis(), 3250);
    assert_eq!(Span::from_nanos(3_250_000_001), span);
    assert_eq!(Span::from_millis(3250), Span::new(3, 250_000_000));
    assert!(Span::from_secs(0).is_zero());
    assert!(!Span::from_nanos(1).is_zero());
}

#[test]
fn spans_are_compared() {
    let second = Span::from_secs(1);
    let moment = Span::from_millis(400);

    assert!(second.exceeds(moment));
    assert!(!second.exceeds(second));
    assert_eq!(second.shorter(moment), moment);
    assert_eq!(moment.shorter(second), moment);
    assert_eq!(Span::new(u64::MAX, 999_999_999).as_millis(), 18_446_744_073_709_551_615_999);
}
