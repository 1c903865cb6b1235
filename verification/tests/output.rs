use salus::output::{format_success, quote_field_value};

#[test]
fn success_output_quotes_and_escapes_fields() {
    let formatted = format_success("file", "/tmp/ready\u{1b} file", 7, Some("status=\"ok\""));

    assert_eq!(
        formatted,
        "result=healthy mode=file target=\"/tmp/ready\\u{001B} file\" duration_ms=7 detail=\"status=\\\"ok\\\"\""
    );
}

#[test]
fn success_output_omits_an_empty_detail() {
    assert_eq!(
        format_success("tcp", "a:1", 0, None),
        "result=healthy mode=tcp target=\"a:1\" duration_ms=0"
    );
    assert_eq!(
        format_success("tcp", "a:1", 12, Some("")),
        "result=healthy mode=tcp target=\"a:1\" duration_ms=12"
    );
}

#[test]
fn fields_escape_what_would_break_the_line() {
    assert_eq!(
        quote_field_value("a\\b\"c\nd\re\tf\u{7f}g\u{9f}h"),
        "\"a\\\\b\\\"c\\nd\\re\\tf\\u{007F}g\\u{009F}h\""
    );
    for code in 0..=0x9f_u32 {
        let text = char::from_u32(code).unwrap().to_string();
        assert!(!quote_field_value(&text).chars().any(char::is_control));
    }
}

#[test]
fn different_values_have_different_fields() {
    let values = ["\n", "\\n", "\\", "\\\\", "n", "\u{1}", "\\u{0001}", "\"", ""];
    for a in values {
        for b in values {
            assert_eq!(quote_field_value(a) == quote_field_value(b), a == b);
        }
    }
}

#[test]
fn a_success_line_is_one_line() {
    let line = salus::output::format_success("file", "/a\nb\u{85}", 7, Some("x\ty\u{7f}"));

    assert!(!line.chars().any(char::is_control));
}
