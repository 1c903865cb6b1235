use salus::diagnostic::{os_str, path, path_field, value};
use salus::os_text::OsText;

#[test]
fn value_preserves_plain_text() {
    assert_eq!(value("127.0.0.1:8080"), "127.0.0.1:8080");
}

#[test]
fn value_escapes_control_characters() {
    assert_eq!(value("bad\naddr:80"), "\"bad\\naddr:80\"");
}

#[test]
fn value_quotes_empty_text() {
    assert_eq!(value(""), "\"\"");
}

#[test]
fn value_quotes_surrounding_whitespace() {
    assert_eq!(value(" bad "), "\" bad \"");
}

#[test]
fn value_quotes_embedded_whitespace() {
    assert_eq!(value("bad value"), "\"bad value\"");
}

#[test]
fn value_quotes_embedded_quote_and_backslash() {
    assert_eq!(value("bad\"value"), "\"bad\\\"value\"");
    assert_eq!(value("bad\\value"), "\"bad\\\\value\"");
}

#[test]
fn path_escapes_control_characters() {
    assert_eq!(path(&OsText::new("/tmp/bad\npath")), "\"/tmp/bad\\npath\"");
}

#[test]
fn os_str_escapes_control_characters() {
    assert_eq!(os_str(&OsText::new("bad\ncmd")), "\"bad\\ncmd\"");
}

#[test]
fn os_str_quotes_surrounding_whitespace() {
    assert_eq!(os_str(&OsText::new(" cmd ")), "\" cmd \"");
}

#[test]
fn path_quotes_surrounding_whitespace() {
    assert_eq!(path(&OsText::new("/tmp/ready ")), "\"/tmp/ready \"");
}

#[test]
fn path_field_preserves_utf8_without_prequoting() {
    assert_eq!(path_field(&OsText::new("/tmp/ready path")), "/tmp/ready path");
}

#[test]
fn os_str_escapes_non_utf8_bytes() {
    let raw = OsText::from_bytes(vec![b'c', b'm', b'd', 0xff]);

    assert_eq!(os_str(&raw), "\"cmd\\xFF\"");
}

#[test]
fn path_escapes_non_utf8_bytes() {
    let raw = OsText::from_bytes(vec![b'/', b't', b'm', b'p', b'/', 0xff]);

    assert_eq!(path(&raw), "\"/tmp/\\xFF\"");
}

#[test]
fn path_field_escapes_non_utf8_bytes() {
    let raw = OsText::from_bytes(vec![b'/', b't', b'm', b'p', b'/', 0xff]);

    assert_eq!(path_field(&raw), "\"/tmp/\\xFF\"");
}

fn escapes() -> Vec<(char, String)> {
    (0..=0x10ffff_u32)
        .filter_map(char::from_u32)
        .map(|c| {
            let escaped = match c {
                '\'' => "'".to_string(),
                _ => c.escape_debug().to_string(),
            };
            (c, escaped)
        })
        .collect()
}

#[test]
fn quoted_values_hold_each_character_as_a_literal_does() {
    for (c, escaped) in escapes() {
        assert_eq!(
            salus::diagnostic::value(&format!("a{c} {c}b")),
            format!("\"a{escaped} {escaped}b\"")
        );
        let short = match c {
            '\0' => "\\0",
            '\t' => "\\t",
            '\r' => "\\r",
            '\n' => "\\n",
            '\\' => "\\\\",
            '"' => "\\\"",
            _ => "",
        };
        let as_code = format!("\\u{{{:x}}}", c as u32);
        if !short.is_empty() {
            assert_eq!(escaped, short);
        } else if c.is_control() {
            assert_eq!(escaped, as_code);
        } else {
            assert!(escaped == c.to_string() || escaped == as_code, "{c:?}");
        }
    }
}

#[test]
fn shown_values_stay_on_one_line_and_are_told_apart() {
    let texts = ["", "\"\"", "a", "\"a\"", "a b", "a\nb", "a\\nb", "\u{1}", "\\u{1}", "\u{1}1"];
    let shown: Vec<String> = texts.iter().map(|text| salus::diagnostic::value(text)).collect();

    for (i, a) in shown.iter().enumerate() {
        assert!(!a.is_empty() && !a.chars().any(char::is_control));
        for b in &shown[i + 1..] {
            assert_ne!(a, b);
        }
    }
}
