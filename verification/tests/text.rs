use salus::number::{decimal, parse_u16, signed_decimal};
use salus::os_text::OsText;
use salus::text::{is_control, is_whitespace, rsplit_once_char, split_once_pair, to_upper, trim};

#[test]
fn classes_of_characters_are_those_of_unicode() {
    for code in 0..=0x10ffff_u32 {
        if let Some(c) = char::from_u32(code) {
            assert_eq!(is_whitespace(c), c.is_whitespace(), "{code:x}");
            assert_eq!(is_control(c), c.is_control(), "{code:x}");
        }
    }
}

#[test]
fn trimming_takes_off_whitespace_at_both_ends() {
    for text in ["", " ", "a", " a", "a ", "\t a b\u{3000}\n", "\u{200b}a"] {
        assert_eq!(trim(text), text.trim());
    }
}

#[test]
fn splitting_finds_the_first_pair_and_the_last_character() {
    assert_eq!(split_once_pair("a:-b:-c", ':', '-'), Some(("a", "b:-c")));
    assert_eq!(split_once_pair(":::-", ':', '-'), Some(("::", "")));
    assert_eq!(split_once_pair("a:b-", ':', '-'), None);
    assert_eq!(rsplit_once_char("a:b:c", ':'), Some(("a:b", "c")));
    assert_eq!(rsplit_once_char("abc", ':'), None);
}

#[test]
fn upper_case_is_that_of_ascii() {
    assert_eq!(to_upper("get \u{e9}z{"), "GET \u{e9}Z{");
}

#[test]
fn numbers_are_written_in_decimal() {
    for n in [0, 1, 9, 10, 99, 100, 65_535, u128::MAX] {
        assert_eq!(decimal(n), n.to_string());
    }
    for n in [0, 1, -1, 255, i32::MAX, i32::MIN] {
        assert_eq!(signed_decimal(n), n.to_string());
    }
}

#[test]
fn numbers_are_read_as_the_standard_library_does() {
    for text in ["", "+", "0", "+7", "-1", "65535", "65536", "007", "1 ", "99999999999999999999"] {
        assert_eq!(parse_u16(text), text.parse::<u16>().ok(), "{text:?}");
    }
}

#[test]
fn raw_bytes_become_text_where_they_can() {
    assert_eq!(OsText::new("a\u{e9}").to_str(), Some("a\u{e9}"));
    assert_eq!(OsText::from_bytes(vec![b'a', 0xff]).to_str(), None);
    assert_eq!(
        OsText::from_bytes(vec![b'a', 0xff]).to_string_lossy(),
        "a\u{fffd}"
    );
    assert_eq!(OsText::new("it").to_string_lossy(), "it");
    assert!(OsText::new("").is_empty());
    assert_eq!(OsText::new("x").copy().bytes, b"x");
}

#[test]
fn raw_bytes_are_quoted_byte_by_byte() {
    let raw = OsText::from_bytes(b"a\"\\\n\xe2\x82\xac\xe2\x82\xf0\x9f\x98\x80".to_vec());

    assert_eq!(
        raw.quoted(),
        "\"a\\\"\\\\\\n\u{20ac}\\xE2\\x82\u{1F600}\""
    );
    assert_eq!(OsText::new("plain").quoted(), "\"plain\"");
}

#[test]
fn raw_text_is_quoted_as_a_path_is() {
    for code in 0..=0x1ffff_u32 {
        if let Some(c) = char::from_u32(code) {
            let text = format!("a{c}b");
            assert_eq!(
                OsText::new(&text).quoted(),
                format!("{:?}", std::path::Path::new(&text)),
                "{code:x}"
            );
        }
    }
}
