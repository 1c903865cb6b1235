use salus::text_match::{contains_bytes, contains_slice, TextMatcher};

#[test]
fn matcher_finds_text_across_append_boundary() {
    let mut matcher = TextMatcher::new(&["ready".to_string()]);
    let mut bytes = b"rea".to_vec();
    matcher.observe_appended(&bytes, 0);

    assert!(!matcher.all_matched());

    let previous_len = bytes.len();
    bytes.extend_from_slice(b"dy");
    matcher.observe_appended(&bytes, previous_len);

    assert!(matcher.all_matched());
}

#[test]
fn matcher_tracks_any_match() {
    let mut matcher = TextMatcher::new(&["bad".to_string(), "error".to_string()]);
    matcher.observe_appended(b"all bad", 0);

    assert!(matcher.any_matched());
    assert!(!matcher.all_matched());
}

#[test]
fn contains_bytes_uses_raw_bytes() {
    assert!(contains_bytes(b"\xffready", "ready"));
    assert!(!contains_bytes(b"\xff", "\u{FFFD}"));
}

#[test]
fn contains_slice_agrees_with_windows() {
    let bytes = b"abcabdabcabcabd";
    for start in 0..bytes.len() {
        for end in start..=bytes.len() {
            assert!(contains_slice(bytes, &bytes[start..end]));
        }
    }
    assert!(!contains_slice(bytes, b"abcabcabcabd"));
    assert!(!contains_slice(b"ab", b"abc"));
    assert!(contains_slice(b"", b""));
}

#[test]
fn matcher_finds_the_same_however_the_data_is_cut() {
    let needles = ["abd", "cabcabd", "dab", "xyz", ""].map(str::to_string);
    let bytes = b"abcabdabcabcabd";
    for size in 1..=bytes.len() {
        let mut matcher = TextMatcher::new(&needles[..3]);
        let mut missing = TextMatcher::new(&needles[3..4]);
        let mut seen = 0;
        while seen < bytes.len() {
            let next = (seen + size).min(bytes.len());
            matcher.observe_appended(&bytes[..next], seen);
            missing.observe_appended(&bytes[..next], seen);
            seen = next;
        }
        assert!(matcher.all_matched());
        assert!(!missing.any_matched());
    }
}

#[test]
fn matcher_without_texts_has_all_and_none() {
    let none = TextMatcher::new(&[]);
    assert!(none.all_matched());
    assert!(!none.any_matched());
    assert_eq!(none.count(), 0);

    let empty = TextMatcher::new(&[String::new()]);
    assert!(empty.all_matched());
    assert!(empty.any_matched());
}
