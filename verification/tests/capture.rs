use salus::capture::CaptureBuffer;

#[test]
fn append_limited_keeps_data_within_limit() {
    let mut buffer = CaptureBuffer::default();

    let previous_len = buffer.append_limited(b"abcdef", 3);

    assert_eq!(previous_len, 0);
    assert_eq!(buffer.bytes(), b"abc");
    assert!(buffer.is_incomplete());
}

#[test]
fn append_limited_marks_later_data_after_full_limit() {
    let mut buffer = CaptureBuffer::default();
    buffer.append_limited(b"abc", 3);

    let previous_len = buffer.append_limited(b"d", 3);

    assert_eq!(previous_len, 3);
    assert_eq!(buffer.bytes(), b"abc");
    assert!(buffer.is_incomplete());
}

#[test]
fn append_limited_keeps_exact_limit_complete() {
    let mut buffer = CaptureBuffer::default();

    buffer.append_limited(b"abc", 3);

    assert_eq!(buffer.bytes(), b"abc");
    assert!(!buffer.is_incomplete());
}

#[test]
fn the_capture_is_the_same_however_the_stream_is_cut() {
    let stream = b"the quick brown fox";
    for limit in [0, 1, 7, 18, 19, 20] {
        for size in 1..=stream.len() {
            let mut buffer = CaptureBuffer::default();
            let mut seen = 0;
            for chunk in stream.chunks(size) {
                assert_eq!(buffer.append_limited(chunk, limit), seen.min(limit));
                seen += chunk.len();
            }

            assert_eq!(buffer.bytes(), &stream[..limit.min(stream.len())]);
            assert_eq!(buffer.len(), limit.min(stream.len()));
            assert_eq!(buffer.is_incomplete(), stream.len() > limit);
        }
    }
}

#[test]
fn a_capture_can_be_marked_incomplete() {
    let mut buffer = CaptureBuffer::default();
    buffer.append_limited(b"abc", 8);
    buffer.mark_incomplete();

    assert!(buffer.is_incomplete());
    assert_eq!(buffer.bytes(), b"abc");
}
