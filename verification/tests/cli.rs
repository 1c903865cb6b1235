use salus::cli::{accept_duration, parse_duration};
use salus::timing::Span;

fn read(text: &str) -> Option<Span> {
    parse_duration(text).ok()
}

#[test]
fn durations_are_read_with_their_units() {
    assert_eq!(read("3s"), Some(Span::from_secs(3)));
    assert_eq!(read("250ms"), Some(Span::from_millis(250)));
    assert_eq!(read("1h 30m"), Some(Span::from_secs(5400)));
    assert_eq!(read("1.5s"), Some(Span::from_millis(1500)));
    assert_eq!(read("0s"), Some(Span::from_secs(0)));
    assert_eq!(read("1000000000000ns"), Some(Span::from_secs(1000)));
}

#[test]
fn duration_arguments_allow_surrounding_whitespace() {
    assert_eq!(read(" 1s "), Some(Span::from_secs(1)));
}

#[test]
fn invalid_durations_are_a_configuration_error() {
    let error = parse_duration("nope").unwrap_err();

    assert_eq!(error.to_string(), "invalid duration: nope");
    assert_eq!(error.exit_code(), 3);
    assert_eq!(
        parse_duration(" 5 ").unwrap_err().to_string(),
        "invalid duration:  5 "
    );
    assert!(accept_duration("x", None).is_err());
    assert_eq!(
        accept_duration("x", Some(Span::from_secs(1))).unwrap(),
        Span::from_secs(1)
    );
}

#[test]
fn durations_beyond_the_clock_are_invalid() {
    let longest = Span::new(u64::MAX, 999_999_999);
    assert_eq!(read("18446744073709551615s 999999999ns"), Some(longest));
    assert_eq!(read("18446744073709551615s 999ms 999us 999ns"), Some(longest));
    assert_eq!(
        read("18446744073709551615ns"),
        Some(Span::from_nanos(u64::MAX as u128))
    );
    assert_eq!(read("584542046090years").unwrap().as_secs(), 18_446_744_073_689_784_000);

    for text in [
        "18446744073709551615s 1000ms",
        "18446744073709551615s 1s",
        "584542046090years 31557600s",
        "99999999999999999999999999s",
        "18446744073709551616ns",
        "584542046091y",
    ] {
        assert_eq!(
            parse_duration(text).unwrap_err().to_string(),
            format!("invalid duration: {text}")
        );
    }
}

#[test]
fn every_unit_is_weighed_as_it_is_read() {
    for (units, most) in [
        ("nanos nsec ns", u64::MAX),
        ("usec us \u{b5}s", u64::MAX / 1000),
        ("millis msec ms", u64::MAX / 1_000_000),
        ("seconds second secs sec s", u64::MAX),
        ("minutes minute min mins m", u64::MAX / 60),
        ("hours hour hr hrs h", u64::MAX / 3600),
        ("days day d", u64::MAX / 86_400),
        ("weeks week wk wks w", u64::MAX / 604_800),
        ("months month M", u64::MAX / 2_630_016),
        ("years year yr yrs y", u64::MAX / 31_557_600),
    ] {
        for unit in units.split(' ') {
            let longest = read(&format!("{most}{unit}")).unwrap();
            if most < u64::MAX {
                assert_eq!(read(&format!("{}{unit}", most + 1)), None, "{unit}");
            }
            let missing = Span::new(u64::MAX, 999_999_999).as_nanos() - longest.as_nanos();
            let rest = format!(
                "{most}{unit} {}s {}ns",
                missing / 1_000_000_000,
                missing % 1_000_000_000
            );
            assert_eq!(read(&rest), Some(Span::new(u64::MAX, 999_999_999)), "{unit}");
            assert_eq!(read(&format!("{rest} 1ns")), None, "{unit}");
        }
    }
}

#[test]
fn fractions_are_weighed_as_they_are_read() {
    assert_eq!(
        read("18446744073709551615.5s"),
        Some(Span::new(u64::MAX, 500_000_000))
    );
    assert_eq!(
        read("18446744073709551615.999999999s"),
        Some(Span::new(u64::MAX, 999_999_999))
    );
    assert_eq!(
        read("18446744073709551615.5s 499999999ns"),
        Some(Span::new(u64::MAX, 999_999_999))
    );
    assert_eq!(read("18446744073709551615.5s 500000000ns"), None);
    assert_eq!(read("0.5h"), Some(Span::from_secs(1800)));
    assert_eq!(read("1.0000000000000000000s"), Some(Span::from_secs(1)));
    assert_eq!(read("1.00000000000000000000s"), None);
}
