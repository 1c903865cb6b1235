use rustls::pki_types::IpAddr;
use salus::ipv6::is_ipv6_text;

fn reads_as_ipv6(text: &str) -> bool {
    matches!(IpAddr::try_from(text), Ok(IpAddr::V6(_)))
}

#[test]
fn addresses_are_told_from_other_text() {
    for text in [
        "::",
        "::1",
        "1::",
        "1:2:3:4:5:6:7:8",
        "1:2:3:4:5:6:7::",
        "::2:3:4:5:6:7:8",
        "fe80::abcd:EF01",
        "::ffff:192.0.2.128",
        "64:ff9b::192.0.2.33",
        "1:2:3:4:5:6:1.2.3.4",
    ] {
        assert!(is_ipv6_text(text), "{text}");
        assert!(reads_as_ipv6(text), "{text}");
    }
    for text in [
        "",
        ":",
        ":::",
        "1",
        "1:2",
        "1::2::3",
        "1:2:3:4:5:6:7:8:9",
        "1:2:3:4:5:6:7:8::",
        "1:2:3:4:5:6:7",
        "12345::",
        "g::",
        "::1%eth0",
        "1.2.3.4::",
        "::1.2.3",
        "::1.2.3.256",
        "::01.2.3.4",
        "::1.2.3.4:5",
        "1:2:3:4:5:6:7:1.2.3.4",
        ":1:2:3:4:5:6:7",
        "1:2:3:4:5:6:7:",
        " ::1",
    ] {
        assert!(!is_ipv6_text(text), "{text}");
        assert!(!reads_as_ipv6(text), "{text}");
    }
}

#[test]
fn short_texts_agree_with_the_parser() {
    let pieces = ["", ":", "::", "1", "ffff", "1.2.3.4", "g"];
    for a in pieces {
        for b in pieces {
            for c in pieces {
                for d in pieces {
                    let text = format!("{a}{b}{c}{d}");
                    assert_eq!(is_ipv6_text(&text), reads_as_ipv6(&text), "{text}");
                }
            }
        }
    }
}

#[test]
fn long_texts_agree_with_the_parser() {
    for count in 0..10 {
        for gap in 0..=count {
            for last in ["", "1.2.3.4", "a"] {
                let mut groups = vec!["1"; count];
                groups.insert(gap, "");
                groups.push(last);
                let text = groups.join(":");
                assert_eq!(is_ipv6_text(&text), reads_as_ipv6(&text), "{text}");
                let text = text.replacen("::", ":", 1);
                assert_eq!(is_ipv6_text(&text), reads_as_ipv6(&text), "{text}");
            }
        }
    }
}
