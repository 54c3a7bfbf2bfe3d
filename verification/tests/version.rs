use mdbook_confluence::error::Error;
use mdbook_confluence::version::{get_server_version, ServerVersion};

fn gate(text: &str) -> bool {
    ServerVersion::parse(text).unwrap().supports_extended_text()
}

#[test]
fn reported_numbers_make_a_release() {
    let v = get_server_version(7, 3, 0, "info").unwrap();
    assert_eq!((v.major, v.minor, v.patch), (7, 3, 0));
    assert_eq!(v.pre, "");
    assert_eq!(v.build, "");
    let big = get_server_version(i32::MAX, 0, 10, "info").unwrap();
    assert_eq!((big.major, big.minor, big.patch), (2147483647, 0, 10));
}

#[test]
fn gate_opens_at_7_3_0() {
    assert!(get_server_version(7, 3, 0, "").unwrap().supports_extended_text());
    assert!(get_server_version(7, 3, 1, "").unwrap().supports_extended_text());
    assert!(get_server_version(7, 4, 0, "").unwrap().supports_extended_text());
    assert!(get_server_version(7, 10, 0, "").unwrap().supports_extended_text());
    assert!(get_server_version(8, 0, 0, "").unwrap().supports_extended_text());
    assert!(!get_server_version(7, 2, 9, "").unwrap().supports_extended_text());
    assert!(!get_server_version(7, 0, 0, "").unwrap().supports_extended_text());
    assert!(!get_server_version(6, 15, 9, "").unwrap().supports_extended_text());
    assert!(!get_server_version(0, 0, 0, "").unwrap().supports_extended_text());
}

#[test]
fn gate_follows_the_order_of_semantic_versions() {
    let floor = semver::Version::parse("7.3.0").unwrap();
    for text in [
        "7.3.0", "7.3.0-beta", "7.3.0-0", "7.3.0+build", "7.3.0-rc.1+build", "7.3.1-rc.1",
        "7.2.99", "7.4.0-alpha", "8.0.0-alpha", "6.99.99+x", "10.0.0", "7.3.0+0",
    ] {
        let expected = semver::Version::parse(text).unwrap() >= floor;
        assert_eq!(gate(text), expected, "{}", text);
    }
    assert!(!gate("7.3.0-beta"));
    assert!(gate("7.3.0+build"));
}

#[test]
fn parse_keeps_the_tags() {
    let v = ServerVersion::parse("1.2.3-rc.1+build.5").unwrap();
    assert_eq!((v.major, v.minor, v.patch), (1, 2, 3));
    assert_eq!(v.pre, "rc.1");
    assert_eq!(v.build, "build.5");
}

#[test]
fn parse_gives_the_parsers_message() {
    for text in ["", "7.3", "7.3.0.1", "a.b.c", "07.3.0", "-1.0.0"] {
        let expected = semver::Version::parse(text).unwrap_err().to_string();
        assert_eq!(ServerVersion::parse(text).unwrap_err(), expected);
    }
}

#[test]
fn negative_numbers_fail_with_the_report() {
    for (major, minor, patch) in [(-1, 0, 0), (7, -3, 0), (7, 3, -1), (i32::MIN, 0, 0)] {
        let text = format!("{}.{}.{}", major, minor, patch);
        let cause = semver::Version::parse(&text).unwrap_err();
        let expected = format!("Failed to parse Confluence Version: {} for {}", cause, "ServerInfo { .. }");
        match get_server_version(major, minor, patch, "ServerInfo { .. }") {
            Err(Error::Error(message)) => assert_eq!(message, expected),
            other => panic!("unexpected: {:?}", other),
        }
    }
}

#[test]
fn parse_reads_three_numbers_as_their_release() {
    for (major, minor, patch) in [(0u64, 0u64, 0u64), (7, 3, 0), (10, 20, 30), (u64::MAX, 0, 1)] {
        let v = ServerVersion::parse(&format!("{}.{}.{}", major, minor, patch)).unwrap();
        assert_eq!((v.major, v.minor, v.patch), (major, minor, patch));
        assert_eq!((v.pre.as_str(), v.build.as_str()), ("", ""));
    }
    assert!(ServerVersion::parse("-7.3.0").is_err());
    assert!(ServerVersion::parse("7.-3.0").is_err());
    assert!(ServerVersion::parse("7.3.-1").is_err());
}

#[test]
fn server_version_is_what_the_parser_gives() {
    for (major, minor, patch) in [(0, 0, 0), (7, 3, 0), (6, 15, 2), (-1, 2, 3), (1, -2, 3)] {
        let text = format!("{}.{}.{}", major, minor, patch);
        match (get_server_version(major, minor, patch, "info"), semver::Version::parse(&text)) {
            (Ok(v), Ok(p)) => {
                assert_eq!((v.major, v.minor, v.patch), (p.major, p.minor, p.patch));
                assert_eq!(v.pre, p.pre.as_str());
                assert_eq!(v.build, p.build.as_str());
            }
            (Err(_), Err(_)) => {}
            (ours, theirs) => panic!("{:?} against {:?}", ours, theirs),
        }
    }
}
