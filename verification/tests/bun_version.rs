use std::str::FromStr;

use bvm::bun_version::{BunVersion, VersionParseError};
use bvm::grammar::version_digit;

fn v(major: i32, minor: i32, patch: i32) -> BunVersion {
    BunVersion::new(major, minor, patch)
}

#[test]
fn documented_forms_parse() {
    assert_eq!(BunVersion::from_str("bun-v1.0.0"), Ok(v(1, 0, 0)));
    assert_eq!(BunVersion::from_str("v1.0.0"), Ok(v(1, 0, 0)));
    assert_eq!(BunVersion::from_str("v0.4"), Ok(v(0, 4, 0)));
    assert_eq!(BunVersion::from_str("0.0.4"), Ok(v(0, 0, 4)));
}

#[test]
fn missing_components_are_zero() {
    assert_eq!(BunVersion::parse("6"), Ok(v(6, 0, 0)));
    assert_eq!(BunVersion::parse("v1.2"), Ok(v(1, 2, 0)));
}

#[test]
fn multi_digit_components() {
    assert_eq!(BunVersion::parse("10.20.30"), Ok(v(10, 20, 30)));
    assert_eq!(BunVersion::parse("bun-v1.12.007"), Ok(v(1, 12, 7)));
}

#[test]
fn components_after_the_third_are_not_read() {
    assert_eq!(BunVersion::parse("1.2.3.4"), Ok(v(1, 2, 3)));
    assert_eq!(BunVersion::parse("1.2.3.99999999999999"), Ok(v(1, 2, 3)));
}

#[test]
fn largest_component_fits() {
    assert_eq!(BunVersion::parse("2147483647"), Ok(v(2147483647, 0, 0)));
    assert_eq!(BunVersion::parse("0.2147483648"), Err(VersionParseError));
    assert_eq!(BunVersion::parse("99999999999"), Err(VersionParseError));
}

#[test]
fn malformed_texts_are_refused() {
    for s in ["", "v", "bun-v", "1.", ".1", "1..2", "abc", "bun-1.0", "vv1", "V1.0", "1.0 ", " 1.0", "1.a", "-1", "+1", "v1.0\n"] {
        assert_eq!(BunVersion::parse(s), Err(VersionParseError), "{:?}", s);
    }
}

#[test]
fn non_ascii_digits_match_but_do_not_read() {
    // `\d` matches any Unicode decimal digit; `i32` reads only ASCII ones.
    assert_eq!(BunVersion::parse("\u{0663}.0"), Err(VersionParseError));
    assert_eq!(BunVersion::parse("1.2.3.\u{0663}"), Ok(v(1, 2, 3)));
}

#[test]
fn new_keeps_the_numbers() {
    let b = BunVersion::new(3, -4, 5);
    assert_eq!((b.major(), b.minor(), b.patch()), (3, -4, 5));
}

#[test]
fn error_texts() {
    assert_eq!(
        VersionParseError.message(),
        "ParseError, Valid versions look like the following. 'bun-v1.0.0', 'v1.0.0', 'v0.4', '0.0.4', etc"
    );
    assert_eq!(VersionParseError.description(), "Invalid version, couldn't parse");
}

#[test]
fn regex_digit_class() {
    assert!(version_digit('0'));
    assert!(version_digit('9'));
    assert!(!version_digit('a'));
    assert!(!version_digit('.'));
    assert!(version_digit('\u{0663}'));
    assert!(version_digit('\u{FF15}'));
    assert!(!version_digit('\u{00B2}'));
}

#[test]
fn prefix_forms_agree_on_examples() {
    for body in ["1.0.0", "0.4", "12", "1.2.3.4", "x"] {
        let plain = BunVersion::parse(body);
        assert_eq!(BunVersion::parse(&format!("v{}", body)), plain);
        assert_eq!(BunVersion::parse(&format!("bun-v{}", body)), plain);
    }
}

#[test]
fn short_forms_read_as_versions() {
    for s in ["bun-v1.2", "v1.12.0", "6", "0.0.4"] {
        assert!(bvm::utils::is_parsable_version_string(s));
        assert!(BunVersion::parse(s).is_ok());
    }
}

#[test]
fn decimal_versions_read_back() {
    for (a, b, c) in [(0, 0, 0), (1, 2, 3), (10, 0, 7), (2147483647, 2147483647, 2147483647)] {
        for p in ["", "v", "bun-v"] {
            assert_eq!(BunVersion::parse(&format!("{}{}.{}.{}", p, a, b, c)), Ok(v(a, b, c)));
            assert_eq!(BunVersion::parse(&format!("{}{}.{}", p, a, b)), Ok(v(a, b, 0)));
            assert_eq!(BunVersion::parse(&format!("{}{}", p, a)), Ok(v(a, 0, 0)));
        }
    }
}
