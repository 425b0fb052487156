use core::cmp::Ordering;
use nuts::error::ErrorKind;
use nuts::version::{decimal_text, parse_version, Identifier, Version};

fn v(s: &str) -> Version {
    parse_version(s).unwrap()
}

#[test]
fn test_version_from() {
    parse_version("0.1.0").unwrap();
    parse_version("0.1.0-alpha").unwrap();
    parse_version("0.1.0-alpha.0").unwrap();
    parse_version("v0.1.0-alpha.0").unwrap();
    parse_version("v2.0.0-beta.1").unwrap();
}

#[test]
fn parsed_fields() {
    let x = v("v2.0.0-beta.1+build.7");
    assert_eq!((x.major, x.minor, x.patch), (2, 0, 0));
    assert_eq!(
        x.pre,
        vec![Identifier::AlphaNumeric("beta".to_string()), Identifier::Numeric(1)]
    );
    assert_eq!(
        x.build,
        vec![Identifier::AlphaNumeric("build".to_string()), Identifier::Numeric(7)]
    );
}

#[test]
fn malformed_versions_are_rejected() {
    for bad in ["", "v", "1.2", "vv1.2.3", "1.2.3.4", "x1.2.3"] {
        assert!(matches!(parse_version(bad), Err(ErrorKind::InvalidVersion)), "{}", bad);
    }
}

#[test]
fn channels() {
    assert_eq!(v("1.0.0").channel(), None);
    assert_eq!(v("1.0.0-alpha.2").channel(), Some("alpha".to_string()));
    assert_eq!(v("1.0.0-7.x").channel(), Some("7".to_string()));
    assert!(v("1.0.0-beta.1").same_channel(&v("2.0.0-beta")));
    assert!(!v("1.0.0-beta.1").same_channel(&v("1.0.0")));
    assert!(v("1.0.0").same_channel(&v("3.1.4")));
}

#[test]
fn precedence() {
    let order = [
        "1.0.0-alpha",
        "1.0.0-alpha.1",
        "1.0.0-alpha.beta",
        "1.0.0-beta",
        "1.0.0-beta.2",
        "1.0.0-beta.11",
        "1.0.0-rc.1",
        "1.0.0",
        "1.0.1",
        "1.1.0",
        "2.0.0",
    ];
    for i in 0..order.len() {
        for j in 0..order.len() {
            let expect = i.cmp(&j);
            assert_eq!(v(order[i]).cmp_precedence(&v(order[j])), expect, "{} {}", order[i], order[j]);
        }
    }
    assert_eq!(v("1.0.0+a").cmp_precedence(&v("1.0.0+b")), Ordering::Equal);
    assert!(v("1.2.0-beta.1").is_newer_than(&v("1.2.0-beta.0")));
    assert!(v("1.0.0").is_newer_than(&v("1.0.0-rc.1")));
    assert!(!v("1.0.0").is_newer_than(&v("1.0.0+meta")));
}

#[test]
fn decimal_rendering() {
    assert_eq!(decimal_text(0), "0");
    assert_eq!(decimal_text(7), "7");
    assert_eq!(decimal_text(1234567890), "1234567890");
    assert_eq!(decimal_text(u64::MAX), "18446744073709551615");
}
