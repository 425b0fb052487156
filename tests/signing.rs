use nuts::signing::{canonicalize, check_query, get_signature, sign_url, validate, SigningError, ValidationError};
use std::time::{SystemTime, UNIX_EPOCH};

const URL: &str = "https://api.github.com/x/y/asset?x=1&b=2&a=3";

fn now() -> u64 {
    SystemTime::now().duration_since(UNIX_EPOCH).unwrap().as_secs()
}

#[test]
fn test_sign_url() {
    let exp = now() + 600;
    let signed = sign_url("supersecret", URL, exp).unwrap();
    validate("supersecret", signed.as_str(), now()).unwrap();
}

#[test]
#[should_panic]
fn test_sign_url_expired() {
    let exp = now();
    let signed = sign_url("supersecret", URL, exp).unwrap();
    validate("supersecret", signed.as_str(), now()).unwrap();
}

#[test]
#[should_panic]
fn test_sign_url_invalid_secret() {
    let exp = now();
    let signed = sign_url("supersecret", URL, exp).unwrap();
    validate("nososecret", signed.as_str(), now()).unwrap();
}

#[test]
#[should_panic]
fn test_sign_url_modified() {
    let exp = now();
    let signed = sign_url("supersecret", URL, exp).unwrap();
    let signed_modified = signed + "&foo=bar";
    validate("nososecret", signed_modified.as_str(), now()).unwrap();
}

#[test]
fn signed_url_keeps_the_given_order() {
    let signed = sign_url("s", URL, 1700000000).unwrap();
    let prefix = format!("{}&exp=1700000000&signature=", URL);
    assert!(signed.starts_with(&prefix), "{}", signed);
    let sig = &signed[prefix.len()..];
    assert_eq!(sig.len(), 52);
    assert!(sig.chars().all(|c| c.is_ascii_digit() || c.is_ascii_lowercase()));
}

#[test]
fn round_trip_and_expiry() {
    let signed = sign_url("s", "https://h.test/download/app-mac.zip", 1000).unwrap();
    assert_eq!(validate("s", &signed, 0), Ok(()));
    assert_eq!(validate("s", &signed, 999), Ok(()));
    assert_eq!(validate("s", &signed, 1000), Err(ValidationError::Expired));
    assert_eq!(validate("s", &signed, 5000), Err(ValidationError::Expired));
}

#[test]
fn parameter_order_does_not_matter() {
    let signed = sign_url("s", "https://h.test/f?b=2&a=1", 1000).unwrap();
    let sig = signed.rsplit("signature=").next().unwrap();
    let reordered = format!("https://h.test/f?exp=1000&a=1&signature={}&b=2", sig);
    assert_eq!(validate("s", &reordered, 10), Ok(()));
}

#[test]
fn tampering_is_detected() {
    let signed = sign_url("s", URL, 1000).unwrap();
    let extra = format!("{}&foo=bar", signed);
    assert_eq!(validate("s", &extra, 10), Err(ValidationError::InvalidSignature));
    let altered = signed.replace("x=1", "x=2");
    assert_eq!(validate("s", &altered, 10), Err(ValidationError::InvalidSignature));
    let later = signed.replace("exp=1000", "exp=2000");
    assert_eq!(validate("s", &later, 10), Err(ValidationError::InvalidSignature));
}

#[test]
fn another_key_fails() {
    let signed = sign_url("s1", URL, 1000).unwrap();
    assert_eq!(validate("s2", &signed, 10), Err(ValidationError::InvalidSignature));
}

#[test]
fn validation_errors() {
    assert_eq!(validate("s", "not a url", 0), Err(ValidationError::InvalidUrl));
    assert_eq!(validate("s", "https://h.test/f?a=1", 0), Err(ValidationError::MissingExpiration));
    assert_eq!(validate("s", "https://h.test/f?exp=soon", 0), Err(ValidationError::InvalidExpiration));
    assert_eq!(validate("s", "https://h.test/f?exp=5", 7), Err(ValidationError::Expired));
    assert_eq!(validate("s", "https://h.test/f?exp=5", 1), Err(ValidationError::MissingSignature));
    assert_eq!(
        validate("s", "https://h.test/f?exp=5&signature=abc", 1),
        Err(ValidationError::InvalidSignature)
    );
    assert_eq!(sign_url("s", "no url", 5), Err(SigningError::InvalidUrl));
}

#[test]
fn digest_of_a_known_message() {
    assert_eq!(
        get_signature("key", "The quick brown fox jumps over the lazy dog"),
        "yyy87x1gae229c9jk3kamvxh8fqmtpd19531epcq8yevrb8t7kc0"
    );
}

#[test]
fn canonical_mapping_sorts_and_keeps_last_value() {
    let pairs = vec![
        ("x".to_string(), "1".to_string()),
        ("b".to_string(), "2".to_string()),
        ("a".to_string(), "3".to_string()),
        ("b".to_string(), "4".to_string()),
    ];
    let c = canonicalize(&pairs);
    assert_eq!(
        c,
        vec![
            ("a".to_string(), "3".to_string()),
            ("b".to_string(), "4".to_string()),
            ("x".to_string(), "1".to_string()),
        ]
    );
}

fn pairs(v: &[(&str, &str)]) -> Vec<(String, String)> {
    v.iter().map(|(k, x)| (k.to_string(), x.to_string())).collect()
}

#[test]
fn query_checks_on_given_pairs() {
    let q = pairs(&[("b", "2"), ("exp", "50"), ("signature", "abc"), ("a", "1")]);
    let (sig, canon) = check_query(&q, 10).unwrap();
    assert_eq!(sig, "abc");
    assert_eq!(canon, pairs(&[("a", "1"), ("b", "2"), ("exp", "50")]));
    assert_eq!(check_query(&q, 50), Err(ValidationError::Expired));
    let q = pairs(&[("exp", "+50"), ("exp", "60"), ("signature", "x"), ("signature", "y")]);
    let (sig, canon) = check_query(&q, 55).unwrap();
    assert_eq!(sig, "y");
    assert_eq!(canon, pairs(&[("exp", "60")]));
    assert_eq!(check_query(&pairs(&[]), 0), Err(ValidationError::MissingExpiration));
    assert_eq!(
        check_query(&pairs(&[("exp", "-1")]), 0),
        Err(ValidationError::InvalidExpiration)
    );
    assert_eq!(
        check_query(&pairs(&[("exp", "9")]), 0),
        Err(ValidationError::MissingSignature)
    );
}
