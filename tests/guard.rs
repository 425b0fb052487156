use nuts::guard::{
    generate_download_url, get_host, get_scheme, is_valid_auth_token, request_url, ApiToken,
    BaseUrl, GuardError, Scheme, Signature,
};
use nuts::signing::validate;

#[test]
fn test_base_url() {
    let bu = BaseUrl("https://release.something.inc/product/".to_string());
    assert_eq!(
        bu.to_string(),
        "https://release.something.inc/product".to_string()
    );
}

#[test]
fn bearer_tokens() {
    assert!(is_valid_auth_token("Bearer s3cret", "s3cret"));
    assert!(!is_valid_auth_token("Bearer s3cret", "other"));
    assert!(!is_valid_auth_token("Bearer", "s3cret"));
    assert!(!is_valid_auth_token("Basic s3cret", "s3cret"));
    assert!(!is_valid_auth_token("Bearers3cret", "s3cret"));
}

#[test]
fn bearer_gate() {
    let one = vec!["Bearer s".to_string()];
    let two = vec!["Bearer s".to_string(), "Bearer s".to_string()];
    assert_eq!(ApiToken::from_request(None, &vec![]), Ok(ApiToken()));
    assert_eq!(ApiToken::from_request(Some("s"), &vec![]), Err(GuardError::MissingToken));
    assert_eq!(ApiToken::from_request(Some("s"), &one), Ok(ApiToken()));
    assert_eq!(ApiToken::from_request(Some("t"), &one), Err(GuardError::Unauthorized));
    assert_eq!(ApiToken::from_request(Some("s"), &two), Err(GuardError::Unauthorized));
}

#[test]
fn scheme_and_host() {
    assert_eq!(get_scheme(Some("https"), Some("http")), Scheme::Https);
    assert_eq!(get_scheme(None, Some("https")), Scheme::Https);
    assert_eq!(get_scheme(None, None), Scheme::Http);
    assert_eq!(get_scheme(Some("HTTPS"), None), Scheme::Http);
    assert_eq!(get_host(Some("proxy.test"), Some("h.test")), Some("proxy.test".to_string()));
    assert_eq!(get_host(None, Some("h.test")), Some("h.test".to_string()));
    assert_eq!(get_host(None, None), None);
    assert_eq!(Scheme::Https.to_string(), "https");
}

#[test]
fn base_url_sources() {
    assert_eq!(
        BaseUrl::from_request(Some("https://cfg.test/"), Scheme::Http, Some("h.test")),
        Ok(BaseUrl("https://cfg.test/".to_string()))
    );
    assert_eq!(
        BaseUrl::from_request(None, Scheme::Https, Some("h.test")),
        Ok(BaseUrl("https://h.test".to_string()))
    );
    assert_eq!(BaseUrl::from_request(None, Scheme::Http, None), Err(GuardError::UnknownHost));
}

#[test]
fn download_urls() {
    let base = BaseUrl("https://h.test/".to_string());
    assert_eq!(
        generate_download_url(None, &base, "app-mac.zip", 100, 60).unwrap(),
        "https://h.test/download/app-mac.zip"
    );
    let signed = generate_download_url(Some("k"), &base, "app-mac.zip", 100, 60).unwrap();
    assert!(signed.starts_with("https://h.test/download/app-mac.zip?exp=160&signature="));
    assert_eq!(validate("k", &signed, 159), Ok(()));
    let uri = &signed["https://h.test".len()..];
    let seen = request_url(&base, uri);
    assert_eq!(seen, signed);
    assert_eq!(Signature::from_request(Some("k"), &seen, 120), Ok(Signature()));
    assert_eq!(
        Signature::from_request(Some("k"), &seen, 160),
        Err(GuardError::InvalidSignature)
    );
    assert_eq!(Signature::from_request(None, "whatever", 0), Ok(Signature()));
}
