use nuts::error::ErrorKind;
use nuts::guard::index;
use nuts::platform::{classify_platform, Platform};

#[test]
fn test_parse_platform_from_filename() {
    let tests = vec![
        ("mac.zip", Platform::MacOS),
        ("some-cool-version-on-osx", Platform::MacOS),
        ("linux.tar", Platform::Linux),
        ("some-file.deb", Platform::Linux),
        ("some-file.rpm", Platform::Linux),
        ("winnie-the-pooh", Platform::Windows),
        ("awseome-app.exe", Platform::Windows),
    ];

    for (filename, expect) in tests {
        assert_eq!(Platform::detect_from_filename(filename).unwrap(), expect);
    }
}

#[test]
fn test_from_param() {
    Platform::from_param("darwin").unwrap();
}

#[test]
fn from_param_ignores_case() {
    assert_eq!(Platform::from_param("DARWIN").unwrap(), Platform::MacOS);
    assert_eq!(Platform::from_param("Linux").unwrap(), Platform::Linux);
    assert!(matches!(
        Platform::from_param("beos"),
        Err(ErrorKind::UnknownPlatform(_))
    ));
}

#[test]
fn classification_table() {
    assert_eq!(classify_platform("app-mac.zip"), Platform::MacOS);
    assert_eq!(classify_platform("setup.exe"), Platform::Windows);
    assert_eq!(classify_platform("build.AppImage"), Platform::Linux);
    assert_eq!(classify_platform("thing.deb"), Platform::Linux);
    assert_eq!(
        classify_platform("random-name"),
        Platform::Unrecognized("random-name".to_string())
    );
}

#[test]
fn classification_priority_and_suffixes() {
    // macOS rules come before Linux and Windows ones.
    assert_eq!(classify_platform("darwin-linux-win.exe"), Platform::MacOS);
    assert_eq!(classify_platform("ubuntu-win"), Platform::Linux);
    assert_eq!(classify_platform("app.dmg.blockmap"), Platform::MacOS);
    assert_eq!(classify_platform("app.tar.gz"), Platform::Linux);
    // A suffix only counts at the end.
    assert_eq!(
        classify_platform("app.deb.zip"),
        Platform::Unrecognized("app.deb.zip".to_string())
    );
    assert_eq!(classify_platform(""), Platform::Unrecognized(String::new()));
}

#[test]
fn unknown_file_name_is_an_error() {
    match Platform::detect_from_filename("random-name") {
        Err(ErrorKind::UnknownPlatform(n)) => assert_eq!(n, "random-name"),
        other => panic!("unexpected {:?}", other),
    }
}

#[test]
fn platform_names() {
    assert_eq!(Platform::MacOS.to_string(), "osx");
    assert_eq!(Platform::Windows.to_string(), "win");
    assert_eq!(Platform::Linux.to_string(), "linux");
    assert!(Platform::MacOS.same_as(&Platform::MacOS));
    assert!(!Platform::MacOS.same_as(&Platform::Linux));
}

#[test]
fn root_greeting() {
    assert_eq!(index(), "Hello, world!");
}
