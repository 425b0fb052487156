use nuts::catalog::{build_catalog, get_release_by_filename, resolve_release, Asset, Release, User};
use nuts::error::ErrorKind;
use nuts::platform::Platform;
use nuts::version::parse_version;

fn user() -> User {
    User {
        login: "octocat".to_string(),
        id: 1,
        node_id: String::new(),
        avatar_url: String::new(),
        gravatar_id: String::new(),
        url: String::new(),
        html_url: String::new(),
        followers_url: String::new(),
        following_url: String::new(),
        gists_url: String::new(),
        starred_url: String::new(),
        subscriptions_url: String::new(),
        organizations_url: String::new(),
        repos_url: String::new(),
        events_url: String::new(),
        received_events_url: String::new(),
        site_admin: false,
    }
}

fn asset(name: &str, id: u64) -> Asset {
    Asset {
        url: format!("https://api.github.com/repos/o/r/releases/assets/{}", id),
        id,
        node_id: String::new(),
        name: name.to_string(),
        label: String::new(),
        uploader: user(),
        content_type: "application/zip".to_string(),
        state: "uploaded".to_string(),
        size: 10,
        download_count: 0,
        created_at: String::new(),
        updated_at: String::new(),
        browser_download_url: String::new(),
    }
}

fn release(tag: &str, assets: Vec<Asset>) -> Release {
    Release {
        url: String::new(),
        assets_url: String::new(),
        upload_url: String::new(),
        html_url: String::new(),
        id: 1,
        node_id: String::new(),
        author: user(),
        tag_name: tag.to_string(),
        target_commitish: "main".to_string(),
        name: tag.to_string(),
        draft: false,
        prerelease: false,
        created_at: String::new(),
        published_at: String::new(),
        assets,
    }
}

#[test]
fn end_to_end_channels() {
    let listing = vec![
        release("v1.0.0", vec![asset("app-mac.zip", 1)]),
        release("v1.2.0-beta.1", vec![asset("app-mac.zip", 2)]),
    ];
    let catalog = build_catalog(&listing);
    assert_eq!(catalog.len(), 2);
    let stable = parse_version("v1.0.0").unwrap();
    assert!(matches!(
        resolve_release(&catalog, &Platform::MacOS, &stable),
        Err(ErrorKind::NoCompatibleVersionFound)
    ));
    let beta = parse_version("v1.2.0-beta.0").unwrap();
    let found = resolve_release(&catalog, &Platform::MacOS, &beta).unwrap();
    assert_eq!(found.version, parse_version("1.2.0-beta.1").unwrap());
    assert_eq!(found.asset_id, 2);
}

#[test]
fn newest_wins_whatever_the_listing_order() {
    let listing = vec![
        release("v1.1.0", vec![asset("app-mac.zip", 1), asset("app-win.exe", 2)]),
        release("v1.3.0", vec![asset("app-mac.zip", 3)]),
        release("v1.2.0", vec![asset("app-mac.zip", 4)]),
        release("v1.3.0", vec![asset("app-osx.zip", 5)]),
        release("v2.0.0-alpha.1", vec![asset("app-mac.zip", 6)]),
    ];
    let catalog = build_catalog(&listing);
    let installed = parse_version("1.0.0").unwrap();
    let found = resolve_release(&catalog, &Platform::MacOS, &installed).unwrap();
    assert_eq!(found.asset_id, 3);
    let found = resolve_release(&catalog, &Platform::Windows, &installed).unwrap();
    assert_eq!(found.asset_id, 2);
    assert!(resolve_release(&catalog, &Platform::Linux, &installed).is_err());
    let alpha = parse_version("2.0.0-alpha.0").unwrap();
    assert_eq!(resolve_release(&catalog, &Platform::MacOS, &alpha).unwrap().asset_id, 6);
}

#[test]
fn channel_isolation() {
    let listing = vec![
        release("v3.0.0-beta.1", vec![asset("app-mac.zip", 1)]),
        release("v3.0.0-alpha.9", vec![asset("app-mac.zip", 2)]),
        release("v2.0.0", vec![asset("app-mac.zip", 3)]),
    ];
    let catalog = build_catalog(&listing);
    let stable = resolve_release(&catalog, &Platform::MacOS, &parse_version("1.0.0").unwrap()).unwrap();
    assert!(stable.version.pre.is_empty());
    let alpha = resolve_release(&catalog, &Platform::MacOS, &parse_version("1.0.0-alpha").unwrap()).unwrap();
    assert_eq!(alpha.version.channel(), Some("alpha".to_string()));
}

#[test]
fn bad_records_are_skipped() {
    let listing = vec![
        release("not-a-version", vec![asset("app-mac.zip", 1)]),
        release("v1.0.0", vec![asset("README.txt", 2), asset("app.deb", 3)]),
    ];
    let catalog = build_catalog(&listing);
    assert_eq!(catalog.len(), 1);
    assert_eq!(catalog[0].asset_id, 3);
    assert_eq!(catalog[0].platform, Platform::Linux);
    assert_eq!(catalog[0].filename, "app.deb");
}

#[test]
fn lookup_by_file_name() {
    let listing = vec![
        release("v1.0.0", vec![asset("app-mac.zip", 1)]),
        release("v1.1.0", vec![asset("app-mac.zip", 2), asset("setup.exe", 3)]),
    ];
    let catalog = build_catalog(&listing);
    assert_eq!(get_release_by_filename(&catalog, "app-mac.zip").unwrap().asset_id, 1);
    assert_eq!(get_release_by_filename(&catalog, "setup.exe").unwrap().asset_id, 3);
    assert!(matches!(
        get_release_by_filename(&catalog, "nothing.zip"),
        Err(ErrorKind::NoCompatibleVersionFound)
    ));
}
