use savevault::metadata::{program_entry, Release, ReleaseAsset, ReleaseError, ReleaseResponse};

fn asset(name: &str, url: &str) -> ReleaseAsset {
    ReleaseAsset { name: name.to_string(), browser_download_url: url.to_string() }
}

/// The bug this guards: the application's own tags carry a prefix, and trimming only the `v` left
/// a string that is not a semantic version, so the update check failed for every real release.
#[test]
fn parses_savevault_tags_and_the_inherited_ones() {
    assert_eq!(semver::Version::parse("0.2.0").unwrap(), Release::parse_tag("savevault-v0.2.0").unwrap());
    assert_eq!(semver::Version::parse("0.31.0").unwrap(), Release::parse_tag("v0.31.0").unwrap());
    assert!(Release::parse_tag("nightly").is_err());
}

#[test]
fn picks_the_windows_archive_out_of_the_assets() {
    let response = ReleaseResponse {
        html_url: "https://example.com/release".to_string(),
        tag_name: "savevault-v0.2.0".to_string(),
        assets: vec![
            asset("savevault-v0.2.0-linux.zip", "https://example.com/linux.zip"),
            asset("savevault-v0.2.0-win64.zip", "https://example.com/win.zip"),
            asset("notes.txt", "https://example.com/notes.txt"),
        ],
    };

    let release = response.into_release().unwrap();

    assert_eq!(Some("https://example.com/win.zip".to_string()), release.download);
}

/// A release with nothing attached must not pretend it can update itself.
#[test]
fn a_release_without_a_build_has_nothing_to_download() {
    let response = ReleaseResponse {
        html_url: "https://example.com".to_string(),
        tag_name: "savevault-v0.2.0".to_string(),
        assets: vec![],
    };

    let release = response.into_release().unwrap();

    assert_eq!(None, release.download);
}

// Beyond the scenarios above.

#[test]
fn a_bad_tag_is_refused_with_the_tag() {
    assert_eq!(
        Err(ReleaseError::InvalidTag("savevault-v1.0".to_string())),
        Release::parse_tag("savevault-v1.0").map(|v| v.to_string())
    );
    let response = ReleaseResponse {
        html_url: "https://example.com".to_string(),
        tag_name: "latest".to_string(),
        assets: vec![asset("app-WIN.ZIP", "https://example.com/w")],
    };
    assert!(response.into_release().is_err());
}

#[test]
fn the_windows_build_is_found_ignoring_case_and_the_page_is_kept() {
    let response = ReleaseResponse {
        html_url: "https://example.com/page".to_string(),
        tag_name: "v1.2.3".to_string(),
        assets: vec![asset("Windows.txt", "https://example.com/t"), asset("App-WIN.ZIP", "https://example.com/w")],
    };
    let release = response.into_release().unwrap();
    assert_eq!(Some("https://example.com/w".to_string()), release.download);
    assert_eq!("https://example.com/page", release.url);
    assert_eq!(semver::Version::new(1, 2, 3), release.version);
}

fn release_of(tag: &str) -> Release {
    ReleaseResponse { html_url: String::new(), tag_name: tag.to_string(), assets: vec![] }.into_release().unwrap()
}

#[test]
fn only_a_newer_release_is_an_update() {
    let release = release_of("savevault-v0.2.0");
    assert!(release.is_update("0.1.9"));
    assert!(!release.is_update("0.2.0"));
    assert!(!release.is_update("0.10.0"));
    assert!(!release.is_update("not a version"));
}

#[test]
fn the_program_is_found_in_the_archive_ignoring_case() {
    let names = vec![Some("README.txt".to_string()), None, Some("SaveVault.EXE".to_string()), Some("savevault.exe".to_string())];
    assert_eq!(Some(2), program_entry(&names, "savevault.exe"));
    assert_eq!(None, program_entry(&names, "other.exe"));
    assert_eq!(None, program_entry(&vec![], "savevault.exe"));
}
