use bgwm::updater::{
    is_installer_asset, is_newer, normalize_version, parse_version, sanitize_filename, select_release,
    GithubAsset, GithubRelease, PromptDecision, UpdateState, REPROMPT_INTERVAL_SECS,
};

#[test]
fn normalizes_tag_prefix() {
    assert_eq!(normalize_version("v1.2.3"), "1.2.3");
    assert_eq!(normalize_version("V0.8.1"), "0.8.1");
    assert_eq!(normalize_version(" 1.0.0 "), "1.0.0");
}

#[test]
fn parses_version_components() {
    assert_eq!(parse_version("1.2.3"), (1, 2, 3));
    assert_eq!(parse_version("0.8"), (0, 8, 0));
    assert_eq!(parse_version("2"), (2, 0, 0));
    assert_eq!(parse_version("1.2.3-beta.1"), (1, 2, 3));
    assert_eq!(parse_version("1.2.3+build5"), (1, 2, 3));
}

#[test]
fn detects_newer_versions() {
    assert!(is_newer("0.9.0", "0.8.1"));
    assert!(is_newer("1.0.0", "0.9.9"));
    assert!(is_newer("0.8.2", "0.8.1"));
    assert!(!is_newer("0.8.1", "0.8.1"));
    assert!(!is_newer("0.8.0", "0.8.1"));
}

#[test]
fn recognizes_installer_assets() {
    assert!(is_installer_asset("bgwm-setup-0.9.0.exe"));
    assert!(is_installer_asset("BGWM-Setup-1.0.0.EXE"));
    assert!(!is_installer_asset("bgwm-0.9.0.zip"));
    assert!(!is_installer_asset("source-code.tar.gz"));
}

#[test]
fn sanitizes_asset_filenames() {
    assert_eq!(sanitize_filename("bgwm-setup-1.0.0.exe"), "bgwm-setup-1.0.0.exe");
    assert_eq!(sanitize_filename(r"..\..\evil\bgwm-setup.exe"), "bgwm-setup.exe");
    assert_eq!(sanitize_filename(""), "bgwm-setup.exe");
}

#[test]
fn odd_versions_read_as_zero() {
    assert_eq!(parse_version("x.y.z"), (0, 0, 0));
    assert_eq!(parse_version("1..3"), (1, 0, 3));
    assert_eq!(normalize_version("vv2.0"), "2.0");
}

fn release(tag: &str, draft: bool, prerelease: bool, assets: &[&str]) -> GithubRelease {
    GithubRelease {
        tag_name: tag.to_string(),
        draft,
        prerelease,
        assets: assets
            .iter()
            .map(|n| GithubAsset { name: n.to_string(), browser_download_url: format!("https://example.invalid/{n}") })
            .collect(),
    }
}

#[test]
fn selects_first_installer_of_newer_release() {
    let r = release("v0.9.0", false, false, &["notes.txt", "bgwm-setup-0.9.0.exe", "bgwm-setup-alt.exe"]);
    let info = select_release(r, "0.8.1").unwrap();
    assert_eq!(info.version, "0.9.0");
    assert_eq!(info.installer_name, "bgwm-setup-0.9.0.exe");
    assert_eq!(info.installer_url, "https://example.invalid/bgwm-setup-0.9.0.exe");
}

#[test]
fn skips_drafts_old_releases_and_missing_installers() {
    assert_eq!(select_release(release("v0.9.0", true, false, &["bgwm-setup.exe"]), "0.8.1"), None);
    assert_eq!(select_release(release("v0.9.0", false, true, &["bgwm-setup.exe"]), "0.8.1"), None);
    assert_eq!(select_release(release("v0.8.1", false, false, &["bgwm-setup.exe"]), "0.8.1"), None);
    assert_eq!(select_release(release("v0.9.0", false, false, &["bgwm.zip"]), "0.8.1"), None);
}

#[test]
fn prompt_policy() {
    let mut state = UpdateState::default();
    assert_eq!(state.decide("0.9.0", 1_000), PromptDecision::Prompt);
    state.record_prompt(1_000);
    assert_eq!(state.last_prompt_at, Some(1_000));
    assert_eq!(state.decide("0.9.0", 1_000 + REPROMPT_INTERVAL_SECS - 1), PromptDecision::SkipRecent);
    assert_eq!(state.decide("0.9.0", 1_000 + REPROMPT_INTERVAL_SECS), PromptDecision::Prompt);
    state.record_decline("0.9.0".to_string());
    assert_eq!(state.decide("0.9.0", u64::MAX), PromptDecision::SkipDeclined);
    assert_eq!(state.decide("0.9.1", 1_000 + REPROMPT_INTERVAL_SECS), PromptDecision::Prompt);
    assert_eq!(REPROMPT_INTERVAL_SECS, 172_800);
}

#[test]
fn prompt_wording() {
    assert_eq!(
        bgwm::updater::update_prompt_text("0.8.1", "0.9.0"),
        "A new version of BGWM is available.\n\nCurrent version: 0.8.1\nNew version: 0.9.0\n\nDo you want to download and install the update now?"
    );
}

#[test]
fn sanitized_names_stay_inside_the_directory() {
    assert_eq!(sanitize_filename(".."), "bgwm-setup.exe");
    assert_eq!(sanitize_filename("."), "bgwm-setup.exe");
    assert_eq!(sanitize_filename(r"evil\ .. "), "bgwm-setup.exe");
    assert_eq!(sanitize_filename("a/b/..x"), "..x");
    assert_eq!(sanitize_filename(" setup.exe "), "setup.exe");
}
