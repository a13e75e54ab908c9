use codemux::release::{
    check_version_only, command_words, external_upgrade_command, detect_install_method, is_yes_answer, platform_asset_name,
    release_download_url, tag_from_response, verify_version_output, InstallMethod, UpgradeError,
};
use codemux::upgrade::{parse_tag_name, parse_version, upgrade_plan, version_cmp, UpgradePlan};
use std::cmp::Ordering;

#[test]
fn test_parse_version_strips_prerelease() {
    assert_eq!(parse_version("v1.2.3-rc1"), Some((1, 2, 3)));
    assert_eq!(parse_version("v1.2.3"), Some((1, 2, 3)));
    assert_eq!(parse_version("1.2.3-beta.4"), Some((1, 2, 3)));
    assert_eq!(parse_version("v0.10.0-alpha+001"), Some((0, 10, 0)));
}

#[test]
fn test_parse_version_rejects_malformed() {
    assert_eq!(parse_version("v1.2"), None);
    assert_eq!(parse_version("not-a-version"), None);
    assert_eq!(parse_version(""), None);
}

#[test]
fn parse_version_edge_cases() {
    assert_eq!(parse_version("+1.+2.3"), Some((1, 2, 3)));
    assert_eq!(parse_version("1.2.+3"), None);
    assert_eq!(parse_version("vv1.2.3"), None);
    assert_eq!(parse_version("1.2."), None);
    assert_eq!(parse_version("4294967295.0.4294967296"), None);
    assert_eq!(parse_version("4294967295.0.1x"), Some((4294967295, 0, 1)));
    assert_eq!(parse_version("1..3"), None);
}

#[test]
fn tag_name_is_read_from_json() {
    assert_eq!(parse_tag_name(r#"{"tag_name": "v1.0.0"}"#), Some("v1.0.0".to_string()));
    assert_eq!(parse_tag_name(r#"{"tag_name" :"v2"}"#), Some("v2".to_string()));
    assert_eq!(parse_tag_name(r#"{"not_tag_name": "v1.0.0"}"#), None);
    assert_eq!(parse_tag_name(r#"{"tag_name": 5}"#), None);
    assert_eq!(parse_tag_name(r#"{"tag_name": "open"#), None);
}

#[test]
fn versions_compare_numerically_then_as_text() {
    assert_eq!(version_cmp("v0.10.0", "v0.9.9"), Ordering::Greater);
    assert_eq!(version_cmp("v1.0.0", "1.0.0"), Ordering::Equal);
    assert_eq!(version_cmp("v1.0.0", "garbage"), Ordering::Greater);
    assert_eq!(version_cmp("abc", "abd"), Ordering::Less);
    assert_eq!(version_cmp("ab", "abc"), Ordering::Less);
}

#[test]
fn upgrade_plan_decides() {
    match upgrade_plan("v0.2.0", "0.3.0", true) {
        Err(e) => assert_eq!(e.message(), "already up to date (v0.3.0)"),
        Ok(_) => panic!("expected already latest"),
    }
    assert_eq!(
        upgrade_plan("v99.0.0", "0.3.0", true),
        Ok(UpgradePlan::ReportOnly { latest: "99.0.0".to_string() })
    );
    assert_eq!(
        upgrade_plan("v99.0.0", "0.3.0", false),
        Ok(UpgradePlan::Install { tag: "v99.0.0".to_string(), version: "99.0.0".to_string() })
    );
    assert!(upgrade_plan("v0.3.0", "0.3.0", false).is_err());
}

#[test]
fn release_query_outcomes() {
    assert_eq!(tag_from_response(true, r#"{"tag_name": "v99.0.0"}"#, ""), Ok("v99.0.0".to_string()));
    let e = tag_from_response(true, r#"{"not_tag_name": "v1.0.0"}"#, "").unwrap_err();
    assert!(e.message().contains("failed to parse version"));
    assert_eq!(tag_from_response(false, "", "boom"), Err(UpgradeError::NetworkError("boom".to_string())));
    assert_eq!(check_version_only(Ok("v99.0.0".to_string())), Ok("99.0.0".to_string()));
    assert_eq!(check_version_only(Err(UpgradeError::CurlNotFound)), Err(UpgradeError::CurlNotFound));
    assert!(UpgradeError::CurlNotFound.message().starts_with("upgrade requires curl"));
}

#[test]
fn install_method_and_assets() {
    assert_eq!(detect_install_method(Some("/home/u/.cargo/bin/codemux")), InstallMethod::Cargo);
    assert_eq!(detect_install_method(Some("/opt/homebrew/bin/codemux")), InstallMethod::Homebrew);
    assert_eq!(detect_install_method(Some("/usr/local/Cellar/codemux")), InstallMethod::Homebrew);
    assert_eq!(detect_install_method(Some("/usr/bin/codemux")), InstallMethod::Prebuilt);
    assert_eq!(detect_install_method(None), InstallMethod::Prebuilt);
    assert_eq!(platform_asset_name("linux", "x86_64"), Ok("codemux-linux-x64.tar.gz".to_string()));
    assert_eq!(platform_asset_name("macos", "aarch64"), Ok("codemux-macos-arm64.tar.gz".to_string()));
    assert_eq!(platform_asset_name("windows", "x86_64"), Err(UpgradeError::WindowsNotSupported));
    let e = platform_asset_name("freebsd", "x86_64").unwrap_err();
    assert_eq!(e.message(), "no prebuilt binary for freebsd/x86_64. Use: cargo install codemux --force");
    assert_eq!(
        release_download_url("v1.0.0", "a.tar.gz"),
        "https://github.com/jellydn/zed-codemux/releases/download/v1.0.0/a.tar.gz"
    );
    assert_eq!(
        external_upgrade_command(InstallMethod::Cargo),
        Some(("cargo install codemux --force".to_string(), "cargo".to_string()))
    );
    assert_eq!(external_upgrade_command(InstallMethod::Prebuilt), None);
}

#[test]
fn prompt_answers_and_version_check() {
    assert!(is_yes_answer("\n"));
    assert!(is_yes_answer(" Y \n"));
    assert!(is_yes_answer("YES"));
    assert!(!is_yes_answer("no"));
    assert!(!is_yes_answer("yess"));
    assert_eq!(verify_version_output("codemux 1.2.3\n", "1.2.3"), Ok(()));
    assert_eq!(
        verify_version_output(" codemux 1.0.0\n", "1.2.3"),
        Err(UpgradeError::NetworkError(
            "version mismatch after upgrade: expected 1.2.3, got codemux 1.0.0".to_string()
        ))
    );
}

#[test]
fn command_lines_split_into_words() {
    assert_eq!(command_words("cargo install codemux --force"), vec!["cargo", "install", "codemux", "--force"]);
    assert_eq!(command_words("  brew \t upgrade\ncodemux  "), vec!["brew", "upgrade", "codemux"]);
    assert!(command_words("   ").is_empty());
}
