use std::cmp::Ordering;

use lyrux_core::update_checker::{
    asset_name_for, asset_to_install, payload_root, preferred_package_install_mode, build_update_summary, commits_needed_from,
    compare_release_versions, format_http_error, format_release_date, parse_sha256_digest,
    resolve_install_target_for, select_release_asset, sha256_hex, strip_version_prefix,
    verify_download_digest, version_components, version_tag, HttpFailure, InstallMode,
    InstallTarget, LatestReleaseResponse, ReleaseAsset, ReleaseAssetResponse, UpdateStatus,
};

#[test]
fn compare_release_versions_handles_v_prefix() {
    assert_eq!(compare_release_versions("0.1.13", "v0.1.13"), Ordering::Equal);
    assert_eq!(compare_release_versions("0.1.12", "v0.1.13"), Ordering::Less);
    assert_eq!(compare_release_versions("v0.2.0", "0.1.13"), Ordering::Greater);
}

#[test]
fn compare_release_versions_pads_and_falls_back_to_text() {
    assert_eq!(compare_release_versions("1.2", "1.2.0"), Ordering::Equal);
    assert_eq!(compare_release_versions("1.10.0", "1.9.9"), Ordering::Greater);
    assert_eq!(compare_release_versions("1.2.3-beta", "1.2.3"), Ordering::Equal);
    assert_eq!(compare_release_versions("nightly", "0.1.0"), Ordering::Greater);
    assert_eq!(compare_release_versions("1..2", "1.0.2"), Ordering::Less);
}

#[test]
fn version_components_reads_numbers() {
    assert_eq!(version_components(" v1.2.3-rc1 "), Some(vec![1, 2, 3]));
    assert_eq!(version_components("1.x"), None);
    assert_eq!(version_components(""), None);
    assert_eq!(version_components("4294967296"), None);
}

#[test]
fn format_release_date_uses_calendar_date_prefix() {
    assert_eq!(format_release_date("2026-04-12T06:50:45Z"), "2026-04-12");
    assert_eq!(format_release_date("2026-04-12"), "2026-04-12");
}

#[test]
fn version_tag_normalizes_existing_prefix() {
    assert_eq!(version_tag("0.1.13"), "v0.1.13");
    assert_eq!(version_tag("v0.1.13"), "v0.1.13");
}

#[test]
fn strip_version_prefix_removes_one_v() {
    assert_eq!(strip_version_prefix("  vv1 "), "v1");
}

#[test]
fn parse_sha256_digest_strips_prefix() {
    assert_eq!(parse_sha256_digest(Some("sha256:ABCDEF")), Some("abcdef".to_string()));
    assert_eq!(parse_sha256_digest(None), None);
}

#[test]
fn parse_sha256_digest_needs_the_prefix() {
    assert_eq!(parse_sha256_digest(Some("md5:abc")), None);
    assert_eq!(parse_sha256_digest(Some("sha256: Ab ")), Some("ab".to_string()));
}

fn release() -> LatestReleaseResponse {
    LatestReleaseResponse {
        tag_name: "v0.1.13".to_string(),
        html_url: "https://example.invalid".to_string(),
        published_at: "2026-04-12T06:50:45Z".to_string(),
        assets: vec![
            ReleaseAssetResponse {
                name: "limux-0.1.13-linux-x86_64.tar.gz".to_string(),
                browser_download_url: "https://example.invalid/asset.tar.gz".to_string(),
                digest: Some("sha256:ABC".to_string()),
            },
            ReleaseAssetResponse {
                name: "limux_0.1.13_amd64.deb".to_string(),
                browser_download_url: "https://example.invalid/asset.deb".to_string(),
                digest: None,
            },
        ],
    }
}

#[test]
fn select_release_asset_uses_install_mode_and_arch() {
    let asset = select_release_asset(&release(), InstallMode::Bundle, "x86_64").unwrap();
    assert!(asset.name.ends_with(".tar.gz"));
    assert_eq!(asset.digest_sha256, Some("abc".to_string()));
    let deb = select_release_asset(&release(), InstallMode::DebianPackage, "x86_64").unwrap();
    assert_eq!(deb.download_url, "https://example.invalid/asset.deb");
    assert!(select_release_asset(&release(), InstallMode::AppImage, "x86_64").is_none());
    assert!(select_release_asset(&release(), InstallMode::DebianPackage, "riscv64").is_none());
}

#[test]
fn asset_names_per_mode() {
    assert_eq!(asset_name_for(InstallMode::AppImage, "1.0", "aarch64"), Some("Limux-1.0-aarch64.AppImage".to_string()));
    assert_eq!(asset_name_for(InstallMode::RpmPackage, "1.0", "aarch64"), Some("limux-1.0-1.aarch64.rpm".to_string()));
    assert_eq!(asset_name_for(InstallMode::DebianPackage, "1.0", "aarch64"), Some("limux_1.0_arm64.deb".to_string()));
    assert_eq!(asset_name_for(InstallMode::TarballPrefix, "1.0", "x86_64"), Some("limux-1.0-linux-x86_64.tar.gz".to_string()));
    assert_eq!(asset_name_for(InstallMode::Unsupported, "1.0", "x86_64"), None);
}

#[test]
fn resolve_install_target_detects_appimage_from_env() {
    let target = resolve_install_target_for(
        "/tmp/.mount-limux/usr/bin/limux",
        Some("/home/test/Limux.AppImage"),
        false,
        InstallMode::DebianPackage,
    );
    assert_eq!(target.mode, InstallMode::AppImage);
    assert_eq!(target.target_path, "/home/test/Limux.AppImage");
}

#[test]
fn resolve_install_target_by_location() {
    let t = resolve_install_target_for("/opt/x/Limux.appimage", Some(""), false, InstallMode::Unsupported);
    assert_eq!(t.mode, InstallMode::AppImage);
    let t = resolve_install_target_for("/opt/limux/limux", None, true, InstallMode::Unsupported);
    assert_eq!((t.mode, t.target_path.as_str()), (InstallMode::Bundle, "/opt/limux"));
    let t = resolve_install_target_for("/usr/local/bin/limux", None, false, InstallMode::Unsupported);
    assert_eq!((t.mode, t.target_path.as_str()), (InstallMode::TarballPrefix, "/usr/local"));
    let t = resolve_install_target_for("/usr/bin/limux", None, false, InstallMode::RpmPackage);
    assert_eq!(t.mode, InstallMode::RpmPackage);
    let t = resolve_install_target_for("/home/u/limux", None, false, InstallMode::RpmPackage);
    assert_eq!(t.mode, InstallMode::Unsupported);
}

fn bundle_target() -> InstallTarget {
    InstallTarget {
        mode: InstallMode::Bundle,
        target_path: "/opt/limux".to_string(),
        relaunch_path: "/opt/limux/limux".to_string(),
    }
}

#[test]
fn build_update_summary_marks_current_release_as_up_to_date() {
    let summary = build_update_summary("0.1.13", release(), bundle_target(), "x86_64", 0);
    assert!(matches!(summary.status, UpdateStatus::UpToDate | UpdateStatus::UnsupportedInstallation));
    assert_eq!(summary.latest_version, "0.1.13");
    assert_eq!(summary.status_detail, "This build matches the latest release.");
}

#[test]
fn build_update_summary_reports_available_update() {
    assert_eq!(
        commits_needed_from("0.1.12", &release(), &bundle_target(), "x86_64"),
        Some("v0.1.12".to_string())
    );
    let summary = build_update_summary("0.1.12", release(), bundle_target(), "x86_64", 1);
    assert_eq!(summary.status, UpdateStatus::UpdateAvailable);
    assert_eq!(summary.commits_behind, 1);
    assert_eq!(
        summary.status_detail,
        "Update available: 1 commit behind. Installer: limux-0.1.13-linux-x86_64.tar.gz via portable bundle."
    );
    let asset = asset_to_install(&summary).unwrap();
    assert_eq!(asset.name, "limux-0.1.13-linux-x86_64.tar.gz");
}

#[test]
fn build_update_summary_without_asset_or_support() {
    assert_eq!(commits_needed_from("0.1.12", &release(), &bundle_target(), "riscv64"), None);
    let summary = build_update_summary("0.1.12", release(), bundle_target(), "riscv64", 7);
    assert_eq!(summary.status, UpdateStatus::UnsupportedInstallation);
    assert_eq!(summary.commits_behind, 0);
    assert_eq!(
        summary.status_detail,
        "No portable bundle update asset is available for this release on riscv64."
    );
    assert_eq!(
        asset_to_install(&summary).unwrap_err(),
        "No installable update is currently available."
    );
    let target = InstallTarget { mode: InstallMode::Unsupported, ..bundle_target() };
    let summary = build_update_summary("0.1.12", release(), target, "x86_64", 7);
    assert_eq!(summary.status_detail, "This Limux installation type is not recognized for in-app updates.");
}

#[test]
fn digest_check() {
    let asset = ReleaseAsset {
        name: "a.tar.gz".to_string(),
        download_url: String::new(),
        digest_sha256: Some("00ff".to_string()),
    };
    assert!(verify_download_digest(&asset, "00ff").is_ok());
    assert_eq!(
        verify_download_digest(&asset, "abcd").unwrap_err(),
        "Downloaded asset checksum mismatch for a.tar.gz: expected 00ff, got abcd."
    );
    let open = ReleaseAsset { digest_sha256: None, ..asset };
    assert!(verify_download_digest(&open, "anything").is_ok());
}

#[test]
fn sha256_of_known_input() {
    assert_eq!(sha256_hex(b"abc"), "ba7816bf8f01cfea414140de5dae2223b00361a396177a9cb410ff61f20015ad");
    assert_eq!(sha256_hex(b""), "e3b0c44298fc1c149afbf4c8996fb92427ae41e4649b934ca495991b7852b855");
}

#[test]
fn http_errors_explain_rate_limits() {
    let limited = HttpFailure::Status {
        code: 403,
        status_text: "Forbidden".to_string(),
        ratelimit_remaining: Some("0".to_string()),
        ratelimit_reset: Some("1000".to_string()),
    };
    assert_eq!(
        format_http_error("ctx", limited.clone(), Some(879)),
        "ctx: GitHub API rate limit reached (60/h per IP). Try again in ~3 min."
    );
    assert_eq!(
        format_http_error("ctx", limited.clone(), Some(2000)),
        "ctx: GitHub API rate limit reached (60/h per IP). Try again in ~1 min."
    );
    assert_eq!(
        format_http_error("ctx", limited, None),
        "ctx: GitHub API rate limit reached (60/h per IP). Try again later."
    );
    let plain = HttpFailure::Status {
        code: 404,
        status_text: "Not Found".to_string(),
        ratelimit_remaining: Some("0".to_string()),
        ratelimit_reset: None,
    };
    assert_eq!(format_http_error("ctx", plain, None), "ctx: GitHub returned HTTP 404 Not Found");
    assert_eq!(
        format_http_error("ctx", HttpFailure::Transport("dns".to_string()), None),
        "ctx: dns"
    );
}

#[test]
fn install_mode_labels() {
    assert_eq!(InstallMode::RpmPackage.label(), "RPM package");
    assert!(InstallMode::TarballPrefix.needs_privileged_installer());
    assert!(!InstallMode::AppImage.needs_privileged_installer());
}

#[test]
fn package_mode_prefers_debian_then_rpm() {
    assert_eq!(preferred_package_install_mode(true, true), InstallMode::DebianPackage);
    assert_eq!(preferred_package_install_mode(false, true), InstallMode::RpmPackage);
    assert_eq!(preferred_package_install_mode(false, false), InstallMode::Unsupported);
}

#[test]
fn payload_root_is_the_first_directory_by_path() {
    let dirs = vec!["/x/limux-b".to_string(), "/x/limux-a".to_string(), "/x/zz".to_string()];
    assert_eq!(payload_root(&dirs), Ok("/x/limux-a".to_string()));
    assert_eq!(
        payload_root(&Vec::new()),
        Err("The extracted update payload is missing its top-level directory.".to_string())
    );
}

#[test]
fn dotted_versions_order_transitively() {
    let versions = ["0.9", "v1.2", "1.2.0", "1.10", "2.0-rc1", "10.0"];
    for a in versions {
        for b in versions {
            for c in versions {
                let ab = compare_release_versions(a, b) != Ordering::Greater;
                let bc = compare_release_versions(b, c) != Ordering::Greater;
                if ab && bc {
                    assert_ne!(compare_release_versions(a, c), Ordering::Greater);
                }
            }
        }
    }
}

#[test]
fn mixed_text_versions_need_not_order_transitively() {
    assert_eq!(compare_release_versions("2", "10"), Ordering::Less);
    assert_eq!(compare_release_versions("10", "1x"), Ordering::Less);
    assert_eq!(compare_release_versions("2", "1x"), Ordering::Greater);
}
