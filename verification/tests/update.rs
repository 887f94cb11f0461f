use vaultx::json::Json;
use vaultx::update::{best_windows_asset_url, compare_versions, no_release_info, normalize_version, update_info_from_release};

fn s(v: &str) -> Json {
    Json::Str(v.to_string())
}

fn obj(entries: Vec<(&str, Json)>) -> Json {
    Json::Object(entries.into_iter().map(|(k, v)| (k.to_string(), v)).collect())
}

fn asset(name: &str, url: &str) -> Json {
    obj(vec![("name", s(name)), ("browser_download_url", s(url))])
}

#[test]
fn version_tags_are_normalized() {
    assert_eq!(normalize_version(" v1.2.3 "), "1.2.3");
    assert_eq!(normalize_version("vv2.0"), "2.0");
    assert_eq!(normalize_version("1.0"), "1.0");
    assert_eq!(normalize_version("\tv0.9\n"), "0.9");
    assert_eq!(normalize_version("V1"), "V1");
}

#[test]
fn versions_compare_numerically_part_by_part() {
    assert_eq!(compare_versions("1.2.10", "1.2.9"), 1);
    assert_eq!(compare_versions("1.2.9", "1.2.10"), -1);
    assert_eq!(compare_versions("1.0", "1.0.0"), 0);
    assert_eq!(compare_versions("2", "10"), -1);
    assert_eq!(compare_versions("1.0.1", "1.0"), 1);
    assert_eq!(compare_versions("", ""), 0);
}

#[test]
fn version_parts_that_do_not_parse_count_as_zero() {
    assert_eq!(compare_versions("1.a", "1.0"), 0);
    assert_eq!(compare_versions("1.-1", "1.0"), -1);
    assert_eq!(compare_versions("1.+2", "1.2"), 0);
    assert_eq!(compare_versions("1.99999999999", "1.0"), 0);
    assert_eq!(compare_versions("1.2147483647", "1.2147483646"), 1);
    assert_eq!(compare_versions("1. 2", "1.0"), 0);
}

#[test]
fn version_order_is_antisymmetric_and_transitive_on_examples() {
    let vs = ["0.1", "1.0", "1.0.0", "1.2", "1.10", "2.0.1", "v3"];
    for a in vs {
        assert_eq!(compare_versions(a, a), 0);
        for b in vs {
            assert_eq!(compare_versions(a, b), -compare_versions(b, a));
            for c in vs {
                if compare_versions(a, b) >= 0 && compare_versions(b, c) >= 0 {
                    assert!(compare_versions(a, c) >= 0);
                }
            }
        }
    }
}

#[test]
fn setup_installer_is_preferred() {
    let release = obj(vec![(
        "assets",
        Json::Array(vec![
            asset("VaultX.exe", "https://x/raw.exe"),
            asset("VaultX_1.2.0_x64-Setup.EXE", "https://x/setup.exe"),
            asset("VaultX.msi", "https://x/app.msi"),
        ]),
    )]);
    assert_eq!(best_windows_asset_url(&release), Some("https://x/setup.exe".to_string()));
}

#[test]
fn any_exe_when_no_installer() {
    let release = obj(vec![(
        "assets",
        Json::Array(vec![asset("notes.txt", "https://x/notes"), asset("VaultX.exe", "https://x/raw.exe")]),
    )]);
    assert_eq!(best_windows_asset_url(&release), Some("https://x/raw.exe".to_string()));
    let none = obj(vec![("assets", Json::Array(vec![asset("VaultX.msi", "https://x/app.msi")]))]);
    assert_eq!(best_windows_asset_url(&none), None);
    assert_eq!(best_windows_asset_url(&obj(vec![])), None);
    assert_eq!(best_windows_asset_url(&obj(vec![("assets", s("x"))])), None);
}

#[test]
fn installer_without_url_gives_none() {
    let release = obj(vec![(
        "assets",
        Json::Array(vec![obj(vec![("name", s("setup.exe"))]), asset("VaultX.exe", "https://x/raw.exe")]),
    )]);
    assert_eq!(best_windows_asset_url(&release), None);
}

#[test]
fn release_report_for_newer_tag() {
    let release = obj(vec![
        ("tag_name", s("v1.3.0")),
        ("html_url", s("https://github.com/paralysisx/MANACC/releases/tag/v1.3.0")),
        ("body", s("Fixes")),
        ("assets", Json::Array(vec![asset("VaultX-setup.exe", "https://x/s.exe")])),
    ]);
    let info = update_info_from_release("1.2.9", &release).unwrap();
    assert_eq!(info.current_version, "1.2.9");
    assert_eq!(info.latest_version, "1.3.0");
    assert!(info.update_available);
    assert_eq!(info.release_url.as_deref(), Some("https://github.com/paralysisx/MANACC/releases/tag/v1.3.0"));
    assert_eq!(info.release_notes.as_deref(), Some("Fixes"));
    assert_eq!(info.download_url.as_deref(), Some("https://x/s.exe"));
    assert_eq!(info.status_message, None);
}

#[test]
fn release_report_for_same_version() {
    let release = obj(vec![("tag_name", s("v1.2.9"))]);
    let info = update_info_from_release("1.2.9", &release).unwrap();
    assert!(!info.update_available);
    assert_eq!(info.release_url, None);
    assert_eq!(info.download_url, None);
}

#[test]
fn release_without_tag_is_an_error() {
    let release = obj(vec![("tag_name", Json::Number(Some(3)))]);
    assert_eq!(
        update_info_from_release("1.0.0", &release).err(),
        Some("Missing tag_name in release response".to_string())
    );
}

#[test]
fn no_release_yet_report() {
    let info = no_release_info("0.1.0");
    assert_eq!(info.current_version, "0.1.0");
    assert_eq!(info.latest_version, "0.1.0");
    assert!(!info.update_available);
    assert_eq!(info.release_url.as_deref(), Some("https://github.com/paralysisx/MANACC/releases"));
    assert_eq!(info.download_url, None);
    assert_eq!(info.release_notes, None);
    assert_eq!(info.status_message.as_deref(), Some("No published releases found yet."));
}
