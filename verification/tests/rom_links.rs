use bot_rs::rom_links::{
    resolve_current_download, resolve_xms_download_url, rom_path, CurrentDownloadProbe,
    DownloadLinks, OfficialPath, ResolvedDownloadPath,
};

#[test]
fn builds_kmp_compatible_rom_path() {
    assert_eq!(
        rom_path(Some("OS3.0.1.0"), Some("rom.zip")),
        "/OS3.0.1.0/rom.zip"
    );
    assert_eq!(rom_path(None, None), "/null/null");
}

#[test]
fn builds_full_rom_download_links() {
    let links = DownloadLinks::for_rom(
        Some("OS3.0.1.0"),
        Some("rom.zip"),
        OfficialPath::SameAsDirect,
    );

    assert_eq!(
        links.official1,
        "https://ultimateota.d.miui.com/OS3.0.1.0/rom.zip"
    );
    assert_eq!(
        links.official2,
        "https://superota.d.miui.com/OS3.0.1.0/rom.zip"
    );
    assert_eq!(
        links.cdn1,
        "https://bkt-sgp-miui-ota-update-alisgp.oss-ap-southeast-1.aliyuncs.com/OS3.0.1.0/rom.zip"
    );
    assert_eq!(links.cdn2, "https://cdnorg.d.miui.com/OS3.0.1.0/rom.zip");
}

#[test]
fn hides_official_links_when_ultimate_is_unavailable() {
    let resolved = ResolvedDownloadPath::fallback(Some("OS3.0.1.0"), Some("rom.zip"));
    let links = DownloadLinks::for_rom(
        Some("OS3.0.1.0"),
        Some("rom.zip"),
        OfficialPath::from_resolved(Some(&resolved)),
    );

    assert!(links.official1.is_empty());
    assert!(links.official2.is_empty());
    assert!(resolved.no_ultimate_link());
}

#[test]
fn resolves_current_download_from_latest_md5_match() {
    let resolved = resolve_current_download(CurrentDownloadProbe {
        current_version: Some("OS3.0.1.0"),
        current_filename: Some("current.zip"),
        current_md5: Some("same"),
        latest_md5: Some("same"),
        latest_filename: Some("latest.zip"),
        ..Default::default()
    });

    assert!(!resolved.no_ultimate_link());
    assert_eq!(resolved.path(), "/OS3.0.1.0/latest.zip");
}

#[test]
fn resolves_current_download_from_probe_latest_filename() {
    let resolved = resolve_current_download(CurrentDownloadProbe {
        current_version: Some("OS3.0.1.0"),
        current_filename: Some("current.zip"),
        current_md5: Some("current"),
        latest_md5: Some("latest"),
        probe_current_version: Some("OS3.0.2.0"),
        probe_latest_filename: Some("ultimate.zip"),
        ..Default::default()
    });

    assert!(!resolved.no_ultimate_link());
    assert_eq!(resolved.path(), "/OS3.0.2.0/ultimate.zip");
}

#[test]
fn falls_back_to_direct_path_without_probe_result() {
    let resolved = resolve_current_download(CurrentDownloadProbe {
        current_version: Some("OS3.0.1.0"),
        current_filename: Some("current.zip"),
        current_md5: Some("current"),
        latest_md5: Some("latest"),
        ..Default::default()
    });

    assert!(resolved.no_ultimate_link());
    assert_eq!(resolved.path(), "/OS3.0.1.0/current.zip");
}

#[test]
fn resolves_xms_download_links() {
    let mirrors = vec!["https://mirror.example.com/base/".to_owned()];

    assert_eq!(
        resolve_xms_download_url("/apk/app.apk", &mirrors).as_deref(),
        Some("https://mirror.example.com/base/apk/app.apk")
    );
    assert_eq!(
        resolve_xms_download_url("https://cdn.example.com/app.apk", &mirrors).as_deref(),
        Some("https://cdn.example.com/app.apk")
    );
    assert_eq!(resolve_xms_download_url("apk/app.apk", &[]), None);
}

#[test]
fn xms_url_is_empty_for_empty_address_and_strips_repeated_slashes() {
    let mirrors = vec!["https://m.example.com//".to_owned()];
    assert_eq!(resolve_xms_download_url("", &mirrors), None);
    assert_eq!(
        resolve_xms_download_url("//a.apk", &mirrors).as_deref(),
        Some("https://m.example.com/a.apk")
    );
    assert_eq!(
        resolve_xms_download_url("http://plain.example.com/a.apk", &[]).as_deref(),
        Some("http://plain.example.com/a.apk")
    );
}

#[test]
fn resolved_official_path_is_served_by_official_mirrors_only() {
    let resolved = ResolvedDownloadPath::ultimate(Some("OS3.0.2.0"), Some("u.zip"));
    let links = DownloadLinks::for_rom(
        Some("OS3.0.1.0"),
        None,
        OfficialPath::from_resolved(Some(&resolved)),
    );
    assert_eq!(links.official1, "https://ultimateota.d.miui.com/OS3.0.2.0/u.zip");
    assert_eq!(links.official2, "https://superota.d.miui.com/OS3.0.2.0/u.zip");
    assert_eq!(links.cdn2, "https://cdnorg.d.miui.com/OS3.0.1.0/null");
    assert_eq!(OfficialPath::from_resolved(None), OfficialPath::SameAsDirect);
}

#[test]
fn md5_match_without_latest_file_uses_null_segment() {
    let resolved = resolve_current_download(CurrentDownloadProbe {
        current_version: Some("V1"),
        ..Default::default()
    });
    assert!(!resolved.no_ultimate_link());
    assert_eq!(resolved.path(), "/V1/null");
}
