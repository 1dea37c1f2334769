use base64::engine::general_purpose;
use base64::Engine;
use bot_rs::rom_core::{LoginData, RomInfoData, XmsAppInfo};
use bot_rs::rom_links::ResolvedDownloadPath;
use bot_rs::rom_map::{
    apply_metadata, changelog_of, clean_gentle, images_of, map_rom, map_xms_apps, map_xms_info,
    parse_text_metadata, ChangelogGroup, ChangelogImage, ChangelogItem, DeviceState, FileMirror,
    GentleNotice, OtaMetadata, PartitionState, Rom, RomInfo, XmsApkInfo, XmsDto, XmsUpdateInfo,
};
use bot_rs::rom_query::{
    current_download, expired_login_data, fetch_rom_download_links, has_current_rom,
    is_session_expired_error, needs_download_probe, query_is_incomplete, query_param,
    rom_query_result, xms_follow_up_version, xms_report,
};
use bot_rs::rom_security::{decode_security_key, default_security_key, get_security};

fn item(txt: &str, image: Option<(&str, &str, &str)>) -> ChangelogItem {
    ChangelogItem {
        txt: txt.to_owned(),
        image: image
            .map(|(path, h, w)| {
                vec![ChangelogImage { path: path.to_owned(), h: h.to_owned(), w: w.to_owned() }]
            })
            .unwrap_or_default(),
    }
}

fn group(category: &str, items: Vec<ChangelogItem>) -> ChangelogGroup {
    ChangelogGroup { category: category.to_owned(), items }
}

#[test]
fn rom_mapper_matches_kotlin_nullable_to_string_fields() {
    let rom = Rom { bigversion: Some("V14".to_owned()), ..Default::default() };
    let recovery = RomInfo::default();
    let (info, _, _) = map_rom(&recovery, Some(&rom), None);
    assert_eq!(info.rom_type, "null");
    assert_eq!(info.device, "null");
    assert_eq!(info.version, "null");
    assert_eq!(info.codebase, "null");
    assert_eq!(info.branch, "null");
    assert_eq!(info.file_name, "null.zip");
    assert_eq!(info.file_size, "null");
    assert_eq!(info.md5, "null");
    assert_eq!(info.official1_download, "https://ultimateota.d.miui.com/null/null");
    assert_eq!(
        info.cdn1_download,
        "https://bkt-sgp-miui-ota-update-alisgp.oss-ap-southeast-1.aliyuncs.com/null/null"
    );
}

#[test]
fn current_download_probe_failure_falls_back_like_kmp() {
    let recovery = RomInfo {
        current_rom: Some(Rom {
            version: Some("OS3.0.1.0.TEST".to_owned()),
            filename: Some("miui_TEST_OS3.0.1.0.zip".to_owned()),
            md5: Some("current-md5".to_owned()),
            ..Default::default()
        }),
        latest_rom: Some(Rom { md5: Some("different-md5".to_owned()), ..Default::default() }),
        ..Default::default()
    };

    let download = current_download(&recovery, Some(&recovery));

    assert!(download.no_ultimate_link());
    assert_eq!(download.path(), "/OS3.0.1.0.TEST/miui_TEST_OS3.0.1.0.zip");
}

#[test]
fn query_param_extracts_two_factor_context_like_kmp_login_flow() {
    let url = "https://account.xiaomi.com/fe/service/identity/authStart?_locale=zh_CN&context=abc%20123&sid=miuiromota";
    assert_eq!(query_param(url, "context").as_deref(), Some("abc 123"));
    assert_eq!(query_param(url, "missing"), None);
    assert_eq!(query_param("not a url", "context"), None);
}

#[test]
fn text_metadata_maps_to_rom_fields() {
    let metadata = parse_text_metadata(
        "ota-type=AB\npost-build=google/device/build\npost-timestamp=1700000000\npost-sdk-level=35\npost-security-patch-level=2026-05-01\n",
    );
    let mut rom = RomInfoData::default();
    apply_metadata(&mut rom, &metadata, "2023/11/15 06:13:20");
    assert_eq!(rom.fingerprint, "google/device/build");
    assert_eq!(rom.sdk_level, "35");
    assert_eq!(rom.security_patch_level, "2026-05-01");
    assert!(!rom.timestamp.is_empty());
}

#[test]
fn protobuf_metadata_prefers_odm_partition_fingerprint() {
    let metadata = OtaMetadata {
        postcondition: Some(DeviceState {
            build: vec!["fallback/build".to_owned()],
            partition_state: vec![PartitionState {
                partition_name: "odm".to_owned(),
                build: vec!["odm/build".to_owned()],
                ..Default::default()
            }],
            timestamp: 1700000000,
            sdk_level: "35".to_owned(),
            security_patch_level: "2026-05-01".to_owned(),
            ..Default::default()
        }),
        ..Default::default()
    };
    let mut rom = RomInfoData::default();
    apply_metadata(&mut rom, &metadata, "2023/11/15 06:13:20");
    assert_eq!(rom.fingerprint, "odm/build");
}

#[test]
fn security_key_decoder_accepts_url_safe_and_mime_base64() {
    let key = [251_u8; 16];
    let url_safe = general_purpose::URL_SAFE.encode(key);
    assert!(url_safe.contains('-'));
    assert_eq!(decode_security_key(&url_safe), Some(key.to_vec()));

    let default_key = default_security_key();
    let mime_with_whitespace = format!(
        "{}\n{}",
        &general_purpose::STANDARD.encode(&default_key)[..12],
        &general_purpose::STANDARD.encode(&default_key)[12..]
    );
    assert_eq!(decode_security_key(&mime_with_whitespace), Some(default_key.clone()));
}

#[test]
fn expired_login_uses_public_security_context() {
    let expired = LoginData {
        auth_result: Some("3".to_owned()),
        account_type: Some("GL".to_owned()),
        ssecurity: Some(general_purpose::STANDARD.encode(b"stale-security!!")),
        service_token: Some("stale-token".to_owned()),
        user_id: Some("10000".to_owned()),
        c_user_id: Some("encrypted".to_owned()),
        ..Default::default()
    };
    let (account_type, port, ssecurity, security_key, service_token, user_id, c_user_id) =
        get_security(Some(&expired));
    assert_eq!(account_type, "CN");
    assert_eq!(port, "1");
    assert!(ssecurity.is_empty());
    assert_eq!(security_key, default_security_key());
    assert!(service_token.is_empty());
    assert!(user_id.is_empty());
    assert!(c_user_id.is_empty());
}

#[test]
fn incomplete_active_login_uses_public_security_context() {
    let incomplete = LoginData {
        auth_result: Some("1".to_owned()),
        account_type: Some("CN".to_owned()),
        ssecurity: Some(general_purpose::STANDARD.encode(b"stale-security!!")),
        service_token: Some("stale-token".to_owned()),
        c_user_id: Some("encrypted".to_owned()),
        ..Default::default()
    };
    let (_account_type, port, ssecurity, security_key, service_token, user_id, c_user_id) =
        get_security(Some(&incomplete));

    assert_eq!(port, "1");
    assert!(ssecurity.is_empty());
    assert_eq!(security_key, default_security_key());
    assert!(service_token.is_empty());
    assert!(user_id.is_empty());
    assert!(c_user_id.is_empty());
}

#[test]
fn active_login_with_invalid_security_key_uses_public_security_context() {
    let invalid = LoginData {
        auth_result: Some("1".to_owned()),
        account_type: Some("CN".to_owned()),
        ssecurity: Some(general_purpose::STANDARD.encode(b"too-short")),
        service_token: Some("token".to_owned()),
        user_id: Some("10000".to_owned()),
        c_user_id: Some("encrypted".to_owned()),
        ..Default::default()
    };
    let (_account_type, port, ssecurity, security_key, service_token, user_id, c_user_id) =
        get_security(Some(&invalid));

    assert_eq!(port, "1");
    assert!(ssecurity.is_empty());
    assert_eq!(security_key, default_security_key());
    assert!(service_token.is_empty());
    assert!(user_id.is_empty());
    assert!(c_user_id.is_empty());
}

#[test]
fn complete_active_login_uses_account_security_context() {
    let key = general_purpose::STANDARD.encode(b"0123456789abcdef");
    let login = LoginData {
        auth_result: Some("1".to_owned()),
        ssecurity: Some(key.clone()),
        service_token: Some("token".to_owned()),
        user_id: Some("10000".to_owned()),
        c_user_id: Some("encrypted".to_owned()),
        ..Default::default()
    };
    let (account_type, port, ssecurity, security_key, service_token, user_id, c_user_id) =
        get_security(Some(&login));
    assert_eq!(account_type, "CN");
    assert_eq!(port, "2");
    assert_eq!(ssecurity, key);
    assert_eq!(security_key, b"0123456789abcdef".to_vec());
    assert_eq!(service_token, "token");
    assert_eq!(user_id, "10000");
    assert_eq!(c_user_id, "encrypted");
    assert_eq!(get_security(None).1, "1");
}

#[test]
fn security_key_decoder_accepts_unpadded_and_rejects_wrong_length() {
    let key = [7_u8; 16];
    let nopad = general_purpose::STANDARD_NO_PAD.encode(key);
    assert_eq!(decode_security_key(&nopad), Some(key.to_vec()));
    let url_nopad = general_purpose::URL_SAFE_NO_PAD.encode([251_u8; 16]);
    assert_eq!(decode_security_key(&url_nopad), Some(vec![251_u8; 16]));
    assert_eq!(decode_security_key(&general_purpose::STANDARD.encode([1_u8; 15])), None);
    assert_eq!(decode_security_key("!!!"), None);
}

#[test]
fn expired_session_keeps_its_credentials() {
    let login = LoginData {
        auth_result: Some("1".to_owned()),
        user_id: Some("10000".to_owned()),
        pass_token: Some("old".to_owned()),
        ..Default::default()
    };
    let expired = expired_login_data(&login);
    assert_eq!(expired.auth_result.as_deref(), Some("3"));
    assert_eq!(expired.user_id.as_deref(), Some("10000"));
    assert_eq!(expired.pass_token.as_deref(), Some("old"));
}

#[test]
fn gentle_notice_drops_title_and_tags() {
    let html = "<p>Title</p><p>First&nbsp;line</p><ul><li>item <b>one</b></li></ul>";
    assert_eq!(clean_gentle(html), "First line\n· item one");
    assert_eq!(clean_gentle(""), "");
    assert_eq!(clean_gentle("only a title"), "");
    assert_eq!(clean_gentle("a <unclosed\nb"), "b");
}

#[test]
fn changelog_text_lists_categories_and_entries() {
    let groups = vec![
        group("System", vec![item("Faster boot  ", None), item("   ", None), item("Fix", None)]),
        group("", vec![item("Loose entry", None)]),
        group("Camera", vec![]),
    ];
    assert_eq!(changelog_of(&groups), "System\nFaster boot\nFix\n\nLoose entry\n\nCamera");
    assert_eq!(changelog_of(&Vec::new()), "");
}

#[test]
fn old_layout_rom_gets_icons_per_group() {
    let rom = Rom {
        bigversion: Some("816".to_owned()),
        version: Some("OS1.0.5.0".to_owned()),
        filename: Some("miui_X.zip.part".to_owned()),
        osbigversion: Some("0.0".to_owned()),
        is_beta: 1,
        changelog: vec![
            group("System", vec![item("Faster boot", None), item("Fix", None)]),
            group("Camera", vec![item("Night mode", None)]),
        ],
        ..Default::default()
    };
    let recovery = RomInfo {
        icon: Some(vec![("System".to_owned(), "/sys.png".to_owned())]),
        file_mirror: Some(FileMirror {
            icon: "http://icons.example.com".to_owned(),
            image: "http://images.example.com".to_owned(),
        }),
        gentle_notice: Some(GentleNotice { text: "<p>Hello</p><p>Update now</p>".to_owned() }),
        ..Default::default()
    };
    let (info, icons, images) = map_rom(&recovery, Some(&rom), None);
    assert_eq!(info.big_version, "HyperOS 1.0");
    assert_eq!(info.file_name, "miui_X.zip");
    assert!(info.is_beta);
    assert!(!info.is_gov);
    assert_eq!(info.changelog, "System\nFaster boot\nFix\n\nCamera\nNight mode");
    assert_eq!(info.gentle_notice, "Update now");
    assert!(images.is_empty());
    assert_eq!(icons.len(), 2);
    assert_eq!(icons[0].icon_name, "System");
    assert_eq!(icons[0].icon_link, "https://icons.example.com/sys.png");
    assert_eq!(icons[0].changelog, "Faster boot\nFix");
    assert_eq!(icons[1].icon_name, "Camera");
    assert_eq!(icons[1].icon_link, "");
    assert_eq!(icons[1].changelog, "Night mode");
}

#[test]
fn picture_layout_rom_gets_images_per_entry() {
    let rom = Rom {
        bigversion: Some("V816".to_owned()),
        osbigversion: Some("3.0".to_owned()),
        picture_changelog: true,
        changelog: vec![group(
            "Camera",
            vec![item("Night mode", Some(("/n.png", "100", "wide"))), item("Zoom", None)],
        )],
        ..Default::default()
    };
    let recovery = RomInfo {
        file_mirror: Some(FileMirror {
            icon: String::new(),
            image: "http://images.example.com".to_owned(),
        }),
        ..Default::default()
    };
    let resolved = ResolvedDownloadPath::fallback(Some("OS3.0.1.0"), Some("r.zip"));
    let (info, icons, images) = map_rom(&recovery, Some(&rom), Some(&resolved));
    assert_eq!(info.big_version, "HyperOS 3.0");
    assert_eq!(info.official1_download, "");
    assert!(icons.is_empty());
    assert_eq!(images.len(), 2);
    assert_eq!(images[0].title, "Camera");
    assert_eq!(images[0].image_url, "https://images.example.com/n.png");
    assert_eq!(images[0].image_height, Some(100));
    assert_eq!(images[0].image_width, None);
    assert_eq!(images[1].image_url, "https://images.example.com");
    assert_eq!(images[1].image_width, None);
}

#[test]
fn rom_without_bigversion_maps_to_nothing() {
    let recovery = RomInfo::default();
    let (info, icons, images) = map_rom(&recovery, Some(&Rom::default()), None);
    assert_eq!(info.file_name, "");
    assert!(icons.is_empty() && images.is_empty());
    let (info, _, _) = map_rom(&recovery, None, None);
    assert_eq!(info.version, "");
    let miui = Rom { bigversion: Some("14.0".to_owned()), ..Default::default() };
    assert_eq!(map_rom(&recovery, Some(&miui), None).0.big_version, "MIUI 14.0");
}

#[test]
fn xms_apps_resolve_their_addresses() {
    let dto = XmsDto {
        apk_lists: vec![XmsApkInfo {
            name: Some("Gallery".to_owned()),
            size: Some(-12),
            download_urls: vec!["/a.apk".to_owned(), "".to_owned(), "https://x/b.apk".to_owned()],
            ..Default::default()
        }],
        mirror_list: vec!["https://m.example.com/".to_owned()],
    };
    let apps = map_xms_apps(dto);
    assert_eq!(apps.len(), 1);
    assert_eq!(apps[0].name, "Gallery");
    assert_eq!(apps[0].pack_name, "");
    assert_eq!(apps[0].file_size, "-12");
    assert_eq!(apps[0].download_urls, vec!["https://m.example.com/a.apk", "https://x/b.apk"]);
}

#[test]
fn xms_info_maps_report_and_keeps_apps() {
    let apps = vec![XmsAppInfo { name: "A".to_owned(), ..Default::default() }];
    let none = map_xms_info(None, "", apps.clone());
    assert!(!none.has_update);
    assert_eq!(none.apps.len(), 1);
    let report = XmsUpdateInfo {
        has_xms_update: 1,
        lst_ver: Some("2".to_owned()),
        cur_ver: Some("1".to_owned()),
        pkg_cnt: 3,
        change_log: vec![group("Apps", vec![item("New app", Some(("/p.png", "1", "2")))])],
        ..Default::default()
    };
    let info = map_xms_info(Some(&report), "http://img", apps);
    assert!(info.has_update);
    assert_eq!(info.cur_ver, "1");
    assert_eq!(info.lst_ver, "2");
    assert_eq!(info.pkg_cnt, 3);
    assert_eq!(info.prio, 0);
    assert_eq!(info.changelog_text, "Apps\nNew app");
    assert_eq!(info.changelog_items[0].image_url, "https://img/p.png");
    assert_eq!(info.changelog_items[0].image_width, Some(2));
    assert_eq!(images_of(&report.change_log, "").len(), 1);
}

#[test]
fn text_metadata_reads_pre_state_comments_and_last_value() {
    let m = parse_text_metadata(
        "# comment\n  ota-type = BLOCK \npre-device=a\npost-build=x\npost-build=y\r\nbad line\npost-timestamp=abc\n",
    );
    assert_eq!(m.ota_type, 0);
    let pre = m.precondition.expect("pre state");
    assert_eq!(pre.device, vec!["a".to_owned()]);
    let post = m.postcondition.expect("post state");
    assert_eq!(post.build, vec!["y".to_owned()]);
    assert_eq!(post.timestamp, 0);
    let plain = parse_text_metadata("ota-type=BRICK\n");
    assert_eq!(plain.ota_type, 3);
    assert!(plain.precondition.is_none());
    let mut rom = RomInfoData::default();
    apply_metadata(&mut rom, &plain, "later");
    assert_eq!(rom.fingerprint, "");
    assert_eq!(rom.timestamp, "");
}

#[test]
fn query_answer_prefers_current_then_fallback() {
    let current = Rom {
        bigversion: Some("816".to_owned()),
        version: Some("OS1.0.1.0".to_owned()),
        filename: Some("cur.zip".to_owned()),
        md5: Some("m".to_owned()),
        ..Default::default()
    };
    let inc = Rom { bigversion: Some("816".to_owned()), version: Some("OS1.0.2.0".to_owned()), ..Default::default() };
    let recovery = RomInfo {
        current_rom: Some(current.clone()),
        latest_rom: Some(Rom { md5: Some("m".to_owned()), filename: Some("lat.zip".to_owned()), ..Default::default() }),
        increment_rom: Some(inc.clone()),
        ..Default::default()
    };
    assert!(has_current_rom(&recovery));
    assert!(!needs_download_probe(&recovery));
    let download = current_download(&recovery, None);
    assert_eq!(download.path(), "/OS1.0.1.0/lat.zip");
    let (answer, metadata_url) =
        rom_query_result(&recovery, Some(&download), Default::default(), None);
    assert!(answer.ok);
    assert_eq!(answer.message, "Request successful!");
    assert_eq!(answer.cur_rom_info.official1_download, "https://ultimateota.d.miui.com/OS1.0.1.0/lat.zip");
    assert_eq!(metadata_url, answer.cur_rom_info.official1_download);
    assert_eq!(answer.inc_rom_info.version, "OS1.0.2.0");

    let fallback = RomInfo { cross_rom: Some(inc), ..Default::default() };
    let (answer, url) = rom_query_result(&fallback, None, Default::default(), None);
    assert!(answer.ok && answer.is_fallback);
    assert_eq!(answer.message, "Requested version does not exist!");
    assert_eq!(url, "");

    let (answer, _) = rom_query_result(&RomInfo::default(), None, Default::default(), None);
    assert!(!answer.ok);
    assert_eq!(answer.message, "No information!");

    let links = fetch_rom_download_links(Ok(rom_query_result(&recovery, Some(&download), Default::default(), None).0)).unwrap();
    assert!(links.ok);
    assert_eq!(links.file_name, "cur.zip");
    assert_eq!(links.links.cdn2, "https://cdnorg.d.miui.com/OS1.0.1.0/cur.zip");
    assert_eq!(fetch_rom_download_links(Err("down".to_owned())).unwrap_err(), "down");
    let failed = fetch_rom_download_links(Ok(answer)).unwrap();
    assert!(!failed.ok);
    assert_eq!(failed.message, "No information!");
}

#[test]
fn query_decisions_follow_the_report() {
    let query = bot_rs::rom_core::RomQuery { code_name: "a".to_owned(), ..Default::default() };
    assert!(query_is_incomplete(&query));
    assert!(is_session_expired_error("failed: code 2001"));
    assert!(!is_session_expired_error("code 200"));
    let recovery = RomInfo {
        xms_update_info: Some(XmsUpdateInfo { has_xms_update: 1, lst_ver: Some("9".to_owned()), ..Default::default() }),
        ..Default::default()
    };
    assert_eq!(xms_follow_up_version(&recovery).as_deref(), Some("9"));
    let report = xms_report(recovery.xms_update_info.clone(), Some(vec![group("New", vec![])])).unwrap();
    assert_eq!(report.change_log[0].category, "New");
    assert_eq!(xms_follow_up_version(&RomInfo::default()), None);
}

#[test]
fn miui_crypto_roundtrip() {
    let raw = r#"{"hello":"world"}"#;
    let key = default_security_key();
    let encrypted = bot_rs::rom_crypto::miui_encrypt(raw, &key).unwrap();
    let mime = general_purpose::STANDARD.encode(general_purpose::URL_SAFE.decode(encrypted).unwrap());
    let decrypted = bot_rs::rom_crypto::miui_decrypt(&mime, &key).unwrap();
    assert_eq!(decrypted, raw);
}

#[test]
fn miui_crypto_reports_bad_keys_and_data() {
    assert_eq!(bot_rs::rom_crypto::miui_encrypt("x", b"short").unwrap_err(), "Invalid Length");
    let key = default_security_key();
    let junk = general_purpose::STANDARD.encode([0u8; 16]);
    assert!(bot_rs::rom_crypto::miui_decrypt(&junk, &key).is_err());
    assert!(bot_rs::rom_crypto::miui_decrypt("!!", &key).is_err());
}
