use bot_rs::soda::{
    is_soda_numeric_id, normalize_quality, normalize_soda_format, parse_soda_fragment,
    parse_soda_track_id, select_soda_play_info, soda_artists, soda_cover_url, soda_track_url,
    SodaPlayInfo,
};

#[test]
fn parses_soda_share_url() {
    assert_eq!(
        parse_soda_track_id("https://music.douyin.com/qishui/share/track?track_id=739105056071"),
        Some("739105056071".to_string())
    );
}

#[test]
fn selects_soda_high_quality_like_source_bot() {
    let play_infos = vec![
        SodaPlayInfo {
            main_play_url: Some("https://example.com/higher.m4a".to_string()),
            backup_play_url: None,
            play_auth: None,
            format: Some("m4a".to_string()),
            quality: Some("higher".to_string()),
            size: 1,
            bitrate: 128,
        },
        SodaPlayInfo {
            main_play_url: Some("https://example.com/highest.m4a".to_string()),
            backup_play_url: None,
            play_auth: None,
            format: Some("mp4".to_string()),
            quality: Some("highest".to_string()),
            size: 2,
            bitrate: 320,
        },
    ];

    let selected = select_soda_play_info(&play_infos, "high").unwrap();
    assert_eq!(selected.quality.as_deref(), Some("highest"));
    assert_eq!(normalize_soda_format(selected.format.as_deref()), "m4a");
}

fn info(quality: &str, size: i64, bitrate: i64) -> SodaPlayInfo {
    SodaPlayInfo {
        main_play_url: None,
        backup_play_url: None,
        play_auth: None,
        format: None,
        quality: Some(quality.to_string()),
        size,
        bitrate,
    }
}

#[test]
fn play_info_choice_follows_request_and_keeps_last_of_equals() {
    let infos = vec![info("medium", 1, 1), info("higher", 5, 1), info("Higher ", 5, 1)];
    let chosen = select_soda_play_info(&infos, "std").unwrap();
    assert_eq!(chosen.quality.as_deref(), Some("Higher "));
    let infos = vec![info("lossless", 1, 1), info("hi_res", 9, 9)];
    assert_eq!(select_soda_play_info(&infos, "hires").unwrap().quality.as_deref(), Some("lossless"));
    assert!(select_soda_play_info(&[], "high").is_none());
    let infos = vec![info("weird", 1, 500), info("other", 1, 400)];
    assert_eq!(select_soda_play_info(&infos, "high").unwrap().bitrate, 500);
}

#[test]
fn soda_ids_and_fragments() {
    assert!(is_soda_numeric_id("12345678"));
    assert!(!is_soda_numeric_id("1234567"));
    assert!(!is_soda_numeric_id(" 12345678"));
    assert_eq!(
        parse_soda_fragment(" #/track?track_id=123456789&x=1"),
        Some("123456789".to_string())
    );
    assert_eq!(parse_soda_fragment("#/album?id=123456789"), None);
    assert_eq!(parse_soda_fragment("#/song?id=12"), None);
}

#[test]
fn soda_links_by_path_query_and_fragment() {
    assert_eq!(
        parse_soda_track_id("https://www.qishui.com/track/987654321/"),
        Some("987654321".to_string())
    );
    assert_eq!(parse_soda_track_id("https://qishui.douyin.com/song/42"), Some("42".to_string()));
    assert_eq!(
        parse_soda_track_id("https://music.douyin.com/app#/track?trackId=11112222"),
        Some("11112222".to_string())
    );
    assert_eq!(parse_soda_track_id("https://example.com/track/123"), None);
    assert_eq!(parse_soda_track_id("   "), None);
}

#[test]
fn soda_quality_and_format_names() {
    assert_eq!(normalize_quality(" STD "), "standard");
    assert_eq!(normalize_quality("无损"), "lossless");
    assert_eq!(normalize_quality("Hi-Res"), "hires");
    assert_eq!(normalize_quality("whatever"), "high");
    assert_eq!(normalize_soda_format(None), "m4a");
    assert_eq!(normalize_soda_format(Some("  ")), "m4a");
    assert_eq!(normalize_soda_format(Some(" FLAC ")), "flac");
    assert_eq!(normalize_soda_format(Some("MP4")), "m4a");
}

#[test]
fn soda_names_cover_and_share_url() {
    assert_eq!(soda_artists(&[]), "未知歌手");
    assert_eq!(
        soda_artists(&[" 周杰伦 ".to_string(), "  ".to_string(), "方文山".to_string()]),
        "周杰伦 / 方文山"
    );
    assert_eq!(soda_cover_url(&[], "x"), "");
    assert_eq!(
        soda_cover_url(&[" https://p/ ".to_string()], "abc"),
        "https://p/abc~c5_375x375.jpg"
    );
    assert_eq!(soda_cover_url(&["https://p/abc~x.jpg".to_string()], "abc"), "https://p/abc~x.jpg");
    assert_eq!(
        soda_track_url("1"),
        "https://music.douyin.com/qishui/share/track?track_id=1"
    );
}
