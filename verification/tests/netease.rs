use bot_rs::netease::{
    is_netease_numeric_id, netease_artists, netease_native_bitrate, netease_vkeys_quality,
    parse_vkeys_duration, should_prefer_vkeys_netease_download, vkeys_track_format,
    VkeysResponse, parse_netease_collection_id, parse_netease_id, query_id, NeteaseCollectionId,
    NeteaseCollectionKind,
};

#[test]
fn maps_vkeys_netease_quality_from_global_quality() {
    assert_eq!(netease_vkeys_quality("standard"), 2);
    assert_eq!(netease_vkeys_quality("high"), 4);
    assert_eq!(netease_vkeys_quality("lossless"), 5);
    assert_eq!(netease_native_bitrate("standard"), 128_000);
    assert_eq!(netease_native_bitrate("high"), 320_000);
    assert_eq!(netease_native_bitrate("lossless"), 999_000);
}

#[test]
fn parses_vkeys_netease_media_metadata() {
    assert_eq!(parse_vkeys_duration("4分29秒"), Some(269));
    assert_eq!(parse_vkeys_duration("183"), Some(183));
}

#[test]
fn only_lossless_netease_prefers_vkeys_without_cookie() {
    assert!(!should_prefer_vkeys_netease_download("standard"));
    assert!(!should_prefer_vkeys_netease_download("high"));
    assert!(should_prefer_vkeys_netease_download("lossless"));
    assert!(should_prefer_vkeys_netease_download("hires"));
}

#[test]
fn quality_aliases_and_hires_bitrate() {
    assert_eq!(netease_vkeys_quality(" FLAC "), 5);
    assert_eq!(netease_vkeys_quality("128"), 2);
    assert_eq!(netease_native_bitrate("Master"), 1_999_000);
    assert!(should_prefer_vkeys_netease_download("无损"));
}

#[test]
fn durations_that_do_not_read() {
    assert_eq!(parse_vkeys_duration("  "), None);
    assert_eq!(parse_vkeys_duration("0"), None);
    assert_eq!(parse_vkeys_duration("0分0秒"), None);
    assert_eq!(parse_vkeys_duration("3分"), None);
    assert_eq!(parse_vkeys_duration("3 分 5"), Some(185));
    assert_eq!(parse_vkeys_duration("abc"), None);
}

#[test]
fn track_formats() {
    assert_eq!(
        vkeys_track_format("https://x/a.FLAC?sig=1", "", "").as_deref(),
        Some("flac")
    );
    assert_eq!(
        vkeys_track_format("https://x/stream", "无损", "").as_deref(),
        Some("flac")
    );
    assert_eq!(
        vkeys_track_format("https://x/stream", "", "20MB FLAC").as_deref(),
        Some("flac")
    );
    assert_eq!(vkeys_track_format("https://x/stream", "", "").as_deref(), Some("mp3"));
}

#[test]
fn artists_and_ids() {
    assert_eq!(netease_artists(&["A".to_string(), " ".to_string(), "B".to_string()]), "A / B");
    assert_eq!(netease_artists(&[]), "未知歌手");
    assert!(is_netease_numeric_id(" 449818741 "));
    assert!(!is_netease_numeric_id("12a"));
    assert!(!is_netease_numeric_id(""));
}

#[test]
fn vkeys_status_codes() {
    let ok: VkeysResponse<()> = VkeysResponse { code: 200, message: String::new(), data: None };
    assert!(ok.ensure_success("搜索").is_ok());
    let bad: VkeysResponse<()> = VkeysResponse { code: 500, message: "boom".to_string(), data: None };
    assert_eq!(bad.ensure_success("搜索").unwrap_err().message(), "搜索失败：boom");
}

#[test]
fn parses_netease_collection_urls() {
    assert_eq!(
        parse_netease_collection_id("https://music.163.com/#/playlist?id=123456"),
        Some(NeteaseCollectionId {
            kind: NeteaseCollectionKind::Playlist,
            id: "123456".to_string(),
        })
    );
    assert_eq!(
        parse_netease_collection_id("https://music.163.com/#/album?id=654321"),
        Some(NeteaseCollectionId {
            kind: NeteaseCollectionKind::Album,
            id: "654321".to_string(),
        })
    );
    assert_eq!(
        parse_netease_collection_id("https://music.163.com/#/song?id=449818741"),
        None
    );
}

#[test]
fn parses_netease_prefixed_collections_and_track_ids() {
    assert_eq!(
        parse_netease_collection_id(" album: 42 "),
        Some(NeteaseCollectionId { kind: NeteaseCollectionKind::Album, id: "42".to_string() })
    );
    assert_eq!(
        parse_netease_collection_id("playlist:7"),
        Some(NeteaseCollectionId { kind: NeteaseCollectionKind::Playlist, id: "7".to_string() })
    );
    assert_eq!(parse_netease_collection_id("album:x"), None);
    assert_eq!(
        parse_netease_collection_id("https://y.music.163.com/m/playlist?id=99"),
        Some(NeteaseCollectionId { kind: NeteaseCollectionKind::Playlist, id: "99".to_string() })
    );
    assert_eq!(parse_netease_collection_id("https://example.com/playlist?id=99"), None);
    assert_eq!(parse_netease_id(" 449818741 ").as_deref(), Some("449818741"));
    assert_eq!(parse_netease_id("https://music.163.com/#/song?id=449818741").as_deref(), Some("449818741"));
    assert_eq!(parse_netease_id("https://music.163.com/song?id=abc"), None);
    assert_eq!(query_id("a=1&id=%2012&id=3").as_deref(), Some(" 12"));
    assert_eq!(query_id("id=x1"), None);
}
