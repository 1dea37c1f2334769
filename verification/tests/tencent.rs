use bot_rs::tencent::{
    build_stream_url, build_track_cover_url, build_track_url, build_vkey_filenames,
    first_non_empty, is_tencent_song_mid, normalize_qq_uin, parse_cookie_value, parse_qq_auth,
    resolve_vkey_url, singers_to_string, parse_qq_track_id,
};

#[test]
fn builds_vkey_filenames_without_duplicates() {
    let names = build_vkey_filenames("songmid", "songmid", "M800", "mp3");
    assert_eq!(names, vec!["M800songmid.mp3", "M800songmidsongmid.mp3"]);
}

#[test]
fn vkey_filenames_drop_repeats() {
    let names = build_vkey_filenames("", "", "", "");
    assert_eq!(names, vec!["."]);
}

#[test]
fn stream_and_page_addresses() {
    assert_eq!(resolve_vkey_url(" a ", "w", "k").as_deref(), Some("a"));
    assert_eq!(resolve_vkey_url("a", " w ", " ").as_deref(), Some("w"));
    assert_eq!(resolve_vkey_url("", "", "k"), None);
    assert_eq!(build_stream_url(" x.m4a "), "https://ws.stream.qqmusic.qq.com/x.m4a");
    assert_eq!(build_stream_url("https://a/b"), "https://a/b");
    assert_eq!(build_stream_url("   "), "");
    assert_eq!(build_track_url("001"), "https://y.qq.com/n/ryqq_v2/songDetail/001");
    assert_eq!(
        build_track_cover_url(" 002 "),
        "https://y.gtimg.cn/music/photo_new/T002M000002.jpg"
    );
    assert_eq!(build_track_cover_url(""), "");
}

#[test]
fn singers_and_first_values() {
    assert_eq!(singers_to_string(&[" 周杰伦 ".to_string(), "".to_string(), "费玉清".to_string()]), "周杰伦 / 费玉清");
    assert_eq!(singers_to_string(&[]), "未知歌手");
    assert_eq!(first_non_empty(&[None, Some("  "), Some(" x ")]), Some("x"));
    assert_eq!(first_non_empty(&[None]), None);
}

#[test]
fn song_mids_and_cookies() {
    assert!(is_tencent_song_mid("0039MnYb0qxYhV"));
    assert!(!is_tencent_song_mid("short"));
    assert!(!is_tencent_song_mid("0039MnYb0qx!hV"));
    assert_eq!(normalize_qq_uin(" o0012345 "), "12345");
    assert_eq!(normalize_qq_uin("abc"), "0");
    assert_eq!(normalize_qq_uin("O000"), "0");
    let cookie = "uin=o0123; qm_keyst=K2 ; other = x";
    assert_eq!(parse_cookie_value(cookie, "other"), "x");
    assert_eq!(parse_cookie_value(cookie, "missing"), "");
    assert_eq!(parse_qq_auth(cookie), ("123".to_string(), "K2".to_string()));
    assert_eq!(
        parse_qq_auth("qqmusic_key=A; qm_keyst=B; uin=9"),
        ("9".to_string(), "A".to_string())
    );
}

#[test]
fn parses_qq_song_url() {
    assert_eq!(
        parse_qq_track_id("https://y.qq.com/n/ryqq/songDetail/0039MnYb0qxYhV"),
        Some("0039MnYb0qxYhV".to_string())
    );
}

#[test]
fn parses_qq_ids_paths_and_query_values() {
    assert_eq!(parse_qq_track_id("  12345 ").as_deref(), Some("12345"));
    assert_eq!(parse_qq_track_id("0039MnYb0qxYhV").as_deref(), Some("0039MnYb0qxYhV"));
    assert_eq!(parse_qq_track_id("https://y.qq.com/song/abc/").as_deref(), Some("abc"));
    assert_eq!(parse_qq_track_id("https://i.y.qq.com/n/ryqq_v2/songDetail/XYZ").as_deref(), Some("XYZ"));
    assert_eq!(parse_qq_track_id("https://i.y.QQ.com/v8/playsong.html?songid=&songmid=M1").as_deref(), Some("M1"));
    assert_eq!(parse_qq_track_id("https://i.y.qq.com/v8/playsong.html?songmid=%20&id=77").as_deref(), Some("77"));
    assert_eq!(parse_qq_track_id("https://y.qq.com/n/ryqq/songDetail/a/b"), None);
    assert_eq!(parse_qq_track_id("https://example.com/song/abc"), None);
    assert_eq!(parse_qq_track_id("   "), None);
    assert_eq!(parse_qq_track_id("not a link"), None);
}

#[test]
fn sign_matches_known_shape() {
    let sign = bot_rs::tencent::tencent_sign(r#"{"test":1}"#, true);
    assert!(sign.starts_with("zzc"));
    assert!(sign.len() > 20);
}

#[test]
fn sign_has_its_parts() {
    assert_eq!(bot_rs::tencent::tencent_sign("", false), "");
    let full = bot_rs::tencent::tencent_sign("payload", false);
    let short = bot_rs::tencent::tencent_sign("payload", true);
    assert!(full.starts_with("zzc") && short.starts_with("zzc"));
    assert_eq!(full.len(), short.len() + 7);
    assert!(full.ends_with(&short[short.len() - 8..]));
    assert!(!full.contains('+') && !full.contains('/') && !full.contains('='));
    assert_eq!(full, full.to_ascii_lowercase());
}
