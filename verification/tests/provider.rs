use bot_rs::provider::{
    build_legacy_query, build_legacy_query_with_default, build_query, build_query_with_platform,
    MusicPlatform, MusicTrack,
};

#[test]
fn parses_platform_prefix() {
    let args = vec!["qq".to_string(), "晴天".to_string()];
    let query = build_legacy_query(&args).unwrap();
    assert_eq!(query.platform, MusicPlatform::Tencent);
    assert_eq!(query.keyword, "晴天");
}

#[test]
fn parses_netease_alias() {
    let args = vec!["网易云".to_string(), "稻香".to_string()];
    let query = build_legacy_query(&args).unwrap();
    assert_eq!(query.platform, MusicPlatform::Netease);
    assert_eq!(query.keyword, "稻香");
}

#[test]
fn parses_added_provider_aliases() {
    let kugou = build_query("kugou", &["晴天".to_string()]).unwrap();
    assert_eq!(kugou.platform, MusicPlatform::Kugou);
    let bili = build_query("bilibili", &["晴天".to_string()]).unwrap();
    assert_eq!(bili.platform, MusicPlatform::Bilibili);
    let soda = build_query("汽水", &["晴天".to_string()]).unwrap();
    assert_eq!(soda.platform, MusicPlatform::Soda);
    let apple = build_query("applemusic", &["晴天".to_string()]).unwrap();
    assert_eq!(apple.platform, MusicPlatform::AppleMusic);
}

#[test]
fn platform_names_and_codes() {
    assert_eq!(MusicPlatform::Kugou.id(), "kugou");
    assert_eq!(MusicPlatform::Netease.label(), "网易云音乐");
    assert_eq!(MusicPlatform::from_alias("  QQMusic "), Some(MusicPlatform::Tencent));
    assert_eq!(MusicPlatform::from_alias("spotify"), None);
    assert_eq!(MusicPlatform::Soda.callback_code(), "s");
    assert_eq!(MusicPlatform::from_callback_code("b"), Some(MusicPlatform::Bilibili));
    assert_eq!(MusicPlatform::from_callback_code("x"), None);
    assert_eq!(MusicPlatform::from_stored_default("??"), MusicPlatform::Tencent);
}

#[test]
fn queries_need_a_keyword_and_a_known_platform() {
    assert!(build_query("spotify", &["a".to_string()]).is_err());
    assert!(build_query_with_platform(MusicPlatform::Soda, &[]).is_err());
    let q = build_legacy_query_with_default(MusicPlatform::Kugou, &["晴天".to_string(), "周杰伦".to_string()])
        .unwrap();
    assert_eq!(q.platform, MusicPlatform::Kugou);
    assert_eq!(q.keyword, "晴天 周杰伦");
}

#[test]
fn track_file_names() {
    let track = MusicTrack {
        id: "1624001324".to_string(),
        platform: MusicPlatform::AppleMusic,
        song: "稻香".to_string(),
        singer: "周杰伦".to_string(),
        album: "魔杰座".to_string(),
        cover: String::new(),
        link: "https://music.apple.com/song/1624001324".to_string(),
        url: "applemusic-wrapper://127.0.0.1/1624001324".to_string(),
        headers: Default::default(),
        duration: Some(223),
        bitrate: None,
        format: None,
    };
    assert_eq!(track.file_extension(), "m4a");
    assert_eq!(track.file_name(), "稻香 - 周杰伦.m4a");
}

#[test]
fn platform_aliases_normalise_and_ids_read_back() {
    let all = [
        MusicPlatform::AppleMusic,
        MusicPlatform::Bilibili,
        MusicPlatform::Kugou,
        MusicPlatform::Netease,
        MusicPlatform::Soda,
        MusicPlatform::Tencent,
    ];
    for p in all {
        assert_eq!(MusicPlatform::from_alias(p.id()), Some(p));
        assert_eq!(MusicPlatform::from_alias(&p.to_string()), Some(p));
    }
    assert_eq!(MusicPlatform::from_alias("  QQ "), Some(MusicPlatform::Tencent));
    assert_eq!(MusicPlatform::from_alias("  QQ "), MusicPlatform::from_alias("qq"));
    assert_eq!(MusicPlatform::from_alias(" nope "), None);
}
