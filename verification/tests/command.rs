use bot_rs::callback::FavoriteScope;
use bot_rs::command::{MusicAction, MusicCmd, MusicSubcommand};
use bot_rs::provider::MusicPlatform;
use bot_rs::settings::UserMusicSettings;

fn test_settings(default_platform: &str) -> UserMusicSettings {
    UserMusicSettings {
        user_id: 1,
        default_platform: default_platform.to_string(),
        quality: "lossless".to_string(),
        send_cover: true,
        lyric_script: "simplified".to_string(),
    }
}

fn words(v: &[&str]) -> Vec<String> {
    v.iter().map(|s| s.to_string()).collect()
}

// `/music get -p qqmusic 夜曲`
#[test]
fn parses_platform_flag() {
    let cmd = MusicCmd {
        command: Some(MusicSubcommand::Get {
            platform: Some("qqmusic".to_string()),
            query: words(&["夜曲"]),
        }),
        query: vec![],
    };
    let MusicAction::Get(query) = MusicAction::from_cmd(cmd, &test_settings("tencent")).unwrap()
    else {
        panic!("expected get action");
    };
    assert_eq!(query.platform, MusicPlatform::Tencent);
    assert_eq!(query.keyword, "夜曲");
}

// `/music search --platform netease 稻香`
#[test]
fn parses_search_subcommand() {
    let cmd = MusicCmd {
        command: Some(MusicSubcommand::Search {
            platform: Some("netease".to_string()),
            query: words(&["稻香"]),
        }),
        query: vec![],
    };
    let MusicAction::Search(query) =
        MusicAction::from_cmd(cmd, &test_settings("tencent")).unwrap()
    else {
        panic!("expected search action");
    };
    assert_eq!(query.platform, MusicPlatform::Netease);
    assert_eq!(query.keyword, "稻香");
}

// `/music search 稻香`
#[test]
fn omitted_subcommand_platform_uses_user_default() {
    let cmd = MusicCmd {
        command: Some(MusicSubcommand::Search { platform: None, query: words(&["稻香"]) }),
        query: vec![],
    };
    let MusicAction::Search(query) =
        MusicAction::from_cmd(cmd, &test_settings("netease")).unwrap()
    else {
        panic!("expected search action");
    };
    assert_eq!(query.platform, MusicPlatform::Netease);
    assert_eq!(query.keyword, "稻香");
}

// `/music setting`
#[test]
fn parses_setting_subcommand() {
    let cmd = MusicCmd { command: Some(MusicSubcommand::Setting), query: vec![] };
    let MusicAction::Setting = MusicAction::from_cmd(cmd, &test_settings("tencent")).unwrap() else {
        panic!("expected setting action");
    };
}

// `/music favorite` and `/music fav group`
#[test]
fn parses_favorite_subcommand() {
    let cmd = MusicCmd {
        command: Some(MusicSubcommand::Favorite { scope: FavoriteScope::User }),
        query: vec![],
    };
    let MusicAction::Favorite(scope) =
        MusicAction::from_cmd(cmd, &test_settings("tencent")).unwrap()
    else {
        panic!("expected favorite action");
    };
    assert_eq!(scope, FavoriteScope::User);

    let cmd = MusicCmd {
        command: Some(MusicSubcommand::Favorite { scope: FavoriteScope::Group }),
        query: vec![],
    };
    let MusicAction::Favorite(scope) =
        MusicAction::from_cmd(cmd, &test_settings("tencent")).unwrap()
    else {
        panic!("expected favorite action");
    };
    assert_eq!(scope, FavoriteScope::Group);
}

#[test]
fn legacy_form_reads_platform_word() {
    let cmd = MusicCmd { command: None, query: words(&["#163", "稻香"]) };
    let MusicAction::Get(query) = MusicAction::from_cmd(cmd, &test_settings("tencent")).unwrap()
    else {
        panic!("expected get action");
    };
    assert_eq!(query.platform, MusicPlatform::Netease);
    assert_eq!(query.keyword, "稻香");

    let cmd = MusicCmd { command: None, query: words(&["晴天"]) };
    let MusicAction::Get(query) = MusicAction::from_cmd(cmd, &test_settings("kugou")).unwrap()
    else {
        panic!("expected get action");
    };
    assert_eq!(query.platform, MusicPlatform::Kugou);
}

#[test]
fn unknown_platform_and_blank_query_are_errors() {
    let cmd = MusicCmd {
        command: Some(MusicSubcommand::Collection {
            platform: Some("nowhere".to_string()),
            query: words(&["x"]),
        }),
        query: vec![],
    };
    let err = MusicAction::from_cmd(cmd, &test_settings("tencent")).unwrap_err();
    assert_eq!(err.message(), "暂不支持音乐平台：nowhere");
    let cmd = MusicCmd {
        command: Some(MusicSubcommand::Get { platform: None, query: words(&["  "]) }),
        query: vec![],
    };
    let err = MusicAction::from_cmd(cmd, &test_settings("tencent")).unwrap_err();
    assert_eq!(err.message(), "请输入歌曲名、链接或 ID，例如：/music qq 晴天");
}
