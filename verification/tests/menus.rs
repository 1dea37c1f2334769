use bot_rs::callback::{FavoriteScope, MusicCallbackAction, MusicLyricScript};
use bot_rs::menus::{
    favorite_confirm_menu, favorite_list_menu, favorite_list_text, favorite_scope_id,
    inline_lyric_switch_menu, inline_music_settings_menu, inline_track_lyric_menu,
    inline_track_menu, lyric_switch_menu, music_settings_menu, search_menu,
    track_menu_for_context, ButtonKind, FavoriteEntry, MenuButton,
};
use bot_rs::provider::{MusicPlatform, MusicQuery, MusicSearchItem, MusicTrack};
use bot_rs::settings::UserMusicSettings;

fn track(cover: &str) -> MusicTrack {
    MusicTrack {
        id: "1624001324".to_string(),
        platform: MusicPlatform::AppleMusic,
        song: "稻香".to_string(),
        singer: "周杰伦".to_string(),
        album: "魔杰座".to_string(),
        cover: cover.to_string(),
        link: "https://music.apple.com/song/1624001324".to_string(),
        url: "applemusic-wrapper://127.0.0.1/1624001324".to_string(),
        headers: Default::default(),
        duration: Some(223),
        bitrate: None,
        format: Some("m4a".to_string()),
    }
}

fn callback(button: &MenuButton) -> &str {
    match &button.kind {
        ButtonKind::Callback(data) => data.as_str(),
        _ => panic!("expected callback button"),
    }
}

fn texts(row: &[MenuButton]) -> Vec<&str> {
    row.iter().map(|b| b.text.as_str()).collect()
}

#[test]
fn apple_wrapper_track_uses_m4a_file_name() {
    assert_eq!(track("").file_name(), "稻香 - 周杰伦.m4a");
}

#[test]
fn search_more_falls_back_to_song_for_direct_id_query() {
    let query = MusicQuery {
        platform: MusicPlatform::AppleMusic,
        keyword: "1624001324".to_string(),
    };
    let markup = track_menu_for_context(&track(""), Some(&query), false, 0).unwrap();
    let data = markup[0]
        .iter()
        .find_map(|button| match &button.kind {
            ButtonKind::Callback(data) if button.text == "搜索更多" => Some(data.as_str()),
            _ => None,
        })
        .unwrap();
    let MusicCallbackAction::SearchMore(query) = MusicCallbackAction::decode(data).unwrap() else {
        panic!("expected search more action");
    };
    assert_eq!(query.keyword, "稻香");
}

#[test]
fn track_menu_renders_music_bottom_buttons() {
    let markup =
        track_menu_for_context(&track("https://example.com/cover.jpg"), None, true, -100123)
            .unwrap();
    assert_eq!(markup.len(), 2);
    assert_eq!(markup[0][0].text, "获取封面");
    assert_eq!(markup[0][1].text, "搜索更多");
    assert_eq!(texts(&markup[1]), vec!["歌词", "收藏", "群收藏"]);
    assert_eq!(callback(&markup[1][0]), "music lyric a 1624001324");
}

#[test]
fn track_menu_keeps_an_indirect_query() {
    let query = MusicQuery { platform: MusicPlatform::Netease, keyword: "晴天".to_string() };
    let markup = track_menu_for_context(&track(""), Some(&query), false, 0).unwrap();
    assert_eq!(texts(&markup[0]), vec!["搜索更多"]);
    let MusicCallbackAction::SearchMore(q) = MusicCallbackAction::decode(callback(&markup[0][0])).unwrap()
    else {
        panic!("expected search more action");
    };
    assert_eq!(q.platform, MusicPlatform::Netease);
    assert_eq!(q.keyword, "晴天");
    assert_eq!(texts(&markup[1]), vec!["歌词", "收藏"]);
}

#[test]
fn inline_track_menu_has_usable_music_buttons() {
    let markup = inline_track_menu(&track("https://example.com/cover.jpg")).unwrap();
    assert_eq!(markup.len(), 2);
    assert_eq!(markup[0][0].text, "获取封面");
    assert_eq!(
        markup[0][0].kind,
        ButtonKind::Url("https://example.com/cover.jpg".to_string())
    );
    assert_eq!(markup[0][1].text, "搜索更多");
    assert_eq!(
        markup[0][1].kind,
        ButtonKind::SwitchInlineCurrentChat("稻香 applemusic".to_string())
    );
    assert_eq!(markup[1][0].text, "歌词");
    assert_eq!(callback(&markup[1][0]), "music lyric a 1624001324");
    assert_eq!(markup[1][1].text, "收藏");
}

#[test]
fn inline_track_lyric_menu_switches_script() {
    let markup = inline_track_lyric_menu(&track("not a url"), MusicLyricScript::Simplified).unwrap();
    assert_eq!(texts(&markup[0]), vec!["搜索更多"]);
    assert_eq!(markup[1][0].text, "切换繁体");
    assert_eq!(callback(&markup[1][0]), "music lyric a 1624001324 t");
}

#[test]
fn empty_track_has_no_menu() {
    let mut t = track("");
    t.id = " ".to_string();
    t.song = String::new();
    assert!(inline_track_menu(&t).is_none());
}

#[test]
fn lyric_switch_menus_point_to_the_other_script() {
    let menu = lyric_switch_menu(MusicPlatform::AppleMusic, "1624001324", MusicLyricScript::Traditional);
    assert_eq!(menu.len(), 1);
    assert_eq!(menu[0][0].text, "切换简体");
    assert_eq!(callback(&menu[0][0]), "music lyric a 1624001324 s");
    let menu =
        inline_lyric_switch_menu(MusicPlatform::AppleMusic, "1624001324", MusicLyricScript::Simplified);
    assert_eq!(menu[0][0].text, "切换繁体");
    assert_eq!(callback(&menu[0][0]), "music ilyric a 1624001324 t");
}

#[test]
fn settings_menu_marks_current_choices() {
    let settings = UserMusicSettings {
        user_id: 1,
        default_platform: "netease".to_string(),
        quality: "hires".to_string(),
        send_cover: true,
        lyric_script: "traditional".to_string(),
    };
    let menu = music_settings_menu(&settings);
    assert_eq!(menu.len(), 5);
    assert_eq!(texts(&menu[0]), vec!["汽水", "QQ音乐", "✅ 网易云"]);
    assert_eq!(texts(&menu[1]), vec!["酷狗", "Bilibili", "Apple Music"]);
    assert_eq!(texts(&menu[2]), vec!["标准", "高品质", "无损", "✅ Hi-Res"]);
    assert_eq!(texts(&menu[3]), vec!["发送封面 ✅"]);
    assert_eq!(callback(&menu[3][0]), "music setting cover off");
    assert_eq!(texts(&menu[4]), vec!["简体", "✅ 繁体"]);
    assert_eq!(callback(&menu[0][2]), "music setting platform netease");
    let inline = inline_music_settings_menu(&settings);
    assert_eq!(inline.len(), 6);
    assert_eq!(inline[5][0].text, "关闭");
    assert_eq!(callback(&inline[5][0]), "music close");
}

fn entry(platform: &str, id: &str, album: &str, link: &str) -> FavoriteEntry {
    FavoriteEntry {
        platform: platform.to_string(),
        track_id: id.to_string(),
        song: "A&B".to_string(),
        singer: "<S>".to_string(),
        album: album.to_string(),
        link: link.to_string(),
    }
}

#[test]
fn favorite_list_text_numbers_entries() {
    assert_eq!(favorite_list_text(FavoriteScope::User, &[]), "个人收藏为空");
    let favs = vec![
        entry("soda", "1", "", ""),
        entry("qq", "2", "专辑", "https://x/?a=1&b=2"),
    ];
    assert_eq!(
        favorite_list_text(FavoriteScope::Group, &favs),
        "<b>群收藏</b>\n1. A&amp;B - &lt;S&gt;\n2. <a href=\"https://x/?a=1&amp;b=2\">A&amp;B</a> - &lt;S&gt; · 专辑\n"
    );
}

#[test]
fn favorite_list_menu_sends_and_removes() {
    let favs = vec![entry("soda", "739105056071", "", ""), entry("nowhere", "2", "", "")];
    let menu = favorite_list_menu(FavoriteScope::Group, -100, &favs);
    assert_eq!(menu.len(), 2);
    assert_eq!(texts(&menu[0]), vec!["发送 1", "取消 1"]);
    assert_eq!(texts(&menu[1]), vec!["关闭"]);
    assert_eq!(callback(&menu[1][0]), "music fav close");
    let MusicCallbackAction::Select { platform, id, search_keyword } =
        MusicCallbackAction::decode(callback(&menu[0][0])).unwrap()
    else {
        panic!("expected select action");
    };
    assert_eq!(platform, MusicPlatform::Soda);
    assert_eq!(id, "739105056071");
    assert_eq!(search_keyword, None);
}

#[test]
fn favorite_confirm_menu_has_confirm_and_back() {
    let menu = favorite_confirm_menu(FavoriteScope::User, 5, MusicPlatform::Tencent, "abc");
    assert_eq!(menu.len(), 1);
    assert_eq!(texts(&menu[0]), vec!["确认取消", "返回列表"]);
    assert_eq!(callback(&menu[0][1]), "music fav list u");
}

#[test]
fn favorite_scope_needs_a_group_for_group_favorites() {
    assert_eq!(favorite_scope_id(FavoriteScope::User, false, -1, 7).unwrap(), 7);
    assert_eq!(favorite_scope_id(FavoriteScope::Group, true, -1, 7).unwrap(), -1);
    assert_eq!(
        favorite_scope_id(FavoriteScope::Group, false, -1, 7).unwrap_err().message(),
        "群收藏只能在群聊里使用"
    );
}

#[test]
fn search_menu_lists_results() {
    let items = vec![MusicSearchItem {
        platform: MusicPlatform::Netease,
        id: "186016".to_string(),
        song: "晴天".to_string(),
        singer: "周杰伦".to_string(),
    }];
    let menu = search_menu(items, Some("晴天"));
    assert_eq!(menu.len(), 1);
    assert_eq!(menu[0][0].text, "[网易云音乐] 晴天 | 周杰伦");
    let MusicCallbackAction::Select { platform, id, search_keyword } =
        MusicCallbackAction::decode(callback(&menu[0][0])).unwrap()
    else {
        panic!("expected select action");
    };
    assert_eq!(platform, MusicPlatform::Netease);
    assert_eq!(id, "186016");
    assert_eq!(search_keyword, Some("晴天".to_string()));
}
