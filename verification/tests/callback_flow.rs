use bot_rs::callback::{FavoriteScope, MusicCallbackAction, MusicFavoriteAction, MusicLyricScript, MusicSettingAction};
use bot_rs::callback_flow::{
    callback_menu_query, favorite_add_answer, favorite_remove_answer, fetching_status,
    inline_send_allowed, inline_toggle_answer, lyric_script_for, needs_progress_notice,
    plan_favorite, plan_inline_favorite, route_music_callback, sent_status,
    settings_for_inline_send, CallbackRoute, FavoritePlan, InlineFavoritePlan,
};
use bot_rs::provider::{MusicPlatform, MusicQuery};
use bot_rs::settings::UserMusicSettings;

fn toggle(scope: FavoriteScope) -> MusicFavoriteAction {
    MusicFavoriteAction::Toggle {
        scope,
        platform: MusicPlatform::Netease,
        id: "42".to_owned(),
        chat_id: None,
    }
}

#[test]
fn inline_presses_are_routed_to_the_inline_message() {
    let send = MusicCallbackAction::InlineSend {
        platform: MusicPlatform::Tencent,
        id: "1".to_owned(),
        quality: "high".to_owned(),
        requester_id: 9,
    };
    assert!(matches!(route_music_callback(send.clone(), true, false), CallbackRoute::InlineSend { requester_id: 9, .. }));
    assert!(matches!(route_music_callback(send, false, true), CallbackRoute::Ignore));
    let lyrics = MusicCallbackAction::Lyrics(MusicPlatform::Kugou, "x".to_owned(), None);
    assert!(matches!(route_music_callback(lyrics.clone(), true, false), CallbackRoute::InlineLyrics { script: None, .. }));
    assert!(matches!(
        route_music_callback(lyrics, false, true),
        CallbackRoute::OnMessage { notice: false, .. }
    ));
    assert!(matches!(route_music_callback(MusicCallbackAction::Close, true, true), CallbackRoute::InlineClose));
    assert!(matches!(
        route_music_callback(MusicCallbackAction::Setting(MusicSettingAction::Cover(true)), true, false),
        CallbackRoute::InlineSetting(MusicSettingAction::Cover(true))
    ));
    assert!(matches!(
        route_music_callback(MusicCallbackAction::Favorite(toggle(FavoriteScope::User)), true, false),
        CallbackRoute::InlineFavorite(_)
    ));
    assert!(matches!(
        route_music_callback(MusicCallbackAction::Favorite(toggle(FavoriteScope::Group)), true, false),
        CallbackRoute::Ignore
    ));
}

#[test]
fn message_presses_get_a_notice_unless_quiet() {
    let select = MusicCallbackAction::Select {
        platform: MusicPlatform::Netease,
        id: "1".to_owned(),
        search_keyword: None,
    };
    assert!(needs_progress_notice(&select));
    assert!(matches!(route_music_callback(select.clone(), false, true), CallbackRoute::OnMessage { notice: true, .. }));
    assert!(matches!(route_music_callback(select, false, false), CallbackRoute::Ignore));
    let more = MusicCallbackAction::SearchMore(MusicQuery { platform: MusicPlatform::Soda, keyword: "k".to_owned() });
    assert!(needs_progress_notice(&more));
    assert!(!needs_progress_notice(&MusicCallbackAction::Close));
    assert!(!needs_progress_notice(&MusicCallbackAction::Favorite(MusicFavoriteAction::Close)));
}

#[test]
fn favorite_presses_are_planned_per_scope() {
    match plan_favorite(toggle(FavoriteScope::Group), 7, -100, false) {
        FavoritePlan::Alert(text) => assert_eq!(text, "群收藏只能在群聊消息中使用"),
        other => panic!("unexpected plan {other:?}"),
    }
    match plan_favorite(toggle(FavoriteScope::Group), 7, -100, true) {
        FavoritePlan::AddIfAbsent { scope_id, .. } => assert_eq!(scope_id, -100),
        other => panic!("unexpected plan {other:?}"),
    }
    let remove = MusicFavoriteAction::Remove {
        scope: FavoriteScope::Group,
        platform: MusicPlatform::Netease,
        id: "42".to_owned(),
        chat_id: Some(-5),
    };
    match plan_favorite(remove, 7, -100, true) {
        FavoritePlan::Remove { scope_id, id, .. } => {
            assert_eq!(scope_id, -5);
            assert_eq!(id, "42");
        }
        other => panic!("unexpected plan {other:?}"),
    }
    match plan_favorite(MusicFavoriteAction::List { scope: FavoriteScope::User, chat_id: Some(-5) }, 7, -100, true) {
        FavoritePlan::List { scope_id, .. } => assert_eq!(scope_id, 7),
        other => panic!("unexpected plan {other:?}"),
    }
    assert!(matches!(plan_favorite(MusicFavoriteAction::Close, 7, 1, true), FavoritePlan::Close));
    assert_eq!(favorite_add_answer(true, FavoriteScope::User), "已收藏，可在收藏列表中取消");
    assert_eq!(favorite_add_answer(false, FavoriteScope::Group), "已加入群收藏");
    assert_eq!(favorite_remove_answer(false), "收藏不存在");
    assert_eq!(favorite_remove_answer(true), "已取消收藏");
}

#[test]
fn inline_favorites_only_take_personal_toggles() {
    assert!(matches!(plan_inline_favorite(toggle(FavoriteScope::User), 3), InlineFavoritePlan::Toggle { scope_id: 3, .. }));
    assert!(matches!(plan_inline_favorite(toggle(FavoriteScope::Group), 3), InlineFavoritePlan::Unsupported));
    assert_eq!(inline_toggle_answer(true), "已取消收藏");
    assert_eq!(inline_toggle_answer(false), "已加入个人收藏");
    assert!(inline_send_allowed(0, 5));
    assert!(inline_send_allowed(5, 5));
    assert!(!inline_send_allowed(4, 5));
}

#[test]
fn selected_track_texts_and_menu_query() {
    let q = callback_menu_query(MusicPlatform::Netease, "42", Some("  hello "));
    assert_eq!(q.keyword, "hello");
    assert_eq!(callback_menu_query(MusicPlatform::Netease, "42", Some("  ")).keyword, "42");
    assert_eq!(callback_menu_query(MusicPlatform::Netease, "42", None).keyword, "42");
    assert_eq!(fetching_status(MusicPlatform::Netease), "正在从网易云音乐获取音乐...");
    assert_eq!(sent_status(true, "Song", "Singer"), "已从缓存发送：Song - Singer");
    assert_eq!(sent_status(false, "Song", "Singer"), "已发送：Song - Singer");
    assert_eq!(lyric_script_for(None, " traditional "), MusicLyricScript::Traditional);
    assert_eq!(lyric_script_for(Some(MusicLyricScript::Simplified), "traditional"), MusicLyricScript::Simplified);
    let settings = UserMusicSettings {
        user_id: 1,
        default_platform: "netease".to_owned(),
        quality: "standard".to_owned(),
        send_cover: true,
        lyric_script: "simplified".to_owned(),
    };
    let s = settings_for_inline_send(settings, "lossless");
    assert_eq!(s.quality, "lossless");
    assert!(s.send_cover);
}
