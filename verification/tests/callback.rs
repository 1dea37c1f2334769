use bot_rs::callback::{
    FavoriteScope, MusicCallbackAction, MusicFavoriteAction, MusicLyricScript, MusicSettingAction,
};
use bot_rs::provider::{MusicPlatform, MusicQuery};

#[test]
fn callback_payload_is_short() {
    let query = MusicQuery {
        platform: MusicPlatform::Tencent,
        keyword: "晴天".to_string(),
    };
    let payload = MusicCallbackAction::SearchMore(query).encode().unwrap();
    assert!(payload.len() <= 64);
}

#[test]
fn callback_payload_describes_select_action() {
    let payload = MusicCallbackAction::Select {
        platform: MusicPlatform::Tencent,
        id: "12345".to_string(),
        search_keyword: None,
    }
    .encode()
    .unwrap();
    assert_eq!(payload, "music d t 12345");
    let MusicCallbackAction::Select {
        platform,
        id,
        search_keyword,
    } = MusicCallbackAction::decode(&payload).unwrap()
    else {
        panic!("expected select action");
    };
    assert_eq!(platform, MusicPlatform::Tencent);
    assert_eq!(id, "12345");
    assert_eq!(search_keyword, None);
}

#[test]
fn select_callback_can_preserve_search_keyword() {
    let payload = MusicCallbackAction::Select {
        platform: MusicPlatform::Tencent,
        id: "12345".to_string(),
        search_keyword: Some("晴天".to_string()),
    }
    .encode()
    .unwrap();
    assert_eq!(payload, "music d t 12345 %E6%99%B4%E5%A4%A9");
    let MusicCallbackAction::Select {
        platform,
        id,
        search_keyword,
    } = MusicCallbackAction::decode(&payload).unwrap()
    else {
        panic!("expected select action");
    };
    assert_eq!(platform, MusicPlatform::Tencent);
    assert_eq!(id, "12345");
    assert_eq!(search_keyword.as_deref(), Some("晴天"));
}

#[test]
fn callback_decode_accepts_routed_payload_without_prefix() {
    let MusicCallbackAction::Select { platform, id, .. } =
        MusicCallbackAction::decode("d t 449205").unwrap()
    else {
        panic!("expected select action");
    };
    assert_eq!(platform, MusicPlatform::Tencent);
    assert_eq!(id, "449205");
}

#[test]
fn callback_decode_accepts_added_provider_codes() {
    let MusicCallbackAction::Select { platform, id, .. } =
        MusicCallbackAction::decode("d b BV1BZbSzZEGT").unwrap()
    else {
        panic!("expected bilibili select action");
    };
    assert_eq!(platform, MusicPlatform::Bilibili);
    assert_eq!(id, "BV1BZbSzZEGT");

    let MusicCallbackAction::Select { platform, id, .. } =
        MusicCallbackAction::decode("d k ABCDEF0123456789ABCDEF0123456789").unwrap()
    else {
        panic!("expected kugou select action");
    };
    assert_eq!(platform, MusicPlatform::Kugou);
    assert_eq!(id, "ABCDEF0123456789ABCDEF0123456789");

    let MusicCallbackAction::Select { platform, id, .. } =
        MusicCallbackAction::decode("d s 739105056071").unwrap()
    else {
        panic!("expected soda select action");
    };
    assert_eq!(platform, MusicPlatform::Soda);
    assert_eq!(id, "739105056071");

    let MusicCallbackAction::Select { platform, id, .. } =
        MusicCallbackAction::decode("d a 1440841363").unwrap()
    else {
        panic!("expected apple music select action");
    };
    assert_eq!(platform, MusicPlatform::AppleMusic);
    assert_eq!(id, "1440841363");
}

#[test]
fn callback_decode_accepts_setting_payload() {
    let payload =
        MusicCallbackAction::Setting(MusicSettingAction::Quality("lossless".to_string()))
            .encode()
            .unwrap();
    assert_eq!(payload, "music setting quality lossless");
    let MusicCallbackAction::Setting(MusicSettingAction::Quality(value)) =
        MusicCallbackAction::decode("setting quality lossless").unwrap()
    else {
        panic!("expected quality setting action");
    };
    assert_eq!(value, "lossless");
}

#[test]
fn favorite_callbacks_are_self_describing() {
    let payload = MusicCallbackAction::Favorite(MusicFavoriteAction::Toggle {
        scope: FavoriteScope::User,
        platform: MusicPlatform::AppleMusic,
        id: "1624001324".to_string(),
        chat_id: None,
    })
    .encode()
    .unwrap();
    assert_eq!(payload, "music fav t u a 1624001324");
    let MusicCallbackAction::Favorite(MusicFavoriteAction::Toggle {
        scope,
        platform,
        id,
        chat_id,
    }) = MusicCallbackAction::decode(&payload).unwrap()
    else {
        panic!("expected favorite toggle");
    };
    assert_eq!(scope, FavoriteScope::User);
    assert_eq!(platform, MusicPlatform::AppleMusic);
    assert_eq!(id, "1624001324");
    assert_eq!(chat_id, None);

    let payload = MusicCallbackAction::Favorite(MusicFavoriteAction::Toggle {
        scope: FavoriteScope::Group,
        platform: MusicPlatform::Soda,
        id: "739105056071".to_string(),
        chat_id: Some(-100123),
    })
    .encode()
    .unwrap();
    assert_eq!(payload, "music fav t g -100123 s 739105056071");
}

#[test]
fn overlong_search_callback_is_not_rendered() {
    let query = MusicQuery {
        platform: MusicPlatform::Tencent,
        keyword: "很长很长很长很长很长很长的中文搜索词".to_string(),
    };
    assert!(MusicCallbackAction::SearchMore(query).encode().is_none());
}

#[test]
fn lyric_callback_can_describe_target_script() {
    let payload = MusicCallbackAction::Lyrics(
        MusicPlatform::AppleMusic,
        "1624001324".to_string(),
        Some(MusicLyricScript::Traditional),
    )
    .encode()
    .unwrap();
    assert_eq!(payload, "music lyric a 1624001324 t");
    let MusicCallbackAction::Lyrics(platform, id, script) =
        MusicCallbackAction::decode(&payload).unwrap()
    else {
        panic!("expected lyric action");
    };
    assert_eq!(platform, MusicPlatform::AppleMusic);
    assert_eq!(id, "1624001324");
    assert_eq!(script, Some(MusicLyricScript::Traditional));
}

#[test]
fn inline_callback_describes_send_action() {
    let callback = MusicCallbackAction::InlineSend {
        platform: MusicPlatform::Soda,
        id: "449205".to_string(),
        quality: "high".to_string(),
        requester_id: 42,
    }
    .encode()
    .unwrap();

    assert_eq!(callback, "music i s 449205 high 42");
    let MusicCallbackAction::InlineSend {
        platform,
        id,
        quality,
        requester_id,
    } = MusicCallbackAction::decode("i s 449205 high 42").unwrap()
    else {
        panic!("expected inline send action");
    };
    assert_eq!(platform, MusicPlatform::Soda);
    assert_eq!(id, "449205");
    assert_eq!(quality, "high");
    assert_eq!(requester_id, 42);
}

#[test]
fn unknown_callback_actions_are_errors() {
    assert!(MusicCallbackAction::decode("music zzz t 1").is_err());
    assert!(MusicCallbackAction::decode("music d x 1").is_err());
    let err = MusicCallbackAction::decode("music fav t q a 1").unwrap_err();
    assert_eq!(err.message(), "Unknown favorite scope");
    assert!(matches!(
        MusicCallbackAction::decode("music close").unwrap(),
        MusicCallbackAction::Close
    ));
    assert!(matches!(
        MusicFavoriteAction::decode("list g -5").unwrap(),
        MusicFavoriteAction::List {
            scope: FavoriteScope::Group,
            chat_id: Some(-5)
        }
    ));
}
