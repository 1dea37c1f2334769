use bot_rs::callback::MusicSettingAction;
use bot_rs::provider::MusicPlatform;
use bot_rs::settings::{
    apply_music_setting, default_lyric_script, default_platform, default_quality, default_true,
    lyric_script_label, music_cache_quality, music_settings_text, normalize_settings,
    platform_label, quality_label, selected_label, settings_platform, UserMusicSettings,
};

#[test]
fn defaults_use_soda_and_lossless_quality() {
    let settings = UserMusicSettings::defaults_for(1);

    assert_eq!(settings.default_platform, "soda");
    assert_eq!(settings.quality, "lossless");
    assert_eq!(settings.lyric_script, "simplified");
}

#[test]
fn default_values() {
    assert_eq!(default_platform(), "soda");
    assert_eq!(default_quality(), "lossless");
    assert_eq!(default_lyric_script(), "simplified");
    assert!(default_true());
    assert!(UserMusicSettings::defaults_for(7).send_cover);
}

fn stored(platform: &str, quality: &str, script: &str) -> UserMusicSettings {
    UserMusicSettings {
        user_id: 3,
        default_platform: platform.to_string(),
        quality: quality.to_string(),
        send_cover: false,
        lyric_script: script.to_string(),
    }
}

#[test]
fn normalize_fills_blank_and_unknown_values() {
    let n = normalize_settings(stored("  ", "", "klingon"));
    assert_eq!(n.default_platform, "soda");
    assert_eq!(n.quality, "lossless");
    assert_eq!(n.lyric_script, "simplified");
    assert!(!n.send_cover);
    let kept = normalize_settings(stored("qq", "high", " traditional "));
    assert_eq!(kept.default_platform, "qq");
    assert_eq!(kept.quality, "high");
    assert_eq!(kept.lyric_script, " traditional ");
    assert_eq!(normalize_settings(kept.clone()), kept);
    assert_eq!(normalize_settings(n.clone()), n);
}

#[test]
fn labels_fall_back_to_defaults() {
    assert_eq!(platform_label("kugou"), "酷狗");
    assert_eq!(platform_label("nope"), "QQ音乐");
    assert_eq!(quality_label("hires"), "Hi-Res");
    assert_eq!(quality_label("x"), "无损");
    assert_eq!(lyric_script_label("traditional"), "繁体");
    assert_eq!(lyric_script_label(""), "简体");
    assert_eq!(selected_label("无损", true), "✅ 无损");
    assert_eq!(selected_label("无损", false), "无损");
}

#[test]
fn settings_text_lists_every_setting() {
    let settings = UserMusicSettings::defaults_for(1);
    assert_eq!(
        music_settings_text(&settings),
        "音乐设置\n\n🎵 默认平台: 汽水\n🎧 默认音质: 无损\n🖼️ 发送封面: 开启\n📝 歌词文字: 简体\n\n点击下方按钮修改设置"
    );
    assert_eq!(settings_platform(&settings), MusicPlatform::Soda);
    assert_eq!(settings_platform(&stored("??", "", "")), MusicPlatform::Tencent);
}

#[test]
fn cache_quality_is_lowercase_or_lossless() {
    assert_eq!(music_cache_quality(&stored("", " HiRes ", "")), "hires");
    assert_eq!(music_cache_quality(&stored("", "  ", "")), "lossless");
}

#[test]
fn applying_a_setting_twice_changes_nothing_the_second_time() {
    let mut settings = UserMusicSettings::defaults_for(5);
    let first = apply_music_setting(
        &mut settings,
        MusicSettingAction::Platform("netease".to_string()),
    );
    assert_eq!(first, Ok((true, "已切换到 网易云".to_string())));
    let second = apply_music_setting(
        &mut settings,
        MusicSettingAction::Platform("netease".to_string()),
    );
    assert_eq!(second, Ok((false, "已切换到 网易云".to_string())));
    assert_eq!(settings.default_platform, "netease");

    let refused = apply_music_setting(&mut settings, MusicSettingAction::Quality("8bit".to_string()));
    assert_eq!(refused, Err("不支持这个音质"));
    assert_eq!(settings.quality, "lossless");

    assert_eq!(
        apply_music_setting(&mut settings, MusicSettingAction::Cover(false)),
        Ok((true, "已关闭发送封面".to_string()))
    );
    assert_eq!(
        apply_music_setting(
            &mut settings,
            MusicSettingAction::LyricScript("traditional".to_string())
        ),
        Ok((true, "歌词文字已设置为 繁体".to_string()))
    );
    assert_eq!(
        apply_music_setting(&mut settings, MusicSettingAction::Platform("spotify".to_string())),
        Err("不支持这个音乐平台")
    );
    assert_eq!(
        apply_music_setting(&mut settings, MusicSettingAction::LyricScript("x".to_string())),
        Err("不支持这个歌词文字设置")
    );
}
