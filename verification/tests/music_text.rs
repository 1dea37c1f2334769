use bot_rs::callback::MusicLyricScript;
use bot_rs::music_text::{
    append_inline_lyric_block, build_inline_lyric_html, build_lrc_content, build_lyric_caption,
    convert_lyric_script, estimate_bitrate, html_escape, inline_lyric_text,
    inline_pending_result_id, is_direct_track_lookup, is_inline_result_token,
    lyric_format_display_name, lyric_preview_text, parse_inline_lyric_query,
    parse_inline_music_query, parse_inline_pending_result_id, parse_optional_platform,
    platform_tag, sanitize_file_name, strip_lrc_timestamps, trim_file_extension, truncate_chars,
    truncate_inline_text, truncate_utf8_bytes,
};
use bot_rs::provider::{MusicPlatform, MusicTrack};
use bot_rs::settings::UserMusicSettings;

#[test]
fn lyric_document_caption_matches_upstream_shape() {
    let content = "[00:01.20]稻香\n[00:03.45]对这个世界如果你有太多的抱怨";
    assert_eq!(
        lyric_preview_text(content),
        "稻香\n对这个世界如果你有太多的抱怨"
    );
    assert_eq!(
        build_lyric_caption(content, "lrc", MusicLyricScript::Simplified),
        "当前歌词格式: LRC\n当前歌词文字: 简体\n<blockquote expandable>稻香\n对这个世界如果你有太多的抱怨</blockquote>"
    );
}

#[test]
fn converts_lyrics_between_simplified_and_traditional() {
    assert_eq!(
        convert_lyric_script("开放中文转换", MusicLyricScript::Traditional),
        "開放中文轉換"
    );
    assert_eq!(
        convert_lyric_script("開放中文轉換", MusicLyricScript::Simplified),
        "开放中文转换"
    );
}

#[test]
fn lyric_file_name_is_sanitized() {
    assert_eq!(
        sanitize_file_name("周杰伦/稻香:Live?.lrc"),
        "周杰伦 稻香 Live .lrc"
    );
    assert_eq!(sanitize_file_name("   "), "file.lrc");
}

#[test]
fn inline_pending_result_id_describes_chosen_action() {
    let result_id = inline_pending_result_id(MusicPlatform::AppleMusic, "1624001324", "high")
        .expect("short inline result id");
    assert_eq!(result_id, "p|a|1624001324|high");
    assert_eq!(
        parse_inline_pending_result_id(&result_id),
        Some((
            MusicPlatform::AppleMusic,
            "1624001324".to_string(),
            "high".to_string()
        ))
    );
    assert!(inline_pending_result_id(MusicPlatform::Soda, "bad|id", "high").is_none());
}

#[test]
fn pending_result_ids_reject_malformed_input() {
    assert_eq!(parse_inline_pending_result_id("p|a|1|high|x"), None);
    assert_eq!(parse_inline_pending_result_id("q|a|1|high"), None);
    assert_eq!(parse_inline_pending_result_id("p|z|1|high"), None);
    assert_eq!(parse_inline_pending_result_id("p|a|1"), None);
    assert_eq!(parse_inline_pending_result_id("p|a| |high"), None);
    let long = "9".repeat(70);
    assert!(inline_pending_result_id(MusicPlatform::Soda, &long, "high").is_none());
    assert!(is_inline_result_token("abc"));
    assert!(!is_inline_result_token("a b"));
    assert!(!is_inline_result_token("  "));
}

#[test]
fn inline_query_suffix_can_override_platform_and_quality() {
    let settings = UserMusicSettings::defaults_for(42);
    let (keyword, platform, quality) = parse_inline_music_query("稻香 qq lossless", &settings);
    assert_eq!(keyword, "稻香");
    assert_eq!(platform, MusicPlatform::Tencent);
    assert_eq!(quality, "lossless");

    let (keyword, platform, quality) = parse_inline_music_query("晴天", &settings);
    assert_eq!(keyword, "晴天");
    assert_eq!(platform, MusicPlatform::Soda);
    assert_eq!(quality, "lossless");
}

#[test]
fn inline_query_reads_at_most_two_suffix_words() {
    let settings = UserMusicSettings::defaults_for(42);
    let (keyword, platform, quality) =
        parse_inline_music_query("  a   b high netease kugou ", &settings);
    assert_eq!(keyword, "a b high");
    assert_eq!(platform, MusicPlatform::Netease);
    assert_eq!(quality, "lossless");
}

#[test]
fn inline_lyric_query_prefix_is_detected() {
    assert_eq!(parse_inline_lyric_query("歌词 稻香 qq").as_deref(), Some("稻香 qq"));
    assert_eq!(parse_inline_lyric_query("lyric 稻香").as_deref(), Some("稻香"));
    assert_eq!(parse_inline_lyric_query("稻香"), None);
    assert_eq!(parse_inline_lyric_query("lyrics   "), None);
}

#[test]
fn inline_lyric_text_is_truncated_to_telegram_limit() {
    let long = "好".repeat(5000);
    let truncated = truncate_inline_text(&long);
    assert_eq!(truncated.chars().count(), 4096);
    assert!(truncated.ends_with('…'));
}

#[test]
fn inline_lyric_text_converts_script() {
    assert_eq!(
        inline_lyric_text("歌", "人", "开放中文转换", "", MusicLyricScript::Traditional),
        "<b>歌 - 人</b>\n当前歌词文字: 繁体\n<blockquote expandable>開放中文轉換</blockquote>"
    );
}

#[test]
fn html_and_tags() {
    assert_eq!(html_escape("<a href=\"x\">&</a>"), "&lt;a href=&quot;x&quot;&gt;&amp;&lt;/a&gt;");
    assert_eq!(platform_tag(MusicPlatform::Tencent), "QQMusic");
    assert_eq!(lyric_format_display_name("ttml"), "TTML 逐词");
    assert_eq!(lyric_format_display_name("weird"), "LRC");
}

#[test]
fn bitrate_estimate() {
    assert_eq!(estimate_bitrate(1_000_000, Some(8)), Some(1_000_000));
    assert_eq!(estimate_bitrate(1_000, Some(0)), None);
    assert_eq!(estimate_bitrate(1_000, None), None);
    assert_eq!(estimate_bitrate(u64::MAX, Some(1)), Some(u32::MAX));
}

#[test]
fn truncation_helpers() {
    assert_eq!(truncate_chars("abcdef", 4), "abc…");
    assert_eq!(truncate_chars("abc", 3), "abc");
    assert_eq!(truncate_utf8_bytes("稻香稻香", 7), "稻香");
    assert_eq!(truncate_utf8_bytes("ab cd", 3), "ab");
    assert_eq!(truncate_utf8_bytes("abc", 3), "abc");
    assert_eq!(trim_file_extension("song.tar.gz"), "song.tar");
    assert_eq!(trim_file_extension("song"), "song");
}

#[test]
fn lrc_content_and_timestamps() {
    assert_eq!(build_lrc_content("  a ", " b "), "a\n\nb");
    assert_eq!(build_lrc_content("", " b "), "b");
    assert_eq!(build_lrc_content(" ", ""), "暂无歌词信息\n");
    assert_eq!(strip_lrc_timestamps("  [00:01][00:02] x"), "x");
    assert_eq!(strip_lrc_timestamps("[unclosed x"), "[unclosed x");
    assert_eq!(lyric_preview_text("[00:01]\r\n\n [ar:Me]hi \r\n"), "hi");
}

#[test]
fn lyric_blocks_fit_their_limits() {
    let long = "x".repeat(5000);
    let html = build_inline_lyric_html("s", "g", &long, MusicLyricScript::Simplified);
    assert!(html.chars().count() <= 4096);
    assert!(html.starts_with("<b>s - g</b>\n当前歌词文字: 简体\n<blockquote expandable>"));
    let block = append_inline_lyric_block("base", &long, MusicLyricScript::Traditional);
    assert!(block.chars().count() <= 1024);
    assert!(block.ends_with("…</blockquote>"));
    let short = append_inline_lyric_block("base", " hi ", MusicLyricScript::Traditional);
    assert_eq!(
        short,
        "base\n当前歌词文字: 繁体\n<blockquote expandable>hi</blockquote>"
    );
}

#[test]
fn long_lyric_caption_is_cut() {
    let long = "y".repeat(2000);
    let caption = build_lyric_caption(&long, "txt", MusicLyricScript::Simplified);
    assert!(caption.starts_with("当前歌词格式: 纯文本\n"));
    assert!(caption.ends_with("…</blockquote>"));
    assert!(caption.chars().count() <= 1000);
    assert_eq!(
        build_lyric_caption(" \n ", "srt", MusicLyricScript::Simplified),
        "当前歌词格式: SRT 字幕\n当前歌词文字: 简体"
    );
}

fn track(id: &str) -> MusicTrack {
    MusicTrack {
        id: id.to_string(),
        platform: MusicPlatform::Netease,
        song: String::new(),
        singer: String::new(),
        album: String::new(),
        cover: String::new(),
        link: String::new(),
        url: String::new(),
        headers: Default::default(),
        duration: None,
        bitrate: None,
        format: None,
    }
}

#[test]
fn direct_lookup_and_platform_arguments() {
    let t = track("42");
    assert!(is_direct_track_lookup("  ", &t));
    assert!(is_direct_track_lookup("42", &t));
    assert!(is_direct_track_lookup("netease:42", &t));
    assert!(is_direct_track_lookup("https://x", &t));
    assert!(!is_direct_track_lookup("netease:43", &t));
    assert_eq!(
        parse_optional_platform(Some("酷狗"), MusicPlatform::Soda).unwrap(),
        MusicPlatform::Kugou
    );
    assert_eq!(
        parse_optional_platform(None, MusicPlatform::Soda).unwrap(),
        MusicPlatform::Soda
    );
    assert_eq!(
        parse_optional_platform(Some("xyz"), MusicPlatform::Soda)
            .unwrap_err()
            .message(),
        "暂不支持音乐平台：xyz"
    );
}
