use bot_rs::apple::{
    parse_apple_track_id,
    absolute_hls_url, apple_track_url, apple_widevine_internal_url, apple_wrapper_internal_url,
    best_aac_variant, format_artwork_url, normalize_media_user_token, parse_alac_group_details,
    quality_from_str, select_variant_for_quality, should_prefer_apple_wrapper, AppleMusicQuality,
    EnhancedHlsVariant,
};

#[test]
fn extracts_media_user_token_from_cookie_string() {
    assert_eq!(
        normalize_media_user_token("foo=bar; media-user-token=token-value; baz=qux"),
        "token-value"
    );
    assert_eq!(normalize_media_user_token("token-only"), "token-only");
}

#[test]
fn parses_user_quality_values() {
    assert_eq!(quality_from_str("standard"), AppleMusicQuality::Standard);
    assert_eq!(quality_from_str("lossless"), AppleMusicQuality::Lossless);
    assert_eq!(quality_from_str("hires"), AppleMusicQuality::HiRes);
    assert_eq!(AppleMusicQuality::Lossless.as_str(), "lossless");
}

#[test]
fn apple_wrapper_route_matches_source_bot_priority() {
    assert!(should_prefer_apple_wrapper(AppleMusicQuality::Standard, true));
    assert!(should_prefer_apple_wrapper(AppleMusicQuality::Lossless, true));
    assert!(should_prefer_apple_wrapper(AppleMusicQuality::HiRes, true));
    assert!(!should_prefer_apple_wrapper(AppleMusicQuality::High, true));
    assert!(!should_prefer_apple_wrapper(AppleMusicQuality::Lossless, false));
    assert_eq!(
        apple_wrapper_internal_url("127.0.0.1", "1624001324", AppleMusicQuality::Lossless),
        "applemusic-wrapper://127.0.0.1/1624001324?quality=lossless"
    );
}

#[test]
fn addresses_and_artwork() {
    assert_eq!(
        apple_widevine_internal_url("1", AppleMusicQuality::High),
        "applemusic-widevine://1?quality=high"
    );
    assert_eq!(apple_track_url("7"), "https://music.apple.com/song/7");
    assert_eq!(
        format_artwork_url(Some("https://a/{w}x{h}bb.jpg"), 1200),
        "https://a/1200x1200bb.jpg"
    );
    assert_eq!(format_artwork_url(None, 10), "");
    assert_eq!(quality_from_str(" ALAC "), AppleMusicQuality::Lossless);
    assert_eq!(quality_from_str("whatever"), AppleMusicQuality::High);
    assert_eq!(normalize_media_user_token("   "), "");
}

#[test]
fn playlist_helpers() {
    assert_eq!(parse_alac_group_details("audio-alac-stereo-96000-24"), (96000, 24));
    assert_eq!(parse_alac_group_details("audio-stereo-256"), (0, 0));
    assert_eq!(parse_alac_group_details("alac"), (0, 0));
    assert_eq!(parse_alac_group_details("alac-x-y"), (0, 0));
    assert_eq!(
        absolute_hls_url("https://a/b/master.m3u8", "p/1.mp4"),
        "https://a/b/p/1.mp4"
    );
    assert_eq!(absolute_hls_url("x", "y"), "y");
    assert_eq!(absolute_hls_url("https://a/b", "http://c/d"), "http://c/d");
}

fn variant(codecs: &str, bw: i64, rate: i64, depth: i64, uri: &str) -> EnhancedHlsVariant {
    EnhancedHlsVariant {
        codecs: codecs.to_string(),
        audio: String::new(),
        avg_bw: bw,
        uri: uri.to_string(),
        sample_rate: rate,
        bit_depth: depth,
    }
}

#[test]
fn variants_are_chosen_by_quality() {
    let vs = vec![
        variant("mp4a.40.2", 64_000, 0, 0, "low"),
        variant("mp4a.40.2", 256_000, 0, 0, "high"),
        variant("alac", 900_000, 44_100, 16, "cd"),
        variant("alac", 4_000_000, 192_000, 24, "hires"),
        variant("mp4a.40.2", 120_000, 0, 0, "std"),
    ];
    assert_eq!(select_variant_for_quality(&vs, AppleMusicQuality::HiRes).unwrap().uri, "hires");
    assert_eq!(select_variant_for_quality(&vs, AppleMusicQuality::Lossless).unwrap().uri, "hires");
    assert_eq!(select_variant_for_quality(&vs, AppleMusicQuality::High).unwrap().uri, "high");
    assert_eq!(select_variant_for_quality(&vs, AppleMusicQuality::Standard).unwrap().uri, "std");
    let cd_only = vec![variant("alac", 900_000, 44_100, 16, "cd")];
    assert_eq!(select_variant_for_quality(&cd_only, AppleMusicQuality::HiRes).unwrap().uri, "cd");
    assert!(best_aac_variant(&cd_only, 1).is_none());
    let ties = vec![variant("alac", 1, 48_000, 24, "a"), variant("alac", 1, 48_000, 24, "b")];
    assert_eq!(select_variant_for_quality(&ties, AppleMusicQuality::Lossless).unwrap().uri, "b");
    let aac_ties = vec![variant("mp4a.40.2", 100, 0, 0, "a"), variant("mp4a.40.5", 300, 0, 0, "b")];
    assert_eq!(best_aac_variant(&aac_ties, 200).unwrap().uri, "a");
}

#[test]
fn parses_apple_music_url_query_song_id() {
    assert_eq!(
        bot_rs::apple::parse_apple_track_id(
            "https://music.apple.com/us/album/x/1440841360?i=1440841363"
        ),
        Some("1440841363".to_string())
    );
}

#[test]
fn parses_apple_prefixed_id() {
    assert_eq!(
        bot_rs::apple::parse_apple_track_id("am:1440841363"),
        Some("1440841363".to_string())
    );
}

#[test]
fn parses_apple_song_path_and_text_around_links() {
    assert_eq!(parse_apple_track_id(" 123456 "), Some("123456".to_string()));
    assert_eq!(parse_apple_track_id("12345"), None);
    assert_eq!(
        parse_apple_track_id("listen: https://music.apple.com/us/song/name/1234567)."),
        Some("1234567".to_string())
    );
    assert_eq!(
        parse_apple_track_id("https://MUSIC.apple.com/us/album/x?songId=7654321"),
        Some("7654321".to_string())
    );
    assert_eq!(parse_apple_track_id("https://example.com/us/song/x/1234567"), None);
    assert_eq!(parse_apple_track_id("xx:1234567"), None);
}
