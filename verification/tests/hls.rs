use bot_rs::apple::{select_variant_for_quality, AppleMusicQuality};
use bot_rs::hls::{
    extract_quoted_attr, parse_enhanced_hls_master, parse_enhanced_hls_media, parse_widevine_hls,
};

#[test]
fn parses_enhanced_hls_master_and_selects_lossless() {
    let master = r#"#EXTM3U
#EXT-X-STREAM-INF:BANDWIDTH=64000,AVERAGE-BANDWIDTH=64000,CODECS="mp4a.40.2",AUDIO="audio-stereo-44100"
low.m3u8
#EXT-X-STREAM-INF:BANDWIDTH=2116000,AVERAGE-BANDWIDTH=2116000,CODECS="alac",AUDIO="audio-alac-stereo-44100-16"
lossless.m3u8
#EXT-X-STREAM-INF:BANDWIDTH=4600000,AVERAGE-BANDWIDTH=4600000,CODECS="alac",AUDIO="audio-alac-stereo-96000-24"
hires.m3u8
"#;
    let variants = parse_enhanced_hls_master(master).unwrap();
    assert_eq!(variants.len(), 3);
    assert_eq!(
        select_variant_for_quality(&variants, AppleMusicQuality::Lossless)
            .unwrap()
            .uri,
        "hires.m3u8"
    );
    assert_eq!(
        select_variant_for_quality(&variants, AppleMusicQuality::Standard)
            .unwrap()
            .uri,
        "low.m3u8"
    );
}

#[test]
fn parses_enhanced_hls_media_keys_and_mp4() {
    let playlist = r#"#EXTM3U
#EXT-X-KEY:METHOD=SAMPLE-AES,URI="skd://itunes.apple.com/P000000000/s1/e1",KEYFORMAT="com.apple.streamingkeydelivery"
#EXT-X-KEY:METHOD=SAMPLE-AES,URI="data:text/plain;base64,AAAA",KEYFORMAT="urn:uuid:edef8ba9-79d6-4ace-a3c8-27dcd51d21ed"
#EXT-X-MAP:URI="track.m4a",BYTERANGE="100@0"
#EXTINF:1,
track.m4a
#EXT-X-KEY:METHOD=SAMPLE-AES,URI="skd://itunes.apple.com/p1/c2",KEYFORMAT="com.apple.streamingkeydelivery"
#EXTINF:1,
track.m4a
"#;
    let media = parse_enhanced_hls_media("https://example.test/a/master.m3u8", playlist).unwrap();
    assert_eq!(media.mp4_url, "https://example.test/a/track.m4a");
    assert_eq!(
        media.seg_keys,
        vec![
            "skd://itunes.apple.com/P000000000/s1/e1".to_string(),
            "skd://itunes.apple.com/p1/c2".to_string()
        ]
    );
}

#[test]
fn master_variants_sort_by_bandwidth_stably() {
    let master = "#EXT-X-STREAM-INF:BANDWIDTH=100,CODECS=\"a\"\r\none.m3u8\n#EXT-X-STREAM-INF:AVERAGE-BANDWIDTH=300,BANDWIDTH=5\n\n#comment\ntwo.m3u8\n#EXT-X-STREAM-INF:BANDWIDTH=100\nthree.m3u8\n#EXT-X-STREAM-INF:BANDWIDTH=999\n";
    let variants = parse_enhanced_hls_master(master).unwrap();
    let uris: Vec<&str> = variants.iter().map(|v| v.uri.as_str()).collect();
    assert_eq!(uris, vec!["two.m3u8", "one.m3u8", "three.m3u8"]);
    assert_eq!(variants[0].avg_bw, 300);
    assert_eq!(variants[1].codecs, "a");
    assert_eq!(variants[2].codecs, "");
}

#[test]
fn bandwidth_needs_comma_or_start_and_fits_i64() {
    let master = "#EXT-X-STREAM-INF:XBANDWIDTH=7,BANDWIDTH=8\na.m3u8\n#EXT-X-STREAM-INF:AVERAGE-BANDWIDTH=99999999999999999999\nb.m3u8\n";
    let variants = parse_enhanced_hls_master(master).unwrap();
    assert_eq!(variants[0].avg_bw, 8);
    assert_eq!(variants[1].avg_bw, 0);
}

#[test]
fn master_without_variants_is_an_error() {
    let err = parse_enhanced_hls_master("#EXTM3U\n#EXT-X-STREAM-INF:BANDWIDTH=1\n").unwrap_err();
    assert_eq!(err.message(), "Apple Music enhancedHls 没有 stream variant");
}

#[test]
fn media_playlist_errors() {
    let err = parse_enhanced_hls_media("https://x/a.m3u8", "#EXTM3U\n").unwrap_err();
    assert_eq!(err.message(), "Apple Music media playlist 没有 mp4 segment");
    let err = parse_enhanced_hls_media("https://x/a.m3u8", "#EXT-X-MAP:URI=\"m.mp4\"\n").unwrap_err();
    assert_eq!(err.message(), "Apple Music media playlist 没有 segment key");
}

#[test]
fn media_key_takes_last_skd_address_on_the_line() {
    let playlist = "#EXT-X-KEY:URI=\"skd://a\",URI=\"skd://b\"\nseg.mp4\n";
    let media = parse_enhanced_hls_media("https://h/p/list.m3u8", playlist).unwrap();
    assert_eq!(media.seg_keys, vec!["skd://b".to_string()]);
    assert_eq!(media.mp4_url, "https://h/p/seg.mp4");
}

#[test]
fn extracts_first_quoted_attribute() {
    assert_eq!(
        extract_quoted_attr("#EXT-X-MAP:URI=\"a.mp4\",URI=\"b.mp4\"", "URI"),
        Some("a.mp4".to_string())
    );
    assert_eq!(extract_quoted_attr("URI=\"open", "URI"), None);
    assert_eq!(extract_quoted_attr("NAME=x", "URI"), None);
}

#[test]
fn parses_widevine_playlist() {
    let playlist = "#EXTM3U\n#EXT-X-KEY:METHOD=SAMPLE-AES-CTR,URI=\"data:text/plain;base64,AAAAAAAAAAAAAAAAAAAAAA==\"\n#EXT-X-MAP:URI=\"init.mp4\"\nseg.mp4\n";
    let media = parse_widevine_hls("https://h/dir/list.m3u8", playlist).unwrap();
    assert_eq!(media.mp4_url, "https://h/dir/init.mp4");
    assert_eq!(media.uri_prefix, "data:text/plain;base64");
    assert_eq!(media.kid_b64, "AAAAAAAAAAAAAAAAAAAAAA==");
    assert_eq!(media.kid, [0u8; 16]);
}

#[test]
fn widevine_playlist_errors() {
    let err = parse_widevine_hls("https://h/list.m3u8", "#EXTM3U\n").unwrap_err();
    assert_eq!(err.message(), "Apple Music Widevine playlist 缺少 MP4 URL");
    let err = parse_widevine_hls(
        "https://h/list.m3u8",
        "#EXT-X-KEY:URI=\"p,AAAA\"\nseg.m4s\n",
    )
    .unwrap_err();
    assert_eq!(err.message(), "Apple Music Widevine KID 长度错误");
    let err = parse_widevine_hls("https://h/list.m3u8", "#EXT-X-KEY:URI=\"p,@@\"\nseg.m4a\n")
        .unwrap_err();
    assert!(err.message().starts_with("Apple Music Widevine KID 解码失败："));
}
