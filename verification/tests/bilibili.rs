use bot_rs::bilibili::{
    ensure_bilibili_ok, normalize_bilibili_image, parse_bilibili_id, strip_html_tags,
};

#[test]
fn bilibili_status_and_ids() {
    assert!(ensure_bilibili_ok(0, "").is_ok());
    assert_eq!(
        ensure_bilibili_ok(-404, "啥都木有").unwrap_err().message(),
        "Bilibili API 错误 -404: 啥都木有"
    );
    assert_eq!(
        parse_bilibili_id(" https://www.bilibili.com/video/BV1BZbSzZEGT?p=1 ").as_deref(),
        Some("BV1BZbSzZEGT")
    );
    assert_eq!(parse_bilibili_id("bv1bzbszzegtxyz").as_deref(), Some("bv1bzbszzegt"));
    assert_eq!(parse_bilibili_id("BV12345"), None);
}

#[test]
fn titles_and_images() {
    assert_eq!(
        strip_html_tags("<em class=\"keyword\">晴天</em> - 周杰伦 <>"),
        "晴天 - 周杰伦 <>"
    );
    assert_eq!(strip_html_tags("a < b"), "a < b");
    assert_eq!(normalize_bilibili_image("//i0.hdslb.com/x.jpg"), "https://i0.hdslb.com/x.jpg");
    assert_eq!(normalize_bilibili_image("https://x"), "https://x");
}
