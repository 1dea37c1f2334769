use bot_rs::basics::{
    escape_markdown, fix_start, text_cut, Contain, Duration, Equal, MessageContext,
    MessageStatus, MessageType, SwitchType,
};

#[test]
fn message_context_starts_clean() {
    let ctx = MessageContext::new(7);
    assert_eq!(ctx.message_id, 7);
    assert!(ctx.command.is_none());
    assert_eq!(ctx.status, MessageStatus::Success);
    assert_eq!(ctx.time_cost, 0);
    assert_eq!(MessageType::Callback.code(), 2);
    assert_eq!(MessageStatus::RunError.code(), 2);
    assert_eq!(SwitchType::WordCloud.offset(), 0);
}

#[test]
fn durations_by_name() {
    assert_eq!(Duration::from_name("d"), Duration::Day);
    assert_eq!(Duration::from_name("quarter"), Duration::Quarter);
    assert_eq!(Duration::from_name("Day"), Duration::Invalid);
}

#[test]
fn filters() {
    assert!(Contain::new("晴").check_text(Some("晴天")));
    assert!(!Contain::new("雨").check_text(Some("晴天")));
    assert!(!Contain::new("").check_text(None));
    assert!(Equal::new("hi").check_text(Some("hi")));
    assert!(!Equal::new("hi").check_text(Some("hi ")));
}

#[test]
fn links_get_a_scheme() {
    assert_eq!(fix_start(" example.com ".to_string()), "http://example.com");
    assert_eq!(fix_start("https://a.b".to_string()), "https://a.b");
}

#[test]
fn markdown_is_escaped() {
    assert_eq!(escape_markdown("a.b"), "a\\.b");
    assert_eq!(escape_markdown("**bold** x"), "*bold* x");
    assert_eq!(escape_markdown("** ** y"), " y");
    assert_eq!(escape_markdown("**a.b**"), "*a\\.b*");
    assert_eq!(escape_markdown("**a\nb**"), "\\*\\*a\nb\\*\\*");
    assert_eq!(escape_markdown("***x**"), "*\\*x*");
}

#[test]
fn word_cloud_words() {
    let words = text_cut("我们今天一起去北京天安门看升旗");
    assert!(!words.is_empty());
    assert!(words.iter().all(|w| w.chars().count() > 1));
}

#[test]
fn fix_start_twice_is_fix_start_once() {
    for u in ["  example.com ", "HTTPS://x.io", "https://a.b", "", "  "] {
        let once = fix_start(u.to_string());
        assert_eq!(fix_start(once.clone()), once);
    }
    assert_eq!(fix_start("HTTPS://x.io".to_string()), "http://HTTPS://x.io");
    assert_eq!(fix_start("".to_string()), "http://");
}
