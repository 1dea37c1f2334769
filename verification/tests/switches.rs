use bot_rs::switches::FuncSwitch;

#[test]
fn switches_start_on_and_follow_updates() {
    let names = vec!["music".to_owned(), "rate".to_owned(), "music".to_owned()];
    let mut s = FuncSwitch::init(&names);
    assert_eq!(s.entries.len(), 2);
    assert!(s.get_status("music"));
    s.set_status("music", false);
    assert!(!s.get_status("music"));
    assert!(s.get_status("rate"));
    assert!(s.get_status("coin"));
    assert_eq!(s.entries.len(), 3);
    s.set_status("coin", false);
    assert!(!s.get_status("coin"));
    assert_eq!(s.entries.len(), 3);
}
