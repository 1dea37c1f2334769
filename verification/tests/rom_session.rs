use bot_rs::rom_core::LoginData;
use bot_rs::rom_map::{ChangelogGroup, RomInfo, XmsApkInfo, XmsDto, XmsUpdateInfo};
use bot_rs::rom_query::{probe_answer, xms_apps_of, xms_follow_up_log};
use bot_rs::rom_session::{session_step, start_session, SessionAction, SessionEvent, SessionPhase};

fn login(token: &str) -> LoginData {
    LoginData {
        service_token: Some(token.to_owned()),
        auth_result: Some("1".to_owned()),
        ..Default::default()
    }
}

fn answer(auth: Option<i64>) -> RomInfo {
    RomInfo {
        auth_result: auth,
        ..Default::default()
    }
}

fn token_of(a: &SessionAction) -> Option<String> {
    match a {
        SessionAction::Ask(Some(l)) | SessionAction::Refresh(l) => l.service_token.clone(),
        _ => None,
    }
}

#[test]
fn session_without_login_finishes_on_first_answer() {
    let (phase, action) = start_session(None);
    assert!(matches!(action, SessionAction::Ask(None)));
    let (phase, action) = session_step(phase, SessionEvent::Answer(Ok(Some(answer(None)))));
    assert!(matches!(phase, SessionPhase::Over));
    match action {
        SessionAction::Finish(_, login, changed) => {
            assert!(login.is_none());
            assert!(!changed);
        }
        _ => panic!("expected finish"),
    }
}

#[test]
fn session_signed_in_keeps_the_login() {
    let (phase, action) = start_session(Some(login("a")));
    assert_eq!(token_of(&action), Some("a".to_owned()));
    let (_, action) = session_step(phase, SessionEvent::Answer(Ok(Some(answer(Some(1))))));
    match action {
        SessionAction::Finish(rec, Some(l), changed) => {
            assert_eq!(rec.auth_result, Some(1));
            assert_eq!(l.service_token.as_deref(), Some("a"));
            assert!(!changed);
        }
        _ => panic!("expected finish"),
    }
}

#[test]
fn session_no_answer_is_no_network() {
    let (phase, _) = start_session(None);
    let (_, action) = session_step(phase, SessionEvent::Answer(Ok(None)));
    match action {
        SessionAction::Fail(e) => assert_eq!(e, "No network connection!"),
        _ => panic!("expected failure"),
    }
}

#[test]
fn session_expired_error_is_renewed_and_asked_again() {
    let (phase, _) = start_session(Some(login("old")));
    let err = "server said code 2001".to_owned();
    let (phase, action) = session_step(phase, SessionEvent::Answer(Err(err)));
    assert_eq!(token_of(&action), Some("old".to_owned()));
    assert!(matches!(action, SessionAction::Refresh(_)));
    let (phase, action) = session_step(phase, SessionEvent::Refreshed(Some(login("new"))));
    assert!(matches!(action, SessionAction::Ask(Some(_))));
    assert_eq!(token_of(&action), Some("new".to_owned()));
    let (phase, action) = session_step(phase, SessionEvent::Answer(Ok(Some(answer(Some(1))))));
    assert!(matches!(phase, SessionPhase::Over));
    match action {
        SessionAction::Finish(_, Some(l), changed) => {
            assert_eq!(l.service_token.as_deref(), Some("new"));
            assert!(changed);
        }
        _ => panic!("expected finish"),
    }
}

#[test]
fn session_expired_error_without_refresh_fails_with_it() {
    let (phase, _) = start_session(Some(login("old")));
    let (phase, _) = session_step(phase, SessionEvent::Answer(Err("code 2001".to_owned())));
    let (_, action) = session_step(phase, SessionEvent::Refreshed(None));
    match action {
        SessionAction::Fail(e) => assert_eq!(e, "code 2001"),
        _ => panic!("expected failure"),
    }
}

#[test]
fn session_other_error_fails_at_once() {
    let (phase, _) = start_session(Some(login("old")));
    let (phase, action) = session_step(phase, SessionEvent::Answer(Err("timeout".to_owned())));
    assert!(matches!(phase, SessionPhase::Over));
    match action {
        SessionAction::Fail(e) => assert_eq!(e, "timeout"),
        _ => panic!("expected failure"),
    }
}

#[test]
fn session_not_signed_in_is_marked_expired_without_refresh() {
    let (phase, _) = start_session(Some(login("a")));
    let (phase, action) = session_step(phase, SessionEvent::Answer(Ok(Some(answer(Some(0))))));
    assert!(matches!(action, SessionAction::Refresh(_)));
    let (_, action) = session_step(phase, SessionEvent::Refreshed(None));
    match action {
        SessionAction::Finish(rec, Some(l), changed) => {
            assert_eq!(rec.auth_result, Some(0));
            assert_eq!(l.auth_result.as_deref(), Some("3"));
            assert_eq!(l.service_token.as_deref(), Some("a"));
            assert!(changed);
        }
        _ => panic!("expected finish"),
    }
}

#[test]
fn session_not_signed_in_keeps_first_answer_when_second_is_empty() {
    let (phase, _) = start_session(Some(login("a")));
    let (phase, _) = session_step(phase, SessionEvent::Answer(Ok(Some(answer(Some(0))))));
    let (phase, action) = session_step(phase, SessionEvent::Refreshed(Some(login("b"))));
    assert_eq!(token_of(&action), Some("b".to_owned()));
    let (_, action) = session_step(phase, SessionEvent::Answer(Ok(None)));
    match action {
        SessionAction::Finish(rec, Some(l), changed) => {
            assert_eq!(rec.auth_result, Some(0));
            assert_eq!(l.service_token.as_deref(), Some("b"));
            assert!(changed);
        }
        _ => panic!("expected finish"),
    }
}

#[test]
fn follow_up_answers_are_read_or_dropped() {
    let log = vec![ChangelogGroup { category: "系统".to_owned(), items: vec![] }];
    let with_report = RomInfo {
        xms_update_info: Some(XmsUpdateInfo { change_log: log, ..Default::default() }),
        ..Default::default()
    };
    let read = xms_follow_up_log(Ok(Some(with_report))).unwrap();
    assert_eq!(read.len(), 1);
    assert_eq!(read[0].category, "系统");
    assert!(xms_follow_up_log(Ok(Some(RomInfo::default()))).is_none());
    assert!(xms_follow_up_log(Err("timeout".to_owned())).is_none());

    let dto = XmsDto {
        apk_lists: vec![XmsApkInfo {
            name: Some("App".to_owned()),
            download_urls: vec!["a.apk".to_owned()],
            ..Default::default()
        }],
        mirror_list: vec!["https://m/".to_owned()],
    };
    let apps = xms_apps_of(Ok(Some(dto)));
    assert_eq!(apps.len(), 1);
    assert_eq!(apps[0].name, "App");
    assert!(xms_apps_of(Ok(None)).is_empty());
    assert!(xms_apps_of(Err("down".to_owned())).is_empty());

    assert_eq!(probe_answer(Ok(Some(answer(Some(2))))).unwrap().auth_result, Some(2));
    assert!(probe_answer(Err("down".to_owned())).is_none());
    assert!(probe_answer(Ok(None)).is_none());
}
