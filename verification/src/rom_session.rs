//! The session around a ROM query as a state machine: the recovery request
//! is sent, renewed and sent again when the server says the session ran
//! out, and sent once more with a refreshed token when the answer is not
//! signed in; a session that cannot be refreshed is marked expired. The
//! caller performs each action (a request, a token refresh) and hands the
//! reply back as the next event.
use vstd::prelude::*;
use crate::rom_core::LoginData;
use crate::rom_map::{opt_seq, RomInfo};
use crate::rom_query::{expired_login_data, is_session_expired_error, session_authorized, session_expired_spec};

verus! {

/// Where the session stands, and what it waits for.
pub enum SessionPhase {
    /// The first request is out, sent with the query's session.
    First(Option<LoginData>),
    /// The first request said the session ran out; its token is being
    /// renewed. The server's error is kept.
    Renewing(LoginData, String),
    /// The request is out again, with the renewed token.
    Renewed(LoginData),
    /// The answer was not signed in; the session's token is being
    /// refreshed. The answer is kept.
    Reauthorizing(LoginData, RomInfo),
    /// The request is out again with the refreshed token; the earlier
    /// answer is kept in case this one brings nothing.
    Reasked(LoginData, RomInfo),
    /// Nothing more to do.
    Over,
}

/// What the caller hands back.
pub enum SessionEvent {
    /// The reply to a recovery request: an answer, no answer, or an error.
    Answer(Result<Option<RomInfo>, String>),
    /// The reply to a token refresh: the refreshed session, if any.
    Refreshed(Option<LoginData>),
}

/// What the caller does next.
pub enum SessionAction {
    /// Send the recovery request with this session.
    Ask(Option<LoginData>),
    /// Refresh this session's service token.
    Refresh(LoginData),
    /// Go on with this answer and this session; `true` when the session
    /// changed and the new one is reported with the result.
    Finish(RomInfo, Option<LoginData>, bool),
    /// Stop with this error.
    Fail(String),
}

pub open spec fn awaits_answer(p: SessionPhase) -> bool {
    p is First || p is Renewed || p is Reasked
}

pub open spec fn awaits_refresh(p: SessionPhase) -> bool {
    p is Renewing || p is Reauthorizing
}

/// How many more replies the session can wait for at most.
pub open spec fn phase_rank(p: SessionPhase) -> nat {
    match p {
        SessionPhase::First(_) => 5,
        SessionPhase::Renewing(_, _) => 4,
        SessionPhase::Renewed(_) => 3,
        SessionPhase::Reauthorizing(_, _) => 2,
        SessionPhase::Reasked(_, _) => 1,
        SessionPhase::Over => 0,
    }
}

/// The event fits the phase: an answer to a request, a refresh to a
/// refresh.
pub open spec fn event_fits(p: SessionPhase, e: SessionEvent) -> bool {
    (e is Answer && awaits_answer(p)) || (e is Refreshed && awaits_refresh(p))
}

/// The server took the session as signed in.
pub open spec fn signed_in(rec: RomInfo) -> bool {
    rec.auth_result == Some(1i64)
}

/// `x` is `l` marked expired: its auth result `3`, the rest kept.
pub open spec fn expired_of(x: LoginData, l: LoginData) -> bool {
    &&& opt_seq(x.auth_result) == Some("3"@)
    &&& opt_seq(x.account_type) == opt_seq(l.account_type)
    &&& opt_seq(x.description) == opt_seq(l.description)
    &&& opt_seq(x.ssecurity) == opt_seq(l.ssecurity)
    &&& opt_seq(x.service_token) == opt_seq(l.service_token)
    &&& opt_seq(x.user_id) == opt_seq(l.user_id)
    &&& opt_seq(x.c_user_id) == opt_seq(l.c_user_id)
    &&& opt_seq(x.pass_token) == opt_seq(l.pass_token)
}

pub open spec fn failed_with(next: SessionPhase, act: SessionAction, m: Seq<char>) -> bool {
    &&& next is Over
    &&& act matches SessionAction::Fail(e) && e@ == m
}

/// After an answer under a session (`changed`: the session was renewed on
/// the way): a signed-in answer, or one without a session, ends it; else
/// the session's token is refreshed.
pub open spec fn after_answer(
    login: Option<LoginData>,
    rec: RomInfo,
    changed: bool,
    next: SessionPhase,
    act: SessionAction,
) -> bool {
    match login {
        None => next is Over && act == SessionAction::Finish(rec, None, changed),
        Some(l) => if signed_in(rec) {
            next is Over && act == SessionAction::Finish(rec, Some(l), changed)
        } else {
            next == SessionPhase::Reauthorizing(l, rec) && act == SessionAction::Refresh(l)
        },
    }
}

/// One step of the session: the phase and the event it waited for give
/// the next phase and action.
pub open spec fn session_step_spec(
    p: SessionPhase,
    e: SessionEvent,
    next: SessionPhase,
    act: SessionAction,
) -> bool {
    match p {
        SessionPhase::First(login) => match e {
            SessionEvent::Answer(Ok(Some(rec))) => after_answer(login, rec, false, next, act),
            SessionEvent::Answer(Ok(None)) => failed_with(next, act, "No network connection!"@),
            SessionEvent::Answer(Err(err)) => match login {
                Some(l) if session_expired_spec(err@) => next == SessionPhase::Renewing(l, err)
                    && act == SessionAction::Refresh(l),
                _ => failed_with(next, act, err@),
            },
            _ => false,
        },
        SessionPhase::Renewing(_, err) => match e {
            SessionEvent::Refreshed(Some(t)) => next == SessionPhase::Renewed(t) && act
                == SessionAction::Ask(Some(t)),
            SessionEvent::Refreshed(None) => failed_with(next, act, err@),
            _ => false,
        },
        SessionPhase::Renewed(t) => match e {
            SessionEvent::Answer(Ok(Some(rec))) => after_answer(Some(t), rec, true, next, act),
            SessionEvent::Answer(Ok(None)) => failed_with(next, act, "No network connection!"@),
            SessionEvent::Answer(Err(err)) => failed_with(next, act, err@),
            _ => false,
        },
        SessionPhase::Reauthorizing(l, first) => match e {
            SessionEvent::Refreshed(Some(t)) => next == SessionPhase::Reasked(t, first) && act
                == SessionAction::Ask(Some(t)),
            SessionEvent::Refreshed(None) => {
                &&& next is Over
                &&& act matches SessionAction::Finish(r, Some(x), true) && r == first && expired_of(x, l)
            },
            _ => false,
        },
        SessionPhase::Reasked(t, first) => match e {
            SessionEvent::Answer(Ok(Some(rec))) => next is Over && act == SessionAction::Finish(
                rec,
                Some(t),
                true,
            ),
            SessionEvent::Answer(Ok(None)) => next is Over && act == SessionAction::Finish(
                first,
                Some(t),
                true,
            ),
            SessionEvent::Answer(Err(err)) => failed_with(next, act, err@),
            _ => false,
        },
        SessionPhase::Over => false,
    }
}

fn copy_text(o: &Option<String>) -> (r: Option<String>)
    ensures
        r == *o,
{
    match o {
        Some(s) => Some(s.clone()),
        None => None,
    }
}

fn copy_login(l: &LoginData) -> (r: LoginData)
    ensures
        r == *l,
{
    LoginData {
        account_type: copy_text(&l.account_type),
        auth_result: copy_text(&l.auth_result),
        description: copy_text(&l.description),
        ssecurity: copy_text(&l.ssecurity),
        service_token: copy_text(&l.service_token),
        user_id: copy_text(&l.user_id),
        c_user_id: copy_text(&l.c_user_id),
        pass_token: copy_text(&l.pass_token),
    }
}

fn no_network() -> (r: SessionAction)
    ensures
        r matches SessionAction::Fail(e) && e@ == "No network connection!"@,
{
    SessionAction::Fail(String::from_str("No network connection!"))
}

/// The session starts with the first request, sent with the query's
/// session.
pub fn start_session(login: Option<LoginData>) -> (r: (SessionPhase, SessionAction))
    ensures
        r.0 == SessionPhase::First(login),
        r.1 == SessionAction::Ask(login),
        awaits_answer(r.0),
{
    let sent = match &login {
        Some(l) => Some(copy_login(l)),
        None => None,
    };
    (SessionPhase::First(login), SessionAction::Ask(sent))
}

fn after_answer_exec(login: Option<LoginData>, rec: RomInfo, changed: bool) -> (r: (SessionPhase, SessionAction))
    ensures
        after_answer(login, rec, changed, r.0, r.1),
{
    match login {
        None => (SessionPhase::Over, SessionAction::Finish(rec, None, changed)),
        Some(l) => {
            if session_authorized(&rec) {
                (SessionPhase::Over, SessionAction::Finish(rec, Some(l), changed))
            } else {
                let sent = copy_login(&l);
                (SessionPhase::Reauthorizing(l, rec), SessionAction::Refresh(sent))
            }
        },
    }
}

/// One step of the session. The action asks for a request exactly when the
/// next phase waits for an answer, and for a refresh exactly when it waits
/// for one; each step brings the session closer to its end, so a session
/// makes at most five requests and refreshes.
pub fn session_step(phase: SessionPhase, event: SessionEvent) -> (r: (SessionPhase, SessionAction))
    requires
        event_fits(phase, event),
    ensures
        session_step_spec(phase, event, r.0, r.1),
        r.1 is Ask <==> awaits_answer(r.0),
        r.1 is Refresh <==> awaits_refresh(r.0),
        phase_rank(r.0) < phase_rank(phase),
{
    match phase {
        SessionPhase::First(login) => match event {
            SessionEvent::Answer(Ok(Some(rec))) => after_answer_exec(login, rec, false),
            SessionEvent::Answer(Ok(None)) => (SessionPhase::Over, no_network()),
            SessionEvent::Answer(Err(err)) => {
                let expired = is_session_expired_error(err.as_str());
                match login {
                    Some(l) => {
                        if expired {
                            let sent = copy_login(&l);
                            (SessionPhase::Renewing(l, err), SessionAction::Refresh(sent))
                        } else {
                            (SessionPhase::Over, SessionAction::Fail(err))
                        }
                    },
                    None => (SessionPhase::Over, SessionAction::Fail(err)),
                }
            },
            // not reached: the event fits the phase
            SessionEvent::Refreshed(_) => (SessionPhase::Over, no_network()),
        },
        SessionPhase::Renewing(_, err) => match event {
            SessionEvent::Refreshed(Some(t)) => {
                let sent = copy_login(&t);
                (SessionPhase::Renewed(t), SessionAction::Ask(Some(sent)))
            },
            SessionEvent::Refreshed(None) => (SessionPhase::Over, SessionAction::Fail(err)),
            // not reached: the event fits the phase
            SessionEvent::Answer(_) => (SessionPhase::Over, SessionAction::Fail(err)),
        },
        SessionPhase::Renewed(t) => match event {
            SessionEvent::Answer(Ok(Some(rec))) => after_answer_exec(Some(t), rec, true),
            SessionEvent::Answer(Ok(None)) => (SessionPhase::Over, no_network()),
            SessionEvent::Answer(Err(err)) => (SessionPhase::Over, SessionAction::Fail(err)),
            // not reached: the event fits the phase
            SessionEvent::Refreshed(_) => (SessionPhase::Over, no_network()),
        },
        SessionPhase::Reauthorizing(l, first) => match event {
            SessionEvent::Refreshed(Some(t)) => {
                let sent = copy_login(&t);
                (SessionPhase::Reasked(t, first), SessionAction::Ask(Some(sent)))
            },
            SessionEvent::Refreshed(None) => {
                let x = expired_login_data(&l);
                (SessionPhase::Over, SessionAction::Finish(first, Some(x), true))
            },
            // not reached: the event fits the phase
            SessionEvent::Answer(_) => (SessionPhase::Over, no_network()),
        },
        SessionPhase::Reasked(t, first) => match event {
            SessionEvent::Answer(Ok(Some(rec))) => (SessionPhase::Over, SessionAction::Finish(rec, Some(t), true)),
            SessionEvent::Answer(Ok(None)) => (SessionPhase::Over, SessionAction::Finish(first, Some(t), true)),
            SessionEvent::Answer(Err(err)) => (SessionPhase::Over, SessionAction::Fail(err)),
            // not reached: the event fits the phase
            SessionEvent::Refreshed(_) => (SessionPhase::Over, no_network()),
        },
        // not reached: nothing fits a finished session
        SessionPhase::Over => (SessionPhase::Over, no_network()),
    }
}

} // verus!
