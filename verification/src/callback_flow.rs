//! What the bot does with a pressed music button: where the press is
//! handled, how a favorite press is carried out, and the texts it answers
//! with. The handlers that talk to Telegram and the stores follow these
//! plans.
use vstd::prelude::*;
use crate::callback::{
    ActionView, FavoriteScope, FavoriteView, MusicCallbackAction, MusicFavoriteAction,
    MusicLyricScript, MusicSettingAction, SettingView,
};
use crate::provider::{platform_label, MusicPlatform, MusicQuery};
use crate::settings::UserMusicSettings;
use crate::text::{chars_of, concat, push_str, trim_chars, trim_spec, string_of};

verus! {

/// Where a press of a music button is handled.
#[derive(Clone, Debug)]
pub enum CallbackRoute {
    /// Send a track into the inline message, for the user who asked.
    InlineSend { platform: MusicPlatform, id: String, quality: String, requester_id: i64 },
    /// Show a track's lyrics as text in the inline message.
    InlineLyricText { platform: MusicPlatform, id: String, script: MusicLyricScript },
    /// Show a track's lyrics in the inline message, in the given script or
    /// the user's stored one.
    InlineLyrics { platform: MusicPlatform, id: String, script: Option<MusicLyricScript> },
    /// Change a setting from the inline message.
    InlineSetting(MusicSettingAction),
    /// Close the inline message.
    InlineClose,
    /// Toggle a personal favorite from the inline message.
    InlineFavorite(MusicFavoriteAction),
    /// Handle the action against the message the button is on; `notice`
    /// says whether the press is first answered with a progress notice.
    OnMessage { action: MusicCallbackAction, notice: bool },
    /// Nothing to do.
    Ignore,
}

/// A route as plain values.
pub enum RouteView {
    InlineSend { platform: MusicPlatform, id: Seq<char>, quality: Seq<char>, requester_id: i64 },
    InlineLyricText { platform: MusicPlatform, id: Seq<char>, script: MusicLyricScript },
    InlineLyrics { platform: MusicPlatform, id: Seq<char>, script: Option<MusicLyricScript> },
    InlineSetting(SettingView),
    InlineClose,
    InlineFavorite(FavoriteView),
    OnMessage { action: ActionView, notice: bool },
    Ignore,
}

impl View for CallbackRoute {
    type V = RouteView;

    open spec fn view(&self) -> RouteView {
        match self {
            CallbackRoute::InlineSend { platform, id, quality, requester_id } => RouteView::InlineSend {
                platform: *platform,
                id: id@,
                quality: quality@,
                requester_id: *requester_id,
            },
            CallbackRoute::InlineLyricText { platform, id, script } => RouteView::InlineLyricText {
                platform: *platform,
                id: id@,
                script: *script,
            },
            CallbackRoute::InlineLyrics { platform, id, script } => RouteView::InlineLyrics {
                platform: *platform,
                id: id@,
                script: *script,
            },
            CallbackRoute::InlineSetting(s) => RouteView::InlineSetting(s@),
            CallbackRoute::InlineClose => RouteView::InlineClose,
            CallbackRoute::InlineFavorite(f) => RouteView::InlineFavorite(f@),
            CallbackRoute::OnMessage { action, notice } => RouteView::OnMessage {
                action: action@,
                notice: *notice,
            },
            CallbackRoute::Ignore => RouteView::Ignore,
        }
    }
}

/// Whether a press handled against its message is first answered with a
/// progress notice: all but settings, favorites, lyrics and closing.
pub open spec fn notice_spec(a: ActionView) -> bool {
    !(a is Setting || a is Favorite || a is Lyrics || a is InlineLyrics || a is Close)
}

/// Where a press is handled: an inline message takes a send, lyrics,
/// settings, closing and a personal favorite toggle; a send without an
/// inline message is dropped; everything else goes to the message the
/// button is on, and is dropped without one.
pub open spec fn route_spec(a: ActionView, inline: bool, has_message: bool) -> RouteView {
    match a {
        ActionView::InlineSend { platform, id, quality, requester_id } => if inline {
            RouteView::InlineSend { platform, id, quality, requester_id }
        } else {
            RouteView::Ignore
        },
        ActionView::InlineLyrics(p, id, s) if inline => RouteView::InlineLyricText {
            platform: p,
            id,
            script: s,
        },
        ActionView::Lyrics(p, id, s) if inline => RouteView::InlineLyrics { platform: p, id, script: s },
        ActionView::Setting(s) if inline => RouteView::InlineSetting(s),
        ActionView::Close if inline => RouteView::InlineClose,
        ActionView::Favorite(f) if inline && f matches FavoriteView::Toggle {
            scope: FavoriteScope::User,
            ..
        } => RouteView::InlineFavorite(f),
        _ => if has_message {
            RouteView::OnMessage { action: a, notice: notice_spec(a) }
        } else {
            RouteView::Ignore
        },
    }
}

pub fn needs_progress_notice(action: &MusicCallbackAction) -> (r: bool)
    ensures
        r == notice_spec(action@),
{
    match action {
        MusicCallbackAction::Setting(_) | MusicCallbackAction::Favorite(_)
        | MusicCallbackAction::Lyrics(_, _, _) | MusicCallbackAction::InlineLyrics(_, _, _)
        | MusicCallbackAction::Close => false,
        _ => true,
    }
}

fn on_message(action: MusicCallbackAction, has_message: bool) -> (r: CallbackRoute)
    ensures
        r@ == (if has_message {
            RouteView::OnMessage { action: action@, notice: notice_spec(action@) }
        } else {
            RouteView::Ignore
        }),
{
    if has_message {
        let notice = needs_progress_notice(&action);
        CallbackRoute::OnMessage { action, notice }
    } else {
        CallbackRoute::Ignore
    }
}

/// Where a pressed music button is handled, by whether it sits on an
/// inline message and whether the message it is on can be reached.
pub fn route_music_callback(action: MusicCallbackAction, inline: bool, has_message: bool) -> (r:
    CallbackRoute)
    ensures
        r@ == route_spec(action@, inline, has_message),
{
    match action {
        MusicCallbackAction::InlineSend { platform, id, quality, requester_id } => {
            if inline {
                CallbackRoute::InlineSend { platform, id, quality, requester_id }
            } else {
                CallbackRoute::Ignore
            }
        },
        MusicCallbackAction::InlineLyrics(platform, id, script) => {
            if inline {
                CallbackRoute::InlineLyricText { platform, id, script }
            } else {
                on_message(MusicCallbackAction::InlineLyrics(platform, id, script), has_message)
            }
        },
        MusicCallbackAction::Lyrics(platform, id, script) => {
            if inline {
                CallbackRoute::InlineLyrics { platform, id, script }
            } else {
                on_message(MusicCallbackAction::Lyrics(platform, id, script), has_message)
            }
        },
        MusicCallbackAction::Setting(s) => {
            if inline {
                CallbackRoute::InlineSetting(s)
            } else {
                on_message(MusicCallbackAction::Setting(s), has_message)
            }
        },
        MusicCallbackAction::Close => {
            if inline {
                CallbackRoute::InlineClose
            } else {
                on_message(MusicCallbackAction::Close, has_message)
            }
        },
        MusicCallbackAction::Favorite(f) => {
            let personal_toggle = match &f {
                MusicFavoriteAction::Toggle { scope: FavoriteScope::User, .. } => true,
                _ => false,
            };
            if inline && personal_toggle {
                CallbackRoute::InlineFavorite(f)
            } else {
                on_message(MusicCallbackAction::Favorite(f), has_message)
            }
        },
        other => on_message(other, has_message),
    }
}

/// The lyric script shown: the one the button names, else the user's
/// stored one.
pub fn lyric_script_for(script: Option<MusicLyricScript>, stored: &str) -> (r: MusicLyricScript)
    ensures
        r == match script {
            Some(s) => s,
            None => if trim_spec(stored@) == "traditional"@ {
                MusicLyricScript::Traditional
            } else {
                MusicLyricScript::Simplified
            },
        },
{
    match script {
        Some(s) => s,
        None => MusicLyricScript::from_stored_value(stored),
    }
}

/// How a favorite press on a message is carried out.
#[derive(Clone, Debug)]
pub enum FavoritePlan {
    /// Answer with this alert and do nothing else.
    Alert(String),
    /// Add the track to the favorites of `scope_id`, unless it is there.
    AddIfAbsent { scope: FavoriteScope, scope_id: i64, platform: MusicPlatform, id: String },
    /// Ask whether to remove the track (the confirm menu).
    Confirm { scope: FavoriteScope, scope_id: i64, platform: MusicPlatform, id: String },
    /// Remove the track and show the list again.
    Remove { scope: FavoriteScope, scope_id: i64, platform: MusicPlatform, id: String },
    /// Show the list.
    List { scope: FavoriteScope, scope_id: i64 },
    /// Delete the message.
    Close,
}

/// A plan as plain values.
pub enum PlanView {
    Alert(Seq<char>),
    AddIfAbsent { scope: FavoriteScope, scope_id: i64, platform: MusicPlatform, id: Seq<char> },
    Confirm { scope: FavoriteScope, scope_id: i64, platform: MusicPlatform, id: Seq<char> },
    Remove { scope: FavoriteScope, scope_id: i64, platform: MusicPlatform, id: Seq<char> },
    List { scope: FavoriteScope, scope_id: i64 },
    Close,
}

impl View for FavoritePlan {
    type V = PlanView;

    open spec fn view(&self) -> PlanView {
        match self {
            FavoritePlan::Alert(t) => PlanView::Alert(t@),
            FavoritePlan::AddIfAbsent { scope, scope_id, platform, id } => PlanView::AddIfAbsent {
                scope: *scope,
                scope_id: *scope_id,
                platform: *platform,
                id: id@,
            },
            FavoritePlan::Confirm { scope, scope_id, platform, id } => PlanView::Confirm {
                scope: *scope,
                scope_id: *scope_id,
                platform: *platform,
                id: id@,
            },
            FavoritePlan::Remove { scope, scope_id, platform, id } => PlanView::Remove {
                scope: *scope,
                scope_id: *scope_id,
                platform: *platform,
                id: id@,
            },
            FavoritePlan::List { scope, scope_id } => PlanView::List {
                scope: *scope,
                scope_id: *scope_id,
            },
            FavoritePlan::Close => PlanView::Close,
        }
    }
}

/// Whose favorites a press is about: the presser's own, or the group the
/// button names (else the chat of the message).
pub open spec fn scope_owner(scope: FavoriteScope, chat_id: Option<i64>, user_id: i64, message_chat: i64) -> i64 {
    match scope {
        FavoriteScope::User => user_id,
        FavoriteScope::Group => match chat_id {
            Some(c) => c,
            None => message_chat,
        },
    }
}

/// How a favorite press is carried out; a group toggle outside a group
/// chat is refused with an alert.
pub open spec fn favorite_plan_spec(f: FavoriteView, user_id: i64, message_chat: i64, is_group: bool) -> PlanView {
    match f {
        FavoriteView::Toggle { scope, platform, id, chat_id } => if scope == FavoriteScope::Group
            && !is_group {
            PlanView::Alert("群收藏只能在群聊消息中使用"@)
        } else {
            PlanView::AddIfAbsent {
                scope,
                scope_id: scope_owner(scope, chat_id, user_id, message_chat),
                platform,
                id,
            }
        },
        FavoriteView::AskRemove { scope, platform, id, chat_id } => PlanView::Confirm {
            scope,
            scope_id: scope_owner(scope, chat_id, user_id, message_chat),
            platform,
            id,
        },
        FavoriteView::Remove { scope, platform, id, chat_id } => PlanView::Remove {
            scope,
            scope_id: scope_owner(scope, chat_id, user_id, message_chat),
            platform,
            id,
        },
        FavoriteView::List { scope, chat_id } => PlanView::List {
            scope,
            scope_id: scope_owner(scope, chat_id, user_id, message_chat),
        },
        FavoriteView::Close => PlanView::Close,
    }
}

/// The owner and scope a plan acts on, when it acts on one.
pub open spec fn plan_target(p: PlanView) -> Option<(FavoriteScope, i64)> {
    match p {
        PlanView::AddIfAbsent { scope, scope_id, .. } => Some((scope, scope_id)),
        PlanView::Confirm { scope, scope_id, .. } => Some((scope, scope_id)),
        PlanView::Remove { scope, scope_id, .. } => Some((scope, scope_id)),
        PlanView::List { scope, scope_id } => Some((scope, scope_id)),
        _ => None,
    }
}

/// Every kind of favorite press acts on the same owner: the presser for
/// personal favorites; for group favorites the group the button names, else
/// the chat of the message. Adding (where it is not refused), asking to
/// remove, removing and listing agree, and keep the press's scope.
pub proof fn lemma_plan_owner(
    scope: FavoriteScope,
    platform: MusicPlatform,
    id: Seq<char>,
    chat_id: Option<i64>,
    user_id: i64,
    message_chat: i64,
    is_group: bool,
)
    ensures
        ({
            let owner = if scope == FavoriteScope::User {
                user_id
            } else if chat_id is Some {
                chat_id->0
            } else {
                message_chat
            };
            &&& plan_target(
                favorite_plan_spec(FavoriteView::AskRemove { scope, platform, id, chat_id }, user_id, message_chat, is_group),
            ) == Some((scope, owner))
            &&& plan_target(
                favorite_plan_spec(FavoriteView::Remove { scope, platform, id, chat_id }, user_id, message_chat, is_group),
            ) == Some((scope, owner))
            &&& plan_target(
                favorite_plan_spec(FavoriteView::List { scope, chat_id }, user_id, message_chat, is_group),
            ) == Some((scope, owner))
            &&& (scope == FavoriteScope::User || is_group) ==> plan_target(
                favorite_plan_spec(FavoriteView::Toggle { scope, platform, id, chat_id }, user_id, message_chat, is_group),
            ) == Some((scope, owner))
        }),
{
}

fn owner_of(scope: FavoriteScope, chat_id: Option<i64>, user_id: i64, message_chat: i64) -> (r: i64)
    ensures
        r == scope_owner(scope, chat_id, user_id, message_chat),
{
    match scope {
        FavoriteScope::User => user_id,
        FavoriteScope::Group => match chat_id {
            Some(c) => c,
            None => message_chat,
        },
    }
}

pub fn plan_favorite(action: MusicFavoriteAction, user_id: i64, message_chat: i64, is_group: bool) -> (r:
    FavoritePlan)
    ensures
        r@ == favorite_plan_spec(action@, user_id, message_chat, is_group),
{
    match action {
        MusicFavoriteAction::Toggle { scope, platform, id, chat_id } => {
            let group = match scope {
                FavoriteScope::Group => true,
                FavoriteScope::User => false,
            };
            if group && !is_group {
                FavoritePlan::Alert(String::from_str("群收藏只能在群聊消息中使用"))
            } else {
                FavoritePlan::AddIfAbsent {
                    scope,
                    scope_id: owner_of(scope, chat_id, user_id, message_chat),
                    platform,
                    id,
                }
            }
        },
        MusicFavoriteAction::AskRemove { scope, platform, id, chat_id } => FavoritePlan::Confirm {
            scope,
            scope_id: owner_of(scope, chat_id, user_id, message_chat),
            platform,
            id,
        },
        MusicFavoriteAction::Remove { scope, platform, id, chat_id } => FavoritePlan::Remove {
            scope,
            scope_id: owner_of(scope, chat_id, user_id, message_chat),
            platform,
            id,
        },
        MusicFavoriteAction::List { scope, chat_id } => FavoritePlan::List {
            scope,
            scope_id: owner_of(scope, chat_id, user_id, message_chat),
        },
        MusicFavoriteAction::Close => FavoritePlan::Close,
    }
}

/// The answer to adding a track: already there, or added to the scope's
/// favorites.
pub open spec fn add_answer_spec(already: bool, scope: FavoriteScope) -> Seq<char> {
    if already {
        "已收藏，可在收藏列表中取消"@
    } else {
        "已加入"@ + match scope {
            FavoriteScope::User => "个人收藏"@,
            FavoriteScope::Group => "群收藏"@,
        }
    }
}

pub fn favorite_add_answer(already: bool, scope: FavoriteScope) -> (r: String)
    ensures
        r@ == add_answer_spec(already, scope),
{
    if already {
        String::from_str("已收藏，可在收藏列表中取消")
    } else {
        concat("已加入", scope.label())
    }
}

/// The answer to removing a track.
pub fn favorite_remove_answer(removed: bool) -> (r: &'static str)
    ensures
        r@ == (if removed {
            "已取消收藏"@
        } else {
            "收藏不存在"@
        }),
{
    if removed {
        "已取消收藏"
    } else {
        "收藏不存在"
    }
}

/// How a favorite press on an inline message is carried out: only a
/// personal toggle is taken.
#[derive(Clone, Debug)]
pub enum InlineFavoritePlan {
    /// Answer that inline messages only take personal favorites.
    Unsupported,
    /// Remove the track from the presser's favorites when it is there,
    /// else add it.
    Toggle { scope_id: i64, platform: MusicPlatform, id: String },
}

pub fn plan_inline_favorite(action: MusicFavoriteAction, user_id: i64) -> (r: InlineFavoritePlan)
    ensures
        match action@ {
            FavoriteView::Toggle { scope: FavoriteScope::User, platform, id, .. } => r matches InlineFavoritePlan::Toggle {
                scope_id,
                platform: p,
                id: i,
            } && scope_id == user_id && p == platform && i@ == id,
            _ => r is Unsupported,
        },
{
    match action {
        MusicFavoriteAction::Toggle { scope: FavoriteScope::User, platform, id, .. } => {
            InlineFavoritePlan::Toggle { scope_id: user_id, platform, id }
        },
        _ => InlineFavoritePlan::Unsupported,
    }
}

/// The answer to an inline toggle: removed when it was there, else added.
pub fn inline_toggle_answer(was_favorite: bool) -> (r: &'static str)
    ensures
        r@ == (if was_favorite {
            "已取消收藏"@
        } else {
            "已加入个人收藏"@
        }),
{
    if was_favorite {
        "已取消收藏"
    } else {
        "已加入个人收藏"
    }
}

/// Whether the presser may send the inline result: anyone when no
/// requester is recorded, else the requester alone.
pub fn inline_send_allowed(requester_id: i64, presser_id: i64) -> (r: bool)
    ensures
        r == (requester_id == 0 || requester_id == presser_id),
{
    requester_id == 0 || requester_id == presser_id
}

/// The search a selected track's menu offers: the search it came from when
/// it has a non-blank keyword (trimmed), else the track's own id.
pub open spec fn menu_query_spec(platform: MusicPlatform, id: Seq<char>, keyword: Option<Seq<char>>) -> (MusicPlatform, Seq<char>) {
    match keyword {
        Some(k) => if trim_spec(k).len() > 0 {
            (platform, trim_spec(k))
        } else {
            (platform, id)
        },
        None => (platform, id),
    }
}

pub fn callback_menu_query(platform: MusicPlatform, id: &str, search_keyword: Option<&str>) -> (r:
    MusicQuery)
    ensures
        (r.platform, r.keyword@) == menu_query_spec(
            platform,
            id@,
            match search_keyword {
                Some(k) => Some(k@),
                None => None,
            },
        ),
{
    match search_keyword {
        Some(k) => {
            let kv = chars_of(k);
            let t = trim_chars(&kv);
            if t.len() > 0 {
                return MusicQuery { platform, keyword: string_of(&t) };
            }
        },
        None => {},
    }
    MusicQuery { platform, keyword: id.to_owned() }
}

/// The settings an inline send runs with: the user's, at the quality the
/// button names.
pub fn settings_for_inline_send(settings: UserMusicSettings, quality: &str) -> (r: UserMusicSettings)
    ensures
        r.user_id == settings.user_id,
        r.default_platform@ == settings.default_platform@,
        r.quality@ == quality@,
        r.send_cover == settings.send_cover,
        r.lyric_script@ == settings.lyric_script@,
{
    let mut s = settings;
    s.quality = quality.to_owned();
    s
}

/// The status shown while a track is fetched.
pub fn fetching_status(platform: MusicPlatform) -> (r: String)
    ensures
        r@ == "正在从"@ + platform_label(platform) + "获取音乐..."@,
{
    let mut s = concat("正在从", platform.label());
    push_str(&mut s, "获取音乐...");
    s
}

/// The status left once a track is sent, from the cache or freshly.
pub fn sent_status(cached: bool, song: &str, singer: &str) -> (r: String)
    ensures
        r@ == (if cached {
            "已从缓存发送："@
        } else {
            "已发送："@
        }) + song@ + " - "@ + singer@,
{
    let mut s = if cached {
        String::from_str("已从缓存发送：")
    } else {
        String::from_str("已发送：")
    };
    push_str(&mut s, song);
    push_str(&mut s, " - ");
    push_str(&mut s, singer);
    s
}

} // verus!
