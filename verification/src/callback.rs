//! The callback payloads behind the music buttons: how an action is written
//! into at most 64 bytes of button data, and how button data is read back.
use vstd::prelude::*;
use vstd::utf8::encode_utf8;
use crate::error::BotError;
use crate::num::{int_text, parse_i64, parse_i64_spec, push_i64};
use crate::provider::{
    platform_code, platform_of_code, platform_of_code_chars, MusicPlatform, MusicQuery,
};
use crate::text::{
    chars_of, eq_str, extend_chars, extend_str, has_prefix, is_ascii_whitespace, is_ascii_ws,
    is_blank, split_once, split_once_spec, split_whitespace, starts_with_str, string_of, sub_vec,
    trim_chars, trim_spec, utf8_len, vec_views, ws_tokens,
};
use crate::urlcodec::{url_decode_result, url_decode_text, url_encode_spec, url_encode_text};

verus! {

/// Callback data may hold at most this many bytes.
pub const CALLBACK_LIMIT: usize = 64;

/// Whose favorites a favorite action is about.
#[derive(Clone, Copy, Debug, PartialEq, Eq, Structural)]
pub enum FavoriteScope {
    User,
    Group,
}

pub open spec fn scope_code(s: FavoriteScope) -> Seq<char> {
    match s {
        FavoriteScope::User => "u"@,
        FavoriteScope::Group => "g"@,
    }
}

pub open spec fn scope_of_code(c: Seq<char>) -> Option<FavoriteScope> {
    if c == "u"@ {
        Some(FavoriteScope::User)
    } else if c == "g"@ {
        Some(FavoriteScope::Group)
    } else {
        None
    }
}

impl FavoriteScope {
    pub fn callback_code(self) -> (r: &'static str)
        ensures
            r@ == scope_code(self),
    {
        match self {
            FavoriteScope::User => "u",
            FavoriteScope::Group => "g",
        }
    }

    pub fn from_callback_code(code: &str) -> (r: Option<FavoriteScope>)
        ensures
            r == scope_of_code(code@),
    {
        let c = chars_of(code);
        scope_of_code_chars(&c)
    }

    /// The value stored in the favorites collection for this scope.
    pub fn storage_key(self) -> (r: &'static str)
        ensures
            r@ == (match self {
                FavoriteScope::User => "user"@,
                FavoriteScope::Group => "group"@,
            }),
    {
        match self {
            FavoriteScope::User => "user",
            FavoriteScope::Group => "group",
        }
    }

    pub fn label(self) -> (r: &'static str)
        ensures
            r@ == (match self {
                FavoriteScope::User => "个人收藏"@,
                FavoriteScope::Group => "群收藏"@,
            }),
    {
        match self {
            FavoriteScope::User => "个人收藏",
            FavoriteScope::Group => "群收藏",
        }
    }
}

pub fn scope_of_code_chars(c: &[char]) -> (r: Option<FavoriteScope>)
    ensures
        r == scope_of_code(c@),
{
    if eq_str(c, "u") {
        Some(FavoriteScope::User)
    } else if eq_str(c, "g") {
        Some(FavoriteScope::Group)
    } else {
        None
    }
}

/// Simplified or traditional Chinese characters for lyrics.
#[derive(Clone, Copy, Debug, PartialEq, Eq, Structural)]
pub enum MusicLyricScript {
    Simplified,
    Traditional,
}

pub open spec fn script_code(s: MusicLyricScript) -> Seq<char> {
    match s {
        MusicLyricScript::Simplified => "s"@,
        MusicLyricScript::Traditional => "t"@,
    }
}

pub open spec fn script_of_code(c: Seq<char>) -> Option<MusicLyricScript> {
    if c == "s"@ {
        Some(MusicLyricScript::Simplified)
    } else if c == "t"@ {
        Some(MusicLyricScript::Traditional)
    } else {
        None
    }
}

pub open spec fn script_label(s: MusicLyricScript) -> Seq<char> {
    match s {
        MusicLyricScript::Simplified => "简体"@,
        MusicLyricScript::Traditional => "繁体"@,
    }
}

pub open spec fn toggled_script(s: MusicLyricScript) -> MusicLyricScript {
    match s {
        MusicLyricScript::Simplified => MusicLyricScript::Traditional,
        MusicLyricScript::Traditional => MusicLyricScript::Simplified,
    }
}

impl MusicLyricScript {
    pub fn callback_code(self) -> (r: &'static str)
        ensures
            r@ == script_code(self),
    {
        match self {
            MusicLyricScript::Simplified => "s",
            MusicLyricScript::Traditional => "t",
        }
    }

    pub fn from_callback_code(value: &str) -> (r: Option<MusicLyricScript>)
        ensures
            r == script_of_code(value@),
    {
        let c = chars_of(value);
        script_of_code_chars(&c)
    }

    /// The script a stored setting names: traditional only for
    /// `"traditional"` (surrounding whitespace ignored).
    pub fn from_stored_value(value: &str) -> (r: MusicLyricScript)
        ensures
            r == (if trim_spec(value@) == "traditional"@ {
                MusicLyricScript::Traditional
            } else {
                MusicLyricScript::Simplified
            }),
    {
        let v = chars_of(value);
        let t = trim_chars(&v);
        if eq_str(&t, "traditional") {
            MusicLyricScript::Traditional
        } else {
            MusicLyricScript::Simplified
        }
    }

    pub fn label(self) -> (r: &'static str)
        ensures
            r@ == script_label(self),
    {
        match self {
            MusicLyricScript::Simplified => "简体",
            MusicLyricScript::Traditional => "繁体",
        }
    }

    /// The label of the button that switches to the other script.
    pub fn switch_label(self) -> (r: &'static str)
        ensures
            r@ == (match self {
                MusicLyricScript::Simplified => "切换繁体"@,
                MusicLyricScript::Traditional => "切换简体"@,
            }),
    {
        match self {
            MusicLyricScript::Simplified => "切换繁体",
            MusicLyricScript::Traditional => "切换简体",
        }
    }

    pub fn toggled(self) -> (r: MusicLyricScript)
        ensures
            r == toggled_script(self),
    {
        match self {
            MusicLyricScript::Simplified => MusicLyricScript::Traditional,
            MusicLyricScript::Traditional => MusicLyricScript::Simplified,
        }
    }
}

pub fn script_of_code_chars(c: &[char]) -> (r: Option<MusicLyricScript>)
    ensures
        r == script_of_code(c@),
{
    if eq_str(c, "s") {
        Some(MusicLyricScript::Simplified)
    } else if eq_str(c, "t") {
        Some(MusicLyricScript::Traditional)
    } else {
        None
    }
}

/// A change to a user's music settings.
#[derive(Clone, Debug)]
pub enum MusicSettingAction {
    Platform(String),
    Quality(String),
    Cover(bool),
    LyricScript(String),
}

pub enum SettingView {
    Platform(Seq<char>),
    Quality(Seq<char>),
    Cover(bool),
    LyricScript(Seq<char>),
}

impl View for MusicSettingAction {
    type V = SettingView;

    open spec fn view(&self) -> SettingView {
        match self {
            MusicSettingAction::Platform(s) => SettingView::Platform(s@),
            MusicSettingAction::Quality(s) => SettingView::Quality(s@),
            MusicSettingAction::Cover(b) => SettingView::Cover(*b),
            MusicSettingAction::LyricScript(s) => SettingView::LyricScript(s@),
        }
    }
}

/// An action on the favorites list.
#[derive(Clone, Debug)]
pub enum MusicFavoriteAction {
    Toggle { scope: FavoriteScope, platform: MusicPlatform, id: String, chat_id: Option<i64> },
    AskRemove { scope: FavoriteScope, platform: MusicPlatform, id: String, chat_id: Option<i64> },
    Remove { scope: FavoriteScope, platform: MusicPlatform, id: String, chat_id: Option<i64> },
    List { scope: FavoriteScope, chat_id: Option<i64> },
    Close,
}

pub enum FavoriteView {
    Toggle { scope: FavoriteScope, platform: MusicPlatform, id: Seq<char>, chat_id: Option<i64> },
    AskRemove {
        scope: FavoriteScope,
        platform: MusicPlatform,
        id: Seq<char>,
        chat_id: Option<i64>,
    },
    Remove { scope: FavoriteScope, platform: MusicPlatform, id: Seq<char>, chat_id: Option<i64> },
    List { scope: FavoriteScope, chat_id: Option<i64> },
    Close,
}

impl View for MusicFavoriteAction {
    type V = FavoriteView;

    open spec fn view(&self) -> FavoriteView {
        match self {
            MusicFavoriteAction::Toggle { scope, platform, id, chat_id } => FavoriteView::Toggle {
                scope: *scope,
                platform: *platform,
                id: id@,
                chat_id: *chat_id,
            },
            MusicFavoriteAction::AskRemove { scope, platform, id, chat_id } =>
                FavoriteView::AskRemove {
                scope: *scope,
                platform: *platform,
                id: id@,
                chat_id: *chat_id,
            },
            MusicFavoriteAction::Remove { scope, platform, id, chat_id } => FavoriteView::Remove {
                scope: *scope,
                platform: *platform,
                id: id@,
                chat_id: *chat_id,
            },
            MusicFavoriteAction::List { scope, chat_id } => FavoriteView::List {
                scope: *scope,
                chat_id: *chat_id,
            },
            MusicFavoriteAction::Close => FavoriteView::Close,
        }
    }
}

/// What a music button does when pressed.
#[derive(Clone, Debug)]
pub enum MusicCallbackAction {
    SearchMore(MusicQuery),
    Select { platform: MusicPlatform, id: String, search_keyword: Option<String> },
    Cover(MusicPlatform, String),
    Lyrics(MusicPlatform, String, Option<MusicLyricScript>),
    InlineLyrics(MusicPlatform, String, MusicLyricScript),
    InlineSend { platform: MusicPlatform, id: String, quality: String, requester_id: i64 },
    Favorite(MusicFavoriteAction),
    Setting(MusicSettingAction),
    Close,
}

pub enum ActionView {
    SearchMore(MusicPlatform, Seq<char>),
    Select { platform: MusicPlatform, id: Seq<char>, search_keyword: Option<Seq<char>> },
    Cover(MusicPlatform, Seq<char>),
    Lyrics(MusicPlatform, Seq<char>, Option<MusicLyricScript>),
    InlineLyrics(MusicPlatform, Seq<char>, MusicLyricScript),
    InlineSend { platform: MusicPlatform, id: Seq<char>, quality: Seq<char>, requester_id: i64 },
    Favorite(FavoriteView),
    Setting(SettingView),
    Close,
}

impl View for MusicCallbackAction {
    type V = ActionView;

    open spec fn view(&self) -> ActionView {
        match self {
            MusicCallbackAction::SearchMore(q) => ActionView::SearchMore(q.platform, q.keyword@),
            MusicCallbackAction::Select { platform, id, search_keyword } => ActionView::Select {
                platform: *platform,
                id: id@,
                search_keyword: match search_keyword {
                    Some(k) => Some(k@),
                    None => None,
                },
            },
            MusicCallbackAction::Cover(p, id) => ActionView::Cover(*p, id@),
            MusicCallbackAction::Lyrics(p, id, s) => ActionView::Lyrics(*p, id@, *s),
            MusicCallbackAction::InlineLyrics(p, id, s) => ActionView::InlineLyrics(*p, id@, *s),
            MusicCallbackAction::InlineSend { platform, id, quality, requester_id } =>
                ActionView::InlineSend {
                platform: *platform,
                id: id@,
                quality: quality@,
                requester_id: *requester_id,
            },
            MusicCallbackAction::Favorite(f) => ActionView::Favorite(f@),
            MusicCallbackAction::Setting(s) => ActionView::Setting(s@),
            MusicCallbackAction::Close => ActionView::Close,
        }
    }
}

/// The number of bytes a text takes in callback data.
pub open spec fn byte_len(s: Seq<char>) -> usize {
    encode_utf8(s).len() as usize
}

/// A value that can stand between spaces: not blank, and no ASCII
/// whitespace in it.
pub open spec fn is_token(s: Seq<char>) -> bool {
    trim_spec(s).len() > 0 && forall|i: int| 0 <= i < s.len() ==> !is_ascii_ws(#[trigger] s[i])
}

pub fn is_callback_token(value: &str) -> (r: bool)
    ensures
        r == is_token(value@),
{
    let v = chars_of(value);
    if is_blank(&v) {
        return false;
    }
    let mut i: usize = 0;
    while i < v.len()
        invariant
            i <= v.len(),
            v@ == value@,
            forall|j: int| 0 <= j < i ==> !is_ascii_ws(#[trigger] v@[j]),
        decreases v.len() - i,
    {
        if is_ascii_whitespace(v[i]) {
            return false;
        }
        i = i + 1;
    }
    true
}

/// The payload of a favorite action on a track, before the length check.
pub open spec fn favorite_payload_spec(
    action: Seq<char>,
    scope: FavoriteScope,
    platform: MusicPlatform,
    id: Seq<char>,
    chat_id: Option<i64>,
) -> Option<Seq<char>> {
    if !is_token(id) {
        None
    } else {
        match scope {
            FavoriteScope::User => Some(
                "music fav "@ + action + " "@ + scope_code(scope) + " "@ + platform_code(platform)
                    + " "@ + id,
            ),
            FavoriteScope::Group => match chat_id {
                Some(c) => Some(
                    "music fav "@ + action + " "@ + scope_code(scope) + " "@ + int_text(c as int)
                        + " "@ + platform_code(platform) + " "@ + id,
                ),
                None => None,
            },
        }
    }
}

/// Callback data of a favorite action on a track.
pub fn favorite_callback_payload(
    action: &str,
    scope: FavoriteScope,
    platform: MusicPlatform,
    id: &str,
    chat_id: Option<i64>,
) -> (r: Option<String>)
    ensures
        match favorite_payload_spec(action@, scope, platform, id@, chat_id) {
            Some(p) => r matches Some(s) && s@ == p,
            None => r is None,
        },
{
    if !is_callback_token(id) {
        return None;
    }
    let mut out: Vec<char> = Vec::new();
    extend_str(&mut out, "music fav ");
    extend_str(&mut out, action);
    extend_str(&mut out, " ");
    extend_str(&mut out, scope.callback_code());
    extend_str(&mut out, " ");
    match scope {
        FavoriteScope::User => {},
        FavoriteScope::Group => {
            match chat_id {
                Some(c) => {
                    push_i64(&mut out, c);
                    extend_str(&mut out, " ");
                },
                None => {
                    return None;
                },
            }
        },
    }
    extend_str(&mut out, platform.callback_code());
    extend_str(&mut out, " ");
    extend_str(&mut out, id);
    proof {
        let p = favorite_payload_spec(action@, scope, platform, id@, chat_id);
        assert(out@ =~= p.unwrap());
    }
    Some(string_of(&out))
}

/// The payload of a favorite action, before the length check.
pub open spec fn favorite_payload(f: FavoriteView) -> Option<Seq<char>> {
    match f {
        FavoriteView::Toggle { scope, platform, id, chat_id } => favorite_payload_spec(
            "t"@,
            scope,
            platform,
            id,
            chat_id,
        ),
        FavoriteView::AskRemove { scope, platform, id, chat_id } => favorite_payload_spec(
            "ask"@,
            scope,
            platform,
            id,
            chat_id,
        ),
        FavoriteView::Remove { scope, platform, id, chat_id } => favorite_payload_spec(
            "rm"@,
            scope,
            platform,
            id,
            chat_id,
        ),
        FavoriteView::List { scope, chat_id } => match scope {
            FavoriteScope::User => Some("music fav list "@ + scope_code(scope)),
            FavoriteScope::Group => match chat_id {
                Some(c) => Some("music fav list "@ + scope_code(scope) + " "@ + int_text(c as int)),
                None => None,
            },
        },
        FavoriteView::Close => Some("music fav close"@),
    }
}

/// A payload when it fits the callback limit.
pub open spec fn within_limit(p: Option<Seq<char>>) -> Option<Seq<char>> {
    match p {
        Some(s) => if byte_len(s) <= 64 {
            Some(s)
        } else {
            None
        },
        None => None,
    }
}

/// Callback data of a favorite action.
pub open spec fn favorite_encode_spec(f: FavoriteView) -> Option<Seq<char>> {
    within_limit(favorite_payload(f))
}

/// Keeps a payload when it fits the callback limit.
fn limit_payload(p: Option<String>) -> (r: Option<String>)
    ensures
        match p {
            Some(s) => if byte_len(s@) <= 64 {
                r matches Some(x) && x@ == s@
            } else {
                r is None
            },
            None => r is None,
        },
{
    match p {
        Some(s) => {
            if utf8_len(&s) <= CALLBACK_LIMIT {
                Some(s)
            } else {
                None
            }
        },
        None => None,
    }
}

impl MusicFavoriteAction {
    pub fn encode(&self) -> (r: Option<String>)
        ensures
            match favorite_encode_spec(self@) {
                Some(p) => r matches Some(s) && s@ == p,
                None => r is None,
            },
    {
        let payload = match self {
            MusicFavoriteAction::Toggle { scope, platform, id, chat_id } => {
                favorite_callback_payload("t", *scope, *platform, id.as_str(), *chat_id)
            },
            MusicFavoriteAction::AskRemove { scope, platform, id, chat_id } => {
                favorite_callback_payload("ask", *scope, *platform, id.as_str(), *chat_id)
            },
            MusicFavoriteAction::Remove { scope, platform, id, chat_id } => {
                favorite_callback_payload("rm", *scope, *platform, id.as_str(), *chat_id)
            },
            MusicFavoriteAction::List { scope, chat_id } => {
                let mut out: Vec<char> = Vec::new();
                extend_str(&mut out, "music fav list ");
                extend_str(&mut out, scope.callback_code());
                match scope {
                    FavoriteScope::User => Some(string_of(&out)),
                    FavoriteScope::Group => match chat_id {
                        Some(c) => {
                            extend_str(&mut out, " ");
                            push_i64(&mut out, *c);
                            Some(string_of(&out))
                        },
                        None => None,
                    },
                }
            },
            MusicFavoriteAction::Close => Some(String::from_str("music fav close")),
        };
        proof {
            match favorite_payload(self@) {
                Some(p) => {
                    assert(payload matches Some(s) && s@ =~= p);
                },
                None => {},
            }
        }
        limit_payload(payload)
    }
}

pub open spec fn msg_unknown_favorite_action() -> Seq<char> {
    "Unknown favorite action"@
}

/// Reads a favorite action from its whitespace-separated words.
#[verifier::opaque]
pub open spec fn favorite_decode_spec(toks: Seq<Seq<char>>) -> Result<FavoriteView, Seq<char>> {
    if toks.len() == 0 {
        Err("Unknown favorite action"@)
    } else if toks[0] == "close"@ {
        Ok(FavoriteView::Close)
    } else {
        let scope = if toks.len() > 1 {
            scope_of_code(toks[1])
        } else {
            None
        };
        if scope is None {
            Err("Unknown favorite scope"@)
        } else {
            let scope = scope.unwrap();
            let chat = if scope == FavoriteScope::Group {
                if toks.len() > 2 {
                    parse_i64_spec(toks[2])
                } else {
                    None
                }
            } else {
                None
            };
            if scope == FavoriteScope::Group && chat is None {
                Err("Unknown favorite chat"@)
            } else if toks[0] == "list"@ {
                Ok(FavoriteView::List { scope, chat_id: chat })
            } else {
                let k: int = if scope == FavoriteScope::Group {
                    3
                } else {
                    2
                };
                let platform = if toks.len() > k {
                    platform_of_code(toks[k])
                } else {
                    None
                };
                if platform is None {
                    Err("Unknown favorite platform"@)
                } else if toks.len() <= k + 1 {
                    Err("Unknown favorite track"@)
                } else if toks.len() > k + 2 {
                    Err("Invalid favorite callback"@)
                } else {
                    let platform = platform.unwrap();
                    let id = toks[k + 1];
                    if toks[0] == "t"@ {
                        Ok(FavoriteView::Toggle { scope, platform, id, chat_id: chat })
                    } else if toks[0] == "ask"@ {
                        Ok(FavoriteView::AskRemove { scope, platform, id, chat_id: chat })
                    } else if toks[0] == "rm"@ {
                        Ok(FavoriteView::Remove { scope, platform, id, chat_id: chat })
                    } else {
                        Err("Unknown favorite action"@)
                    }
                }
            }
        }
    }
}

/// An error with the given text.
fn custom_error(text: &str) -> (e: BotError)
    ensures
        e matches BotError::Custom(m) && m@ == text@,
{
    BotError::Custom(String::from_str(text))
}

/// Whether the result is the action (or the error text) the spec gives.
pub open spec fn favorite_result_is(
    r: Result<MusicFavoriteAction, BotError>,
    s: Result<FavoriteView, Seq<char>>,
) -> bool {
    match s {
        Ok(v) => r matches Ok(a) && a@ == v,
        Err(m) => r matches Err(BotError::Custom(e)) && e@ == m,
    }
}

impl MusicFavoriteAction {
    pub fn decode(value: &str) -> (r: Result<MusicFavoriteAction, BotError>)
        ensures
            favorite_result_is(r, favorite_decode_spec(ws_tokens(value@))),
    {
        proof {
            reveal(favorite_decode_spec);
        }
        let v = chars_of(value);
        let toks = split_whitespace(&v);
        let ghost t = vec_views(toks@);
        proof {
            assert forall|i: int| 0 <= i < toks@.len() implies #[trigger] toks@[i]@ == t[i] by {}
        }
        if toks.len() == 0 {
            return Err(custom_error("Unknown favorite action"));
        }
        if eq_str(&toks[0], "close") {
            return Ok(MusicFavoriteAction::Close);
        }
        let scope = if toks.len() > 1 {
            scope_of_code_chars(&toks[1])
        } else {
            None
        };
        let scope = match scope {
            Some(s) => s,
            None => {
                return Err(custom_error("Unknown favorite scope"));
            },
        };
        let chat = match scope {
            FavoriteScope::Group => {
                if toks.len() > 2 {
                    parse_i64(&toks[2])
                } else {
                    None
                }
            },
            FavoriteScope::User => None,
        };
        if scope == FavoriteScope::Group && chat.is_none() {
            return Err(custom_error("Unknown favorite chat"));
        }
        if eq_str(&toks[0], "list") {
            return Ok(MusicFavoriteAction::List { scope, chat_id: chat });
        }
        let k: usize = match scope {
            FavoriteScope::Group => 3,
            FavoriteScope::User => 2,
        };
        let platform = if toks.len() > k {
            platform_of_code_chars(&toks[k])
        } else {
            None
        };
        let platform = match platform {
            Some(p) => p,
            None => {
                return Err(custom_error("Unknown favorite platform"));
            },
        };
        if toks.len() <= k + 1 {
            return Err(custom_error("Unknown favorite track"));
        }
        if toks.len() > k + 2 {
            return Err(custom_error("Invalid favorite callback"));
        }
        let id = string_of(&toks[k + 1]);
        if eq_str(&toks[0], "t") {
            Ok(MusicFavoriteAction::Toggle { scope, platform, id, chat_id: chat })
        } else if eq_str(&toks[0], "ask") {
            Ok(MusicFavoriteAction::AskRemove { scope, platform, id, chat_id: chat })
        } else if eq_str(&toks[0], "rm") {
            Ok(MusicFavoriteAction::Remove { scope, platform, id, chat_id: chat })
        } else {
            Err(custom_error("Unknown favorite action"))
        }
    }
}


/// The keyword a select payload carries: the trimmed keyword, when it is not
/// blank.
pub open spec fn select_keyword(k: Option<Seq<char>>) -> Option<Seq<char>> {
    match k {
        Some(k) => if trim_spec(k).len() > 0 {
            Some(trim_spec(k))
        } else {
            None
        },
        None => None,
    }
}

/// The payload of a select action: the keyword is appended, URL-encoded,
/// only when the result still fits the limit.
pub open spec fn select_payload(platform: MusicPlatform, id: Seq<char>, k: Option<Seq<char>>) -> Seq<
    char,
> {
    let base = "music d "@ + platform_code(platform) + " "@ + id;
    match select_keyword(k) {
        Some(t) => {
            let with = base + " "@ + url_encode_spec(t);
            if byte_len(with) <= 64 {
                with
            } else {
                base
            }
        },
        None => base,
    }
}

pub open spec fn setting_payload(s: SettingView) -> Seq<char> {
    match s {
        SettingView::Platform(v) => "music setting platform "@ + v,
        SettingView::Quality(v) => "music setting quality "@ + v,
        SettingView::Cover(b) => "music setting cover "@ + (if b {
            "on"@
        } else {
            "off"@
        }),
        SettingView::LyricScript(v) => "music setting lyric_script "@ + v,
    }
}

/// The payload of an action, before the length check.
pub open spec fn action_payload(a: ActionView) -> Option<Seq<char>> {
    match a {
        ActionView::SearchMore(p, k) => Some(
            "music s "@ + platform_code(p) + " "@ + url_encode_spec(k),
        ),
        ActionView::Select { platform, id, search_keyword } => Some(
            select_payload(platform, id, search_keyword),
        ),
        ActionView::Cover(p, id) => Some("music c "@ + platform_code(p) + " "@ + id),
        ActionView::Lyrics(p, id, s) => Some(
            "music lyric "@ + platform_code(p) + " "@ + id + match s {
                Some(s) => " "@ + script_code(s),
                None => Seq::<char>::empty(),
            },
        ),
        ActionView::InlineLyrics(p, id, s) => Some(
            "music ilyric "@ + platform_code(p) + " "@ + id + " "@ + script_code(s),
        ),
        ActionView::InlineSend { platform, id, quality, requester_id } => if is_token(id)
            && is_token(quality) {
            Some(
                "music i "@ + platform_code(platform) + " "@ + id + " "@ + quality + " "@ + int_text(
                    requester_id as int,
                ),
            )
        } else {
            None
        },
        ActionView::Favorite(f) => favorite_encode_spec(f),
        ActionView::Setting(s) => Some(setting_payload(s)),
        ActionView::Close => Some("music close"@),
    }
}

/// The callback data of an action: its payload when that fits 64 bytes.
pub open spec fn encode_spec(a: ActionView) -> Option<Seq<char>> {
    within_limit(action_payload(a))
}

impl MusicCallbackAction {
    pub fn encode(&self) -> (r: Option<String>)
        ensures
            match encode_spec(self@) {
                Some(p) => r matches Some(s) && s@ == p,
                None => r is None,
            },
    {
        let payload: Option<String> = match self {
            MusicCallbackAction::SearchMore(query) => {
                let mut out: Vec<char> = Vec::new();
                extend_str(&mut out, "music s ");
                extend_str(&mut out, query.platform.callback_code());
                extend_str(&mut out, " ");
                let enc = url_encode_text(query.keyword.as_str());
                extend_str(&mut out, enc.as_str());
                Some(string_of(&out))
            },
            MusicCallbackAction::Select { platform, id, search_keyword } => {
                let mut out: Vec<char> = Vec::new();
                extend_str(&mut out, "music d ");
                extend_str(&mut out, platform.callback_code());
                extend_str(&mut out, " ");
                extend_str(&mut out, id.as_str());
                let base = string_of(&out);
                match search_keyword {
                    Some(k) => {
                        let kv = chars_of(k.as_str());
                        let t = trim_chars(&kv);
                        if t.len() > 0 {
                            let ts = string_of(&t);
                            let enc = url_encode_text(ts.as_str());
                            extend_str(&mut out, " ");
                            extend_str(&mut out, enc.as_str());
                            let with = string_of(&out);
                            if utf8_len(&with) <= CALLBACK_LIMIT {
                                Some(with)
                            } else {
                                Some(base)
                            }
                        } else {
                            Some(base)
                        }
                    },
                    None => Some(base),
                }
            },
            MusicCallbackAction::Cover(platform, id) => {
                let mut out: Vec<char> = Vec::new();
                extend_str(&mut out, "music c ");
                extend_str(&mut out, platform.callback_code());
                extend_str(&mut out, " ");
                extend_str(&mut out, id.as_str());
                Some(string_of(&out))
            },
            MusicCallbackAction::Lyrics(platform, id, script) => {
                let mut out: Vec<char> = Vec::new();
                extend_str(&mut out, "music lyric ");
                extend_str(&mut out, platform.callback_code());
                extend_str(&mut out, " ");
                extend_str(&mut out, id.as_str());
                if let Some(s) = script {
                    extend_str(&mut out, " ");
                    extend_str(&mut out, s.callback_code());
                }
                Some(string_of(&out))
            },
            MusicCallbackAction::InlineLyrics(platform, id, script) => {
                let mut out: Vec<char> = Vec::new();
                extend_str(&mut out, "music ilyric ");
                extend_str(&mut out, platform.callback_code());
                extend_str(&mut out, " ");
                extend_str(&mut out, id.as_str());
                extend_str(&mut out, " ");
                extend_str(&mut out, script.callback_code());
                Some(string_of(&out))
            },
            MusicCallbackAction::InlineSend { platform, id, quality, requester_id } => {
                if !is_callback_token(id.as_str()) || !is_callback_token(quality.as_str()) {
                    None
                } else {
                    let mut out: Vec<char> = Vec::new();
                    extend_str(&mut out, "music i ");
                    extend_str(&mut out, platform.callback_code());
                    extend_str(&mut out, " ");
                    extend_str(&mut out, id.as_str());
                    extend_str(&mut out, " ");
                    extend_str(&mut out, quality.as_str());
                    extend_str(&mut out, " ");
                    push_i64(&mut out, *requester_id);
                    Some(string_of(&out))
                }
            },
            MusicCallbackAction::Favorite(action) => action.encode(),
            MusicCallbackAction::Setting(action) => {
                let mut out: Vec<char> = Vec::new();
                match action {
                    MusicSettingAction::Platform(v) => {
                        extend_str(&mut out, "music setting platform ");
                        extend_str(&mut out, v.as_str());
                    },
                    MusicSettingAction::Quality(v) => {
                        extend_str(&mut out, "music setting quality ");
                        extend_str(&mut out, v.as_str());
                    },
                    MusicSettingAction::Cover(b) => {
                        extend_str(&mut out, "music setting cover ");
                        if *b {
                            extend_str(&mut out, "on");
                        } else {
                            extend_str(&mut out, "off");
                        }
                    },
                    MusicSettingAction::LyricScript(v) => {
                        extend_str(&mut out, "music setting lyric_script ");
                        extend_str(&mut out, v.as_str());
                    },
                }
                Some(string_of(&out))
            },
            MusicCallbackAction::Close => Some(String::from_str("music close")),
        };
        proof {
            match action_payload(self@) {
                Some(p) => {
                    assert(payload matches Some(s) && s@ =~= p);
                },
                None => {},
            }
        }
        limit_payload(payload)
    }
}

/// Callback data without its leading `"music "`, when it has one.
#[verifier::opaque]
pub open spec fn strip_music_prefix(d: Seq<char>) -> Seq<char> {
    if has_prefix(d, "music"@) && has_prefix(d.skip(5), " "@) {
        d.skip(6)
    } else {
        d
    }
}

/// `str::splitn(3, ' ')`: the first word, the second, and the rest.
#[verifier::opaque]
pub open spec fn split3(p: Seq<char>) -> (Seq<char>, Option<Seq<char>>, Option<Seq<char>>) {
    match split_once_spec(p, ' ') {
        None => (p, None, None),
        Some((a, rest)) => match split_once_spec(rest, ' ') {
            None => (a, Some(rest), None),
            Some((b, c)) => (a, Some(b), Some(c)),
        },
    }
}

#[verifier::opaque]
pub open spec fn decode_setting_spec(second: Option<Seq<char>>, third: Option<Seq<char>>) -> Result<
    ActionView,
    Seq<char>,
> {
    match second {
        None => Err("Unknown music setting action"@),
        Some(sa) => match third {
            None => Err("Unknown music setting data"@),
            Some(value) => if sa == "platform"@ {
                Ok(ActionView::Setting(SettingView::Platform(value)))
            } else if sa == "quality"@ {
                Ok(ActionView::Setting(SettingView::Quality(value)))
            } else if sa == "cover"@ {
                Ok(ActionView::Setting(SettingView::Cover(value == "on"@)))
            } else if sa == "lyric_script"@ {
                Ok(ActionView::Setting(SettingView::LyricScript(value)))
            } else {
                Err("Unknown music setting action"@)
            },
        },
    }
}

/// The keyword of a select payload once decoded: kept when it decodes and is
/// not blank.
pub open spec fn decoded_keyword(k: Seq<char>) -> Option<Seq<char>> {
    match url_decode_result(k) {
        Ok(d) => if trim_spec(d).len() > 0 {
            Some(d)
        } else {
            None
        },
        Err(_) => None,
    }
}

#[verifier::opaque]
pub open spec fn decode_track_spec(action: Seq<char>, platform: MusicPlatform, value: Seq<char>) -> Result<
    ActionView,
    Seq<char>,
> {
    if action == "s"@ {
        match url_decode_result(value) {
            Ok(k) => Ok(ActionView::SearchMore(platform, k)),
            Err(e) => Err(e),
        }
    } else if action == "d"@ {
        match split_once_spec(value, ' ') {
            None => Ok(ActionView::Select { platform, id: value, search_keyword: None }),
            Some((id, k)) => Ok(
                ActionView::Select { platform, id, search_keyword: decoded_keyword(k) },
            ),
        }
    } else if action == "c"@ {
        Ok(ActionView::Cover(platform, value))
    } else if action == "lyric"@ {
        match split_once_spec(value, ' ') {
            None => Ok(ActionView::Lyrics(platform, value, None)),
            Some((id, s)) => Ok(ActionView::Lyrics(platform, id, script_of_code(s))),
        }
    } else if action == "ilyric"@ {
        match split_once_spec(value, ' ') {
            None => Err("Unknown inline lyric data"@),
            Some((id, s)) => match script_of_code(s) {
                None => Err("Unknown inline lyric script"@),
                Some(s) => Ok(ActionView::InlineLyrics(platform, id, s)),
            },
        }
    } else if action == "i"@ {
        let toks = ws_tokens(value);
        if toks.len() < 1 {
            Err("Unknown inline music track"@)
        } else if toks.len() < 2 {
            Err("Unknown inline music quality"@)
        } else if toks.len() < 3 || parse_i64_spec(toks[2]) is None {
            Err("Unknown inline music requester"@)
        } else if toks.len() > 3 {
            Err("Invalid inline music callback"@)
        } else {
            Ok(
                ActionView::InlineSend {
                    platform,
                    id: toks[0],
                    quality: toks[1],
                    requester_id: parse_i64_spec(toks[2]).unwrap(),
                },
            )
        }
    } else {
        Err("Unknown music callback action"@)
    }
}

/// Reads callback data, with or without its `"music "` prefix.
pub open spec fn decode_spec(data: Seq<char>) -> Result<ActionView, Seq<char>> {
    let payload = strip_music_prefix(data);
    let (action, second, third) = split3(payload);
    if action == "setting"@ {
        decode_setting_spec(second, third)
    } else if action == "fav"@ {
        if has_prefix(payload, "fav "@) {
            match favorite_decode_spec(ws_tokens(payload.skip(4))) {
                Ok(f) => Ok(ActionView::Favorite(f)),
                Err(m) => Err(m),
            }
        } else {
            Err("Unknown favorite action"@)
        }
    } else if action == "close"@ {
        Ok(ActionView::Close)
    } else {
        match second {
            None => Err("Unknown music platform"@),
            Some(code) => match platform_of_code(code) {
                None => Err("Unknown music platform"@),
                Some(platform) => match third {
                    None => Err("Unknown music callback data"@),
                    Some(value) => decode_track_spec(action, platform, value),
                },
            },
        }
    }
}

/// Whether the result is the action (or the error text) the spec gives.
pub open spec fn action_result_is(
    r: Result<MusicCallbackAction, BotError>,
    s: Result<ActionView, Seq<char>>,
) -> bool {
    match s {
        Ok(v) => r matches Ok(a) && a@ == v,
        Err(m) => r matches Err(BotError::Custom(e)) && e@ == m,
    }
}

/// `str::splitn(3, ' ')` on characters.
fn split3_exec(p: &[char]) -> (r: (Vec<char>, Option<Vec<char>>, Option<Vec<char>>))
    ensures
        r.0@ == split3(p@).0,
        match split3(p@).1 {
            Some(b) => r.1 matches Some(x) && x@ == b,
            None => r.1 is None,
        },
        match split3(p@).2 {
            Some(c) => r.2 matches Some(x) && x@ == c,
            None => r.2 is None,
        },
{
    proof {
        reveal(split3);
    }
    match split_once(p, ' ') {
        None => (sub_vec(p, 0, p.len()), None, None),
        Some((a, rest)) => match split_once(&rest, ' ') {
            None => (a, Some(rest), None),
            Some((b, c)) => (a, Some(b), Some(c)),
        },
    }
}

impl MusicCallbackAction {
    fn decode_setting(second: Option<Vec<char>>, third: Option<Vec<char>>) -> (r: Result<
        MusicCallbackAction,
        BotError,
    >)
        ensures
            action_result_is(
                r,
                decode_setting_spec(
                    match second {
                        Some(x) => Some(x@),
                        None => None,
                    },
                    match third {
                        Some(x) => Some(x@),
                        None => None,
                    },
                ),
            ),
    {
        proof {
            reveal(decode_setting_spec);
        }
        let sa = match second {
            Some(sa) => sa,
            None => {
                return Err(custom_error("Unknown music setting action"));
            },
        };
        let value = match third {
            Some(v) => v,
            None => {
                return Err(custom_error("Unknown music setting data"));
            },
        };
        if eq_str(&sa, "platform") {
            Ok(MusicCallbackAction::Setting(MusicSettingAction::Platform(string_of(&value))))
        } else if eq_str(&sa, "quality") {
            Ok(MusicCallbackAction::Setting(MusicSettingAction::Quality(string_of(&value))))
        } else if eq_str(&sa, "cover") {
            Ok(MusicCallbackAction::Setting(MusicSettingAction::Cover(eq_str(&value, "on"))))
        } else if eq_str(&sa, "lyric_script") {
            Ok(MusicCallbackAction::Setting(MusicSettingAction::LyricScript(string_of(&value))))
        } else {
            Err(custom_error("Unknown music setting action"))
        }
    }

    fn decode_track(action: &[char], platform: MusicPlatform, value: &[char]) -> (r: Result<
        MusicCallbackAction,
        BotError,
    >)
        ensures
            action_result_is(r, decode_track_spec(action@, platform, value@)),
    {
        proof {
            reveal(decode_track_spec);
        }
        if eq_str(action, "s") {
            let vs = string_of(value);
            match url_decode_text(vs.as_str()) {
                Ok(k) => Ok(MusicCallbackAction::SearchMore(MusicQuery { platform, keyword: k })),
                Err(e) => Err(BotError::Custom(e)),
            }
        } else if eq_str(action, "d") {
            match split_once(value, ' ') {
                None => Ok(
                    MusicCallbackAction::Select {
                        platform,
                        id: string_of(value),
                        search_keyword: None,
                    },
                ),
                Some((id, k)) => {
                    let ks = string_of(&k);
                    let keyword = match url_decode_text(ks.as_str()) {
                        Ok(d) => {
                            if crate::text::str_is_blank(d.as_str()) {
                                None
                            } else {
                                Some(d)
                            }
                        },
                        Err(_) => None,
                    };
                    Ok(
                        MusicCallbackAction::Select {
                            platform,
                            id: string_of(&id),
                            search_keyword: keyword,
                        },
                    )
                },
            }
        } else if eq_str(action, "c") {
            Ok(MusicCallbackAction::Cover(platform, string_of(value)))
        } else if eq_str(action, "lyric") {
            match split_once(value, ' ') {
                None => Ok(MusicCallbackAction::Lyrics(platform, string_of(value), None)),
                Some((id, s)) => Ok(
                    MusicCallbackAction::Lyrics(platform, string_of(&id), script_of_code_chars(&s)),
                ),
            }
        } else if eq_str(action, "ilyric") {
            match split_once(value, ' ') {
                None => Err(custom_error("Unknown inline lyric data")),
                Some((id, s)) => match script_of_code_chars(&s) {
                    None => Err(custom_error("Unknown inline lyric script")),
                    Some(s) => Ok(MusicCallbackAction::InlineLyrics(platform, string_of(&id), s)),
                },
            }
        } else if eq_str(action, "i") {
            let toks = split_whitespace(value);
            let ghost t = vec_views(toks@);
            proof {
                assert forall|i: int| 0 <= i < toks@.len() implies #[trigger] toks@[i]@ == t[i] by {}
            }
            if toks.len() < 1 {
                return Err(custom_error("Unknown inline music track"));
            }
            if toks.len() < 2 {
                return Err(custom_error("Unknown inline music quality"));
            }
            if toks.len() < 3 {
                return Err(custom_error("Unknown inline music requester"));
            }
            let requester = match parse_i64(&toks[2]) {
                Some(x) => x,
                None => {
                    return Err(custom_error("Unknown inline music requester"));
                },
            };
            if toks.len() > 3 {
                return Err(custom_error("Invalid inline music callback"));
            }
            Ok(
                MusicCallbackAction::InlineSend {
                    platform,
                    id: string_of(&toks[0]),
                    quality: string_of(&toks[1]),
                    requester_id: requester,
                },
            )
        } else {
            Err(custom_error("Unknown music callback action"))
        }
    }

    /// Reads callback data, with or without its `"music "` prefix.
    pub fn decode(data: &str) -> (r: Result<MusicCallbackAction, BotError>)
        ensures
            action_result_is(r, decode_spec(data@)),
    {
        let d = chars_of(data);
        proof {
            reveal(strip_music_prefix);
            reveal_strlit("music ");
            reveal_strlit("music");
            reveal_strlit(" ");
            assert("music "@.take(5) =~= "music"@);
            assert("music "@.skip(5) =~= " "@);
        }
        let payload = if starts_with_str(&d, "music ") {
            proof {
                assert(d@.take(5) =~= d@.take(6).take(5));
                assert(d@.skip(5).take(1) =~= d@.take(6).skip(5));
                assert(d@.skip(6) =~= d@.subrange(6, d@.len() as int));
                assert(has_prefix(d@, "music"@));
                assert(has_prefix(d@.skip(5), " "@));
            }
            let r = sub_vec(&d, 6, d.len());
            proof {
                assert(r@ =~= strip_music_prefix(data@));
            }
            r
        } else {
            proof {
                if has_prefix(d@, "music"@) && has_prefix(d@.skip(5), " "@) {
                    assert(d@.take(6) =~= d@.take(5) + d@.skip(5).take(1));
                    assert("music"@ + " "@ =~= "music "@);
                }
                assert(d@ =~= d@.subrange(0, d@.len() as int));
            }
            let r = sub_vec(&d, 0, d.len());
            proof {
                assert(r@ =~= strip_music_prefix(data@));
            }
            r
        };
        proof {
            assert(payload@ =~= strip_music_prefix(data@));
        }
        let (action, second, third) = split3_exec(&payload);
        if eq_str(&action, "setting") {
            return MusicCallbackAction::decode_setting(second, third);
        }
        if eq_str(&action, "fav") {
            if starts_with_str(&payload, "fav ") {
                proof {
                    reveal_strlit("fav ");
                }
                let rest = sub_vec(&payload, 4, payload.len());
                let rs = string_of(&rest);
                proof {
                    assert(rest@ =~= payload@.skip(4));
                }
                return match MusicFavoriteAction::decode(rs.as_str()) {
                    Ok(f) => Ok(MusicCallbackAction::Favorite(f)),
                    Err(e) => Err(e),
                };
            }
            return Err(custom_error("Unknown favorite action"));
        }
        if eq_str(&action, "close") {
            return Ok(MusicCallbackAction::Close);
        }
        let platform = match second {
            Some(code) => platform_of_code_chars(&code),
            None => None,
        };
        let platform = match platform {
            Some(p) => p,
            None => {
                return Err(custom_error("Unknown music platform"));
            },
        };
        let value = match third {
            Some(v) => v,
            None => {
                return Err(custom_error("Unknown music callback data"));
            },
        };
        MusicCallbackAction::decode_track(&action, platform, &value)
    }
}

/// Favorite actions as they read back: the chat of a personal action is
/// not written, so it reads back as `None`.
pub open spec fn favorite_read_back(f: FavoriteView) -> FavoriteView {
    match f {
        FavoriteView::Toggle { scope, platform, id, chat_id } => FavoriteView::Toggle {
            scope,
            platform,
            id,
            chat_id: if scope == FavoriteScope::User {
                None
            } else {
                chat_id
            },
        },
        FavoriteView::AskRemove { scope, platform, id, chat_id } => FavoriteView::AskRemove {
            scope,
            platform,
            id,
            chat_id: if scope == FavoriteScope::User {
                None
            } else {
                chat_id
            },
        },
        FavoriteView::Remove { scope, platform, id, chat_id } => FavoriteView::Remove {
            scope,
            platform,
            id,
            chat_id: if scope == FavoriteScope::User {
                None
            } else {
                chat_id
            },
        },
        FavoriteView::List { scope, chat_id } => FavoriteView::List {
            scope,
            chat_id: if scope == FavoriteScope::User {
                None
            } else {
                chat_id
            },
        },
        FavoriteView::Close => FavoriteView::Close,
    }
}

/// Actions as they read back from their callback data: a select action keeps
/// its trimmed keyword only when the keyword fit into the data, and the chat
/// of a personal favorite action is not written.
pub open spec fn read_back(a: ActionView) -> ActionView {
    match a {
        ActionView::Select { platform, id, search_keyword } => ActionView::Select {
            platform,
            id,
            search_keyword: if select_payload(platform, id, search_keyword) == "music d "@
                + platform_code(platform) + " "@ + id {
                None
            } else {
                select_keyword(search_keyword)
            },
        },
        ActionView::Favorite(f) => ActionView::Favorite(favorite_read_back(f)),
        _ => a,
    }
}

/// The fields an action carries read back unchanged: ids that are followed
/// by a space in the data hold no space, and ids and qualities that the data
/// separates by whitespace hold no whitespace.
pub open spec fn fields_read_back(a: ActionView) -> bool {
    match a {
        ActionView::Select { id, .. } => !id.contains(' '),
        ActionView::Lyrics(_, id, _) => !id.contains(' '),
        ActionView::InlineLyrics(_, id, _) => !id.contains(' '),
        ActionView::InlineSend { id, quality, .. } => crate::text::no_ws(id) && crate::text::no_ws(
            quality,
        ),
        ActionView::Favorite(f) => match f {
            FavoriteView::Toggle { id, .. } => crate::text::no_ws(id),
            FavoriteView::AskRemove { id, .. } => crate::text::no_ws(id),
            FavoriteView::Remove { id, .. } => crate::text::no_ws(id),
            _ => true,
        },
        _ => true,
    }
}

pub proof fn lemma_platform_code(p: MusicPlatform)
    ensures
        platform_of_code(platform_code(p)) == Some(p),
        !platform_code(p).contains(' '),
        platform_code(p).len() == 1,
        crate::text::no_ws(platform_code(p)),
{
    reveal_strlit("a");
    reveal_strlit("b");
    reveal_strlit("k");
    reveal_strlit("n");
    reveal_strlit("s");
    reveal_strlit("t");
    let c = platform_code(p);
    assert(c.len() == 1);
    assert(!crate::text::is_ws(c[0]));
    if c.contains(' ') {
        assert(c[0] == ' ');
    }
}

proof fn lemma_script_code(s: MusicLyricScript)
    ensures
        script_of_code(script_code(s)) == Some(s),
        !script_code(s).contains(' '),
        script_code(s).len() == 1,
        crate::text::no_ws(script_code(s)),
{
    reveal_strlit("s");
    reveal_strlit("t");
    let c = script_code(s);
    assert(!crate::text::is_ws(c[0]));
    if c.contains(' ') {
        assert(c[0] == ' ');
    }
}

proof fn lemma_scope_code(s: FavoriteScope)
    ensures
        scope_of_code(scope_code(s)) == Some(s),
        scope_code(s).len() == 1,
        crate::text::no_ws(scope_code(s)),
{
    reveal_strlit("u");
    reveal_strlit("g");
    let c = scope_code(s);
    assert(!crate::text::is_ws(c[0]));
}

/// Integer text holds no whitespace and is never empty.
proof fn lemma_int_text_word(x: i64)
    ensures
        int_text(x as int).len() > 0,
        crate::text::no_ws(int_text(x as int)),
        !int_text(x as int).contains(' '),
{
    reveal_strlit(" ");
    let t = int_text(x as int);
    if x < 0 {
        crate::num::lemma_digits_of((-x) as nat);
        let d = crate::num::digits_of((-x) as nat);
        assert forall|i: int| 0 <= i < t.len() implies !crate::text::is_ws(#[trigger] t[i]) by {
            if i > 0 {
                assert(t[i] == d[i - 1]);
                assert(crate::text::is_digit(d[i - 1]));
            }
        }
    } else {
        crate::num::lemma_digits_of(x as nat);
        assert forall|i: int| 0 <= i < t.len() implies !crate::text::is_ws(#[trigger] t[i]) by {
            assert(crate::text::is_digit(t[i]));
        }
    }
    assert(!crate::text::is_ws(' ') ==> false);
    if t.contains(' ') {
        let i = choose|i: int| 0 <= i < t.len() && t[i] == ' ';
        assert(!crate::text::is_ws(t[i]));
    }
}

proof fn lemma_no_ws_no_space(s: Seq<char>)
    requires
        crate::text::no_ws(s),
    ensures
        !s.contains(' '),
{
    if s.contains(' ') {
        let i = choose|i: int| 0 <= i < s.len() && s[i] == ' ';
        assert(!crate::text::is_ws(s[i]));
    }
}

/// The data strip to `rest` once its `"music "` is removed.
proof fn lemma_strip_music(rest: Seq<char>)
    ensures
        strip_music_prefix("music "@ + rest) == rest,
{
    reveal(strip_music_prefix);
    reveal_strlit("music ");
    reveal_strlit("music");
    reveal_strlit(" ");
    let d = "music "@ + rest;
    assert(d.take(5) =~= "music"@);
    assert(d.skip(5).take(1) =~= " "@);
    assert(d.skip(6) =~= rest);
}

/// `a b c` splits into `a`, `b` and `c` when `a` and `b` hold no space.
proof fn lemma_split3(a: Seq<char>, b: Seq<char>, c: Seq<char>)
    requires
        !a.contains(' '),
        !b.contains(' '),
    ensures
        split3(a + " "@ + b + " "@ + c) == (a, Some(b), Some(c)),
{
    reveal(split3);
    reveal_strlit(" ");
    let s = a + " "@ + b + " "@ + c;
    assert(s =~= a + seq![' '] + (b + seq![' '] + c));
    crate::text::lemma_split_once_concat(a, ' ', b + seq![' '] + c);
    crate::text::lemma_split_once_concat(b, ' ', c);
}

/// Encoded actions read back as they were, up to what the data does not
/// carry (see `read_back`), for all actions whose fields survive the
/// splitting (see `fields_read_back`).
pub proof fn lemma_callback_roundtrip(a: ActionView)
    requires
        fields_read_back(a),
        encode_spec(a) is Some,
    ensures
        decode_spec(encode_spec(a).unwrap()) == Ok::<ActionView, Seq<char>>(read_back(a)),
{
    match a {
        ActionView::SearchMore(pl, k) => lemma_rt_search(pl, k),
        ActionView::Select { platform, id, search_keyword } => lemma_rt_select(
            platform,
            id,
            search_keyword,
        ),
        ActionView::Cover(pl, id) => lemma_rt_word(a, "c"@, pl, id),
        ActionView::Lyrics(pl, id, sc) => lemma_rt_lyrics(pl, id, sc),
        ActionView::InlineLyrics(pl, id, sc) => lemma_rt_inline_lyrics(pl, id, sc),
        ActionView::InlineSend { platform, id, quality, requester_id } => lemma_rt_inline_send(
            platform,
            id,
            quality,
            requester_id,
        ),
        ActionView::Favorite(f) => lemma_favorite_roundtrip(f),
        ActionView::Setting(st) => lemma_rt_setting(st),
        ActionView::Close => {
            reveal_strlit(" ");
            reveal_strlit("music close");
            reveal_strlit("music ");
            reveal_strlit("close");
            reveal_strlit("setting");
            reveal_strlit("fav");
            assert("close"@.len() == 5 && "setting"@.len() == 7 && "fav"@.len() == 3);
            assert("close"@[0] == 'c' && "close"@[1] == 'l' && "close"@[2] == 'o');
            assert("close"@[3] == 's' && "close"@[4] == 'e');
            let p = encode_spec(a).unwrap();
            assert(p =~= "music "@ + "close"@);
            lemma_strip_music("close"@);
            crate::text::lemma_split_once_none("close"@, ' ');
            reveal(split3);
        },
    }
}

proof fn lemma_action_words()
    ensures
        "s"@ != "setting"@ && "s"@ != "fav"@ && "s"@ != "close"@,
        "d"@ != "setting"@ && "d"@ != "fav"@ && "d"@ != "close"@ && "d"@ != "s"@,
        "c"@ != "setting"@ && "c"@ != "fav"@ && "c"@ != "close"@ && "c"@ != "s"@ && "c"@ != "d"@,
        "lyric"@ != "setting"@ && "lyric"@ != "fav"@ && "lyric"@ != "close"@ && "lyric"@ != "s"@
            && "lyric"@ != "d"@ && "lyric"@ != "c"@,
        "ilyric"@ != "setting"@ && "ilyric"@ != "fav"@ && "ilyric"@ != "close"@ && "ilyric"@
            != "s"@ && "ilyric"@ != "d"@ && "ilyric"@ != "c"@ && "ilyric"@ != "lyric"@,
        "i"@ != "setting"@ && "i"@ != "fav"@ && "i"@ != "close"@ && "i"@ != "s"@ && "i"@ != "d"@
            && "i"@ != "c"@ && "i"@ != "lyric"@ && "i"@ != "ilyric"@,
        !"s"@.contains(' ') && !"d"@.contains(' ') && !"c"@.contains(' ') && !"lyric"@.contains(
            ' ',
        ) && !"ilyric"@.contains(' ') && !"i"@.contains(' ') && !"setting"@.contains(' '),
{
    reveal_strlit("s");
    reveal_strlit("d");
    reveal_strlit("c");
    reveal_strlit("i");
    reveal_strlit("lyric");
    reveal_strlit("ilyric");
    reveal_strlit("setting");
    reveal_strlit("fav");
    reveal_strlit("close");
    assert("s"@.len() == 1 && "d"@.len() == 1 && "c"@.len() == 1 && "i"@.len() == 1);
    assert("setting"@.len() == 7 && "fav"@.len() == 3 && "close"@.len() == 5);
    assert("lyric"@.len() == 5 && "ilyric"@.len() == 6);
    assert("s"@[0] == 's' && "d"@[0] == 'd' && "c"@[0] == 'c' && "i"@[0] == 'i');
    assert("lyric"@[0] == 'l' && "close"@[0] == 'c' && "close"@[1] == 'l');
    assert(!"lyric"@.contains(' '));
    assert(!"ilyric"@.contains(' '));
    assert(!"setting"@.contains(' '));
    assert(!"s"@.contains(' '));
    assert(!"d"@.contains(' '));
    assert(!"c"@.contains(' '));
    assert(!"i"@.contains(' '));
}

/// Data `"music {w} {code} {v}"` reads as a track action `w` on the
/// platform of the code, with value `v`.
proof fn lemma_track_data(w: Seq<char>, pl: MusicPlatform, v: Seq<char>, p: Seq<char>)
    requires
        p == "music "@ + (w + " "@ + platform_code(pl) + " "@ + v),
        !w.contains(' '),
        w != "setting"@,
        w != "fav"@,
        w != "close"@,
    ensures
        decode_spec(p) == decode_track_spec(w, pl, v),
{
    lemma_platform_code(pl);
    lemma_strip_music(w + " "@ + platform_code(pl) + " "@ + v);
    lemma_split3(w, platform_code(pl), v);
}

proof fn lemma_rt_word(a: ActionView, w: Seq<char>, pl: MusicPlatform, id: Seq<char>)
    requires
        a == ActionView::Cover(pl, id),
        w == "c"@,
        encode_spec(a) is Some,
    ensures
        decode_spec(encode_spec(a).unwrap()) == Ok::<ActionView, Seq<char>>(read_back(a)),
{
    reveal_strlit("music c ");
    reveal_strlit("music ");
    reveal_strlit("c");
    reveal_strlit(" ");
    lemma_action_words();
    reveal(decode_track_spec);
    let p = encode_spec(a).unwrap();
    assert(p =~= "music "@ + ("c"@ + " "@ + platform_code(pl) + " "@ + id));
    lemma_track_data("c"@, pl, id, p);
}

proof fn lemma_rt_search(pl: MusicPlatform, k: Seq<char>)
    requires
        encode_spec(ActionView::SearchMore(pl, k)) is Some,
    ensures
        decode_spec(encode_spec(ActionView::SearchMore(pl, k)).unwrap()) == Ok::<
            ActionView,
            Seq<char>,
        >(ActionView::SearchMore(pl, k)),
{
    reveal_strlit("music s ");
    reveal_strlit("music ");
    reveal_strlit("s");
    reveal_strlit(" ");
    lemma_action_words();
    reveal(decode_track_spec);
    let e = url_encode_spec(k);
    crate::urlcodec::lemma_url_encode_bytes(k);
    crate::urlcodec::lemma_url_roundtrip(k, e);
    let p = encode_spec(ActionView::SearchMore(pl, k)).unwrap();
    assert(p =~= "music "@ + ("s"@ + " "@ + platform_code(pl) + " "@ + e));
    lemma_track_data("s"@, pl, e, p);
}

proof fn lemma_rt_select(platform: MusicPlatform, id: Seq<char>, search_keyword: Option<Seq<char>>)
    requires
        !id.contains(' '),
        encode_spec(ActionView::Select { platform, id, search_keyword }) is Some,
    ensures
        decode_spec(encode_spec(ActionView::Select { platform, id, search_keyword }).unwrap())
            == Ok::<ActionView, Seq<char>>(
            read_back(ActionView::Select { platform, id, search_keyword }),
        ),
{
    reveal_strlit("music d ");
    reveal_strlit("music ");
    reveal_strlit("d");
    reveal_strlit(" ");
    lemma_action_words();
    reveal(decode_track_spec);
    let a = ActionView::Select { platform, id, search_keyword };
    let p = encode_spec(a).unwrap();
    let base = "music d "@ + platform_code(platform) + " "@ + id;
    if p == base {
        assert(p =~= "music "@ + ("d"@ + " "@ + platform_code(platform) + " "@ + id));
        lemma_track_data("d"@, platform, id, p);
        crate::text::lemma_split_once_none(id, ' ');
    } else {
        let t = select_keyword(search_keyword).unwrap();
        let e = url_encode_spec(t);
        crate::urlcodec::lemma_url_encode_bytes(t);
        crate::urlcodec::lemma_url_roundtrip(t, e);
        crate::text::lemma_trim_idempotent(search_keyword.unwrap());
        let v = id + " "@ + e;
        assert(p =~= "music "@ + ("d"@ + " "@ + platform_code(platform) + " "@ + v));
        lemma_track_data("d"@, platform, v, p);
        assert(id + seq![' '] + e =~= v);
        crate::text::lemma_split_once_concat(id, ' ', e);
        assert(decoded_keyword(e) == Some(t));
    }
}

proof fn lemma_rt_lyrics(pl: MusicPlatform, id: Seq<char>, sc: Option<MusicLyricScript>)
    requires
        !id.contains(' '),
        encode_spec(ActionView::Lyrics(pl, id, sc)) is Some,
    ensures
        decode_spec(encode_spec(ActionView::Lyrics(pl, id, sc)).unwrap()) == Ok::<
            ActionView,
            Seq<char>,
        >(ActionView::Lyrics(pl, id, sc)),
{
    reveal_strlit("music lyric ");
    reveal_strlit("music ");
    reveal_strlit("lyric");
    reveal_strlit(" ");
    lemma_action_words();
    reveal(decode_track_spec);
    let p = encode_spec(ActionView::Lyrics(pl, id, sc)).unwrap();
    let v = id + match sc {
        Some(s) => " "@ + script_code(s),
        None => Seq::<char>::empty(),
    };
    assert(p =~= "music "@ + ("lyric"@ + " "@ + platform_code(pl) + " "@ + v));
    lemma_track_data("lyric"@, pl, v, p);
    match sc {
        Some(s) => {
            lemma_script_code(s);
            crate::text::lemma_split_once_concat(id, ' ', script_code(s));
            assert(id + seq![' '] + script_code(s) =~= v);
        },
        None => {
            assert(v =~= id);
            crate::text::lemma_split_once_none(id, ' ');
        },
    }
}

proof fn lemma_rt_inline_lyrics(pl: MusicPlatform, id: Seq<char>, sc: MusicLyricScript)
    requires
        !id.contains(' '),
        encode_spec(ActionView::InlineLyrics(pl, id, sc)) is Some,
    ensures
        decode_spec(encode_spec(ActionView::InlineLyrics(pl, id, sc)).unwrap()) == Ok::<
            ActionView,
            Seq<char>,
        >(ActionView::InlineLyrics(pl, id, sc)),
{
    reveal_strlit("music ilyric ");
    reveal_strlit("music ");
    reveal_strlit("ilyric");
    reveal_strlit(" ");
    lemma_action_words();
    reveal(decode_track_spec);
    lemma_script_code(sc);
    let p = encode_spec(ActionView::InlineLyrics(pl, id, sc)).unwrap();
    let v = id + " "@ + script_code(sc);
    assert(p =~= "music "@ + ("ilyric"@ + " "@ + platform_code(pl) + " "@ + v));
    lemma_track_data("ilyric"@, pl, v, p);
    crate::text::lemma_split_once_concat(id, ' ', script_code(sc));
    assert(id + seq![' '] + script_code(sc) =~= v);
}

proof fn lemma_rt_inline_send(
    platform: MusicPlatform,
    id: Seq<char>,
    quality: Seq<char>,
    requester_id: i64,
)
    requires
        crate::text::no_ws(id),
        crate::text::no_ws(quality),
        encode_spec(ActionView::InlineSend { platform, id, quality, requester_id }) is Some,
    ensures
        decode_spec(
            encode_spec(ActionView::InlineSend { platform, id, quality, requester_id }).unwrap(),
        ) == Ok::<ActionView, Seq<char>>(
            ActionView::InlineSend { platform, id, quality, requester_id },
        ),
{
    reveal_strlit("music i ");
    reveal_strlit("music ");
    reveal_strlit("i");
    reveal_strlit(" ");
    lemma_action_words();
    reveal(decode_track_spec);
    let a = ActionView::InlineSend { platform, id, quality, requester_id };
    let p = encode_spec(a).unwrap();
    let n = int_text(requester_id as int);
    lemma_int_text_word(requester_id);
    crate::num::lemma_parse_int_text(requester_id);
    let v = id + " "@ + quality + " "@ + n;
    assert(p =~= "music "@ + ("i"@ + " "@ + platform_code(platform) + " "@ + v));
    lemma_track_data("i"@, platform, v, p);
    crate::text::lemma_trim_start_shape(id);
    crate::text::lemma_trim_start_shape(quality);
    crate::text::lemma_trim_end_shape(crate::text::trim_start_spec(id));
    crate::text::lemma_trim_end_shape(crate::text::trim_start_spec(quality));
    let words = seq![id, quality, n];
    reveal_with_fuel(spaced, 4);
    assert(v =~= spaced(words));
    assert forall|i: int| 0 <= i < words.len() implies #[trigger] words[i].len() > 0
        && crate::text::no_ws(words[i]) by {}
    lemma_tokens_of_words(words);
}

proof fn lemma_rt_setting(st: SettingView)
    requires
        encode_spec(ActionView::Setting(st)) is Some,
    ensures
        decode_spec(encode_spec(ActionView::Setting(st)).unwrap()) == Ok::<
            ActionView,
            Seq<char>,
        >(ActionView::Setting(st)),
{
    reveal_strlit(" ");
    reveal_strlit("music ");
    reveal_strlit("music setting platform ");
    reveal_strlit("music setting quality ");
    reveal_strlit("music setting cover ");
    reveal_strlit("music setting lyric_script ");
    reveal_strlit("setting");
    reveal_strlit("platform");
    reveal_strlit("quality");
    reveal_strlit("cover");
    reveal_strlit("lyric_script");
    reveal_strlit("on");
    reveal_strlit("off");
    lemma_action_words();
    let p = encode_spec(ActionView::Setting(st)).unwrap();
    let (w, v) = match st {
        SettingView::Platform(v) => ("platform"@, v),
        SettingView::Quality(v) => ("quality"@, v),
        SettingView::Cover(b) => (
            "cover"@,
            if b {
                "on"@
            } else {
                "off"@
            },
        ),
        SettingView::LyricScript(v) => ("lyric_script"@, v),
    };
    assert(!w.contains(' '));
    assert(p =~= "music "@ + ("setting"@ + " "@ + w + " "@ + v));
    lemma_strip_music("setting"@ + " "@ + w + " "@ + v);
    lemma_split3("setting"@, w, v);
    reveal(decode_setting_spec);
}

/// The words of a favorite action on a track, after `"music fav "`.
pub open spec fn fav_track_words(
    w: Seq<char>,
    scope: FavoriteScope,
    platform: MusicPlatform,
    id: Seq<char>,
    chat_id: Option<i64>,
) -> Seq<Seq<char>> {
    if scope == FavoriteScope::User {
        seq![w, scope_code(scope), platform_code(platform), id]
    } else {
        seq![w, scope_code(scope), int_text(chat_id.unwrap() as int), platform_code(platform), id]
    }
}

/// Data `"music fav {words}"` reads as the favorite action its words give.
proof fn lemma_fav_data(words: Seq<Seq<char>>, p: Seq<char>)
    requires
        words.len() > 0,
        forall|i: int|
            0 <= i < words.len() ==> #[trigger] words[i].len() > 0 && crate::text::no_ws(words[i]),
        p == "music fav "@ + spaced(words),
    ensures
        decode_spec(p) == match favorite_decode_spec(words) {
            Ok(f) => Ok::<ActionView, Seq<char>>(ActionView::Favorite(f)),
            Err(m) => Err(m),
        },
{
    reveal_strlit(" ");
    reveal_strlit("music ");
    reveal_strlit("music fav ");
    reveal_strlit("fav");
    reveal_strlit("fav ");
    reveal_strlit("setting");
    assert("fav"@.len() == 3 && "setting"@.len() == 7);
    let src = spaced(words);
    let body = "fav "@ + src;
    assert(p =~= "music "@ + body);
    lemma_strip_music(body);
    assert(body =~= "fav"@ + seq![' '] + src);
    assert(!"fav"@.contains(' '));
    crate::text::lemma_split_once_concat("fav"@, ' ', src);
    reveal(split3);
    assert(body.take(4) =~= "fav "@);
    assert(body.skip(4) =~= src);
    lemma_tokens_of_words(words);
}

proof fn lemma_fav_track_words_ok(
    w: Seq<char>,
    scope: FavoriteScope,
    platform: MusicPlatform,
    id: Seq<char>,
    chat_id: Option<i64>,
)
    requires
        w == "t"@ || w == "ask"@ || w == "rm"@,
        is_token(id),
        crate::text::no_ws(id),
        scope == FavoriteScope::Group ==> chat_id is Some,
    ensures
        ({
            let words = fav_track_words(w, scope, platform, id, chat_id);
            &&& words.len() > 0
            &&& forall|i: int|
                0 <= i < words.len() ==> #[trigger] words[i].len() > 0 && crate::text::no_ws(
                    words[i],
                )
        }),
{
    reveal_strlit("t");
    reveal_strlit("ask");
    reveal_strlit("rm");
    lemma_scope_code(scope);
    lemma_platform_code(platform);
    crate::text::lemma_trim_start_shape(id);
    crate::text::lemma_trim_end_shape(crate::text::trim_start_spec(id));
    if chat_id is Some {
        lemma_int_text_word(chat_id.unwrap());
    }
    assert(crate::text::no_ws(w));
    let words = fav_track_words(w, scope, platform, id, chat_id);
    assert forall|i: int| 0 <= i < words.len() implies #[trigger] words[i].len() > 0
        && crate::text::no_ws(words[i]) by {}
}

proof fn lemma_favorite_roundtrip(f: FavoriteView)
    requires
        fields_read_back(ActionView::Favorite(f)),
        encode_spec(ActionView::Favorite(f)) is Some,
    ensures
        decode_spec(encode_spec(ActionView::Favorite(f)).unwrap()) == Ok::<ActionView, Seq<char>>(
            ActionView::Favorite(favorite_read_back(f)),
        ),
{
    reveal_strlit(" ");
    reveal_strlit("music fav ");
    reveal_strlit("music fav list ");
    reveal_strlit("music fav close");
    reveal_strlit("close");
    reveal_strlit("list");
    reveal_strlit("t");
    reveal_strlit("ask");
    reveal_strlit("rm");
    assert("close"@.len() == 5 && "list"@.len() == 4 && "t"@.len() == 1 && "ask"@.len() == 3
        && "rm"@.len() == 2);
    let p = encode_spec(ActionView::Favorite(f)).unwrap();
    match f {
        FavoriteView::Toggle { scope, platform, id, chat_id } => {
            lemma_fav_track("t"@, scope, platform, id, chat_id, p);
        },
        FavoriteView::AskRemove { scope, platform, id, chat_id } => {
            lemma_fav_track("ask"@, scope, platform, id, chat_id, p);
        },
        FavoriteView::Remove { scope, platform, id, chat_id } => {
            lemma_fav_track("rm"@, scope, platform, id, chat_id, p);
        },
        FavoriteView::List { scope, chat_id } => {
            lemma_scope_code(scope);
            let words = if scope == FavoriteScope::User {
                seq!["list"@, scope_code(scope)]
            } else {
                seq!["list"@, scope_code(scope), int_text(chat_id.unwrap() as int)]
            };
            if chat_id is Some && scope == FavoriteScope::Group {
                lemma_int_text_word(chat_id.unwrap());
                crate::num::lemma_parse_int_text(chat_id.unwrap());
            }
            assert(crate::text::no_ws("list"@));
            assert forall|i: int| 0 <= i < words.len() implies #[trigger] words[i].len() > 0
                && crate::text::no_ws(words[i]) by {}
            reveal_with_fuel(spaced, 4);
            assert(p =~= "music fav "@ + spaced(words));
            lemma_fav_data(words, p);
            reveal(favorite_decode_spec);
        },
        FavoriteView::Close => {
            let words = seq!["close"@];
            assert(crate::text::no_ws("close"@));
            reveal_with_fuel(spaced, 2);
            assert(p =~= "music fav "@ + spaced(words));
            lemma_fav_data(words, p);
            reveal(favorite_decode_spec);
        },
    }
}

/// The favorite action on a track that the words `w` name.
pub open spec fn fav_track_view(
    w: Seq<char>,
    scope: FavoriteScope,
    platform: MusicPlatform,
    id: Seq<char>,
    chat_id: Option<i64>,
) -> FavoriteView {
    let chat_id = if scope == FavoriteScope::User {
        None
    } else {
        chat_id
    };
    if w == "t"@ {
        FavoriteView::Toggle { scope, platform, id, chat_id }
    } else if w == "ask"@ {
        FavoriteView::AskRemove { scope, platform, id, chat_id }
    } else {
        FavoriteView::Remove { scope, platform, id, chat_id }
    }
}

proof fn lemma_fav_track_decode(
    w: Seq<char>,
    scope: FavoriteScope,
    platform: MusicPlatform,
    id: Seq<char>,
    chat_id: Option<i64>,
)
    requires
        w == "t"@ || w == "ask"@ || w == "rm"@,
        scope == FavoriteScope::Group ==> chat_id is Some,
    ensures
        favorite_decode_spec(fav_track_words(w, scope, platform, id, chat_id)) == Ok::<
            FavoriteView,
            Seq<char>,
        >(fav_track_view(w, scope, platform, id, chat_id)),
{
    reveal_strlit("close");
    reveal_strlit("list");
    reveal_strlit("t");
    reveal_strlit("ask");
    reveal_strlit("rm");
    assert("close"@.len() == 5 && "list"@.len() == 4 && "t"@.len() == 1 && "ask"@.len() == 3
        && "rm"@.len() == 2);
    lemma_scope_code(scope);
    lemma_platform_code(platform);
    if chat_id is Some && scope == FavoriteScope::Group {
        crate::num::lemma_parse_int_text(chat_id.unwrap());
    }
    reveal(favorite_decode_spec);
}

#[verifier::spinoff_prover]
#[verifier::rlimit(40)]
proof fn lemma_fav_track(
    w: Seq<char>,
    scope: FavoriteScope,
    platform: MusicPlatform,
    id: Seq<char>,
    chat_id: Option<i64>,
    p: Seq<char>,
)
    requires
        w == "t"@ || w == "ask"@ || w == "rm"@,
        crate::text::no_ws(id),
        favorite_payload_spec(w, scope, platform, id, chat_id) == Some(p),
    ensures
        decode_spec(p) == Ok::<ActionView, Seq<char>>(
            ActionView::Favorite(fav_track_view(w, scope, platform, id, chat_id)),
        ),
{
    reveal_strlit(" ");
    reveal_strlit("music fav ");
    lemma_fav_track_words_ok(w, scope, platform, id, chat_id);
    let words = fav_track_words(w, scope, platform, id, chat_id);
    reveal_with_fuel(spaced, 6);
    assert(p =~= "music fav "@ + spaced(words));
    lemma_fav_data(words, p);
    lemma_fav_track_decode(w, scope, platform, id, chat_id);
}

/// Words joined by single spaces, from the front.
pub open spec fn spaced(words: Seq<Seq<char>>) -> Seq<char>
    decreases words.len(),
{
    if words.len() <= 1 {
        if words.len() == 1 {
            words[0]
        } else {
            Seq::<char>::empty()
        }
    } else {
        words[0] + seq![' '] + spaced(words.drop_first())
    }
}

/// The whitespace-separated words of text made of non-empty words without
/// whitespace, joined by spaces, are those words.
proof fn lemma_tokens_of_words(words: Seq<Seq<char>>)
    requires
        words.len() > 0,
        forall|i: int|
            0 <= i < words.len() ==> #[trigger] words[i].len() > 0 && crate::text::no_ws(words[i]),
    ensures
        ws_tokens(spaced(words)) == words,
    decreases words.len(),
{
    if words.len() == 1 {
        crate::text::lemma_ws_tokens_single(words[0]);
        assert(seq![words[0]] =~= words);
    } else {
        let rest = words.drop_first();
        assert forall|i: int| 0 <= i < rest.len() implies #[trigger] rest[i].len() > 0
            && crate::text::no_ws(rest[i]) by {
            assert(rest[i] == words[i + 1]);
        }
        lemma_tokens_of_words(rest);
        crate::text::lemma_ws_tokens_concat(words[0], spaced(rest));
        crate::text::lemma_ws_tokens_single(words[0]);
        assert(seq![words[0]] + rest =~= words);
    }
}

} // verus!
