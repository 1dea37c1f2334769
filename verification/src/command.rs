//! The `/music` command: its parsed subcommands and the action each asks
//! for.
use vstd::prelude::*;
use crate::callback::FavoriteScope;
use crate::error::BotError;
use crate::music_text::parse_optional_platform;
use crate::provider::{
    build_legacy_query_with_default, build_query_with_platform, empty_query_message,
    platform_of_alias, query_keyword, MusicPlatform, MusicQuery,
};
use crate::settings::{settings_platform, UserMusicSettings};
use crate::text::strip_leading;

verus! {

/// A subcommand of `/music` with its arguments.
#[derive(Clone, Debug)]
pub enum MusicSubcommand {
    Search { platform: Option<String>, query: Vec<String> },
    Get { platform: Option<String>, query: Vec<String> },
    Setting,
    Favorite { scope: FavoriteScope },
    Collection { platform: Option<String>, query: Vec<String> },
}

/// The parsed `/music` command: a subcommand, or the words of the older
/// form `/music [platform] keyword`.
#[derive(Clone, Debug)]
pub struct MusicCmd {
    pub command: Option<MusicSubcommand>,
    pub query: Vec<String>,
}

/// What a `/music` command asks for.
#[derive(Clone, Debug)]
pub enum MusicAction {
    Get(MusicQuery),
    Search(MusicQuery),
    Setting,
    Favorite(FavoriteScope),
    Collection(MusicQuery),
}

/// Which query action a subcommand makes.
#[derive(Clone, Copy, Debug, PartialEq, Eq, Structural)]
pub enum QueryKind {
    Get,
    Search,
    Collection,
}

/// The action of the kind holding a query on `p` for `keyword`.
pub open spec fn is_query_action(a: MusicAction, kind: QueryKind, p: MusicPlatform, keyword: Seq<char>) -> bool {
    match a {
        MusicAction::Get(q) => kind == QueryKind::Get && q.platform == p && q.keyword@ == keyword,
        MusicAction::Search(q) => kind == QueryKind::Search && q.platform == p && q.keyword@
            == keyword,
        MusicAction::Collection(q) => kind == QueryKind::Collection && q.platform == p
            && q.keyword@ == keyword,
        _ => false,
    }
}

/// A query action of the kind on `p` for the parts joined by spaces, or the
/// empty-query error when that keyword is blank.
pub open spec fn query_action_result(
    r: Result<MusicAction, BotError>,
    kind: QueryKind,
    p: MusicPlatform,
    parts: Seq<String>,
) -> bool {
    let kw = query_keyword(parts);
    if kw.len() == 0 {
        r matches Err(BotError::Custom(m)) && m@ == empty_query_message()
    } else {
        r matches Ok(a) && is_query_action(a, kind, p, kw)
    }
}

/// A query action whose platform is named by an optional alias, falling
/// back to the user's default; an unknown alias is an error that quotes it.
pub open spec fn aliased_query_result(
    r: Result<MusicAction, BotError>,
    kind: QueryKind,
    alias: Option<String>,
    default_platform: MusicPlatform,
    parts: Seq<String>,
) -> bool {
    match alias {
        Some(a) => match platform_of_alias(a@) {
            Some(p) => query_action_result(r, kind, p, parts),
            None => r matches Err(BotError::Custom(m)) && m@ == "暂不支持音乐平台："@ + a@,
        },
        None => query_action_result(r, kind, default_platform, parts),
    }
}

/// The user's default platform: the one the stored setting names, else QQ
/// Music.
pub open spec fn user_platform(settings: UserMusicSettings) -> MusicPlatform {
    match platform_of_alias(settings.default_platform@) {
        Some(p) => p,
        None => crate::provider::default_platform_spec(),
    }
}

fn query_action(kind: QueryKind, q: MusicQuery) -> (r: MusicAction)
    ensures
        is_query_action(r, kind, q.platform, q.keyword@),
{
    match kind {
        QueryKind::Get => MusicAction::Get(q),
        QueryKind::Search => MusicAction::Search(q),
        QueryKind::Collection => MusicAction::Collection(q),
    }
}

fn aliased_query(
    kind: QueryKind,
    alias: &Option<String>,
    default_platform: MusicPlatform,
    parts: &Vec<String>,
) -> (r: Result<MusicAction, BotError>)
    ensures
        aliased_query_result(r, kind, *alias, default_platform, parts@),
{
    let a = match alias {
        Some(s) => Some(s.as_str()),
        None => None,
    };
    let platform = match parse_optional_platform(a, default_platform) {
        Ok(p) => p,
        Err(e) => return Err(e),
    };
    match build_query_with_platform(platform, parts.as_slice()) {
        Ok(q) => Ok(query_action(kind, q)),
        Err(e) => Err(e),
    }
}

impl MusicAction {
    /// The action of a command: a query subcommand on its platform or the
    /// user's default, the settings or favorites it opens, or, for the
    /// older form, a download on the platform its first word names (without
    /// leading `#`) or the user's default.
    pub fn from_cmd(cmd: MusicCmd, settings: &UserMusicSettings) -> (r: Result<Self, BotError>)
        ensures
            match cmd.command {
                Some(MusicSubcommand::Search { platform, query }) => aliased_query_result(
                    r,
                    QueryKind::Search,
                    platform,
                    user_platform(*settings),
                    query@,
                ),
                Some(MusicSubcommand::Get { platform, query }) => aliased_query_result(
                    r,
                    QueryKind::Get,
                    platform,
                    user_platform(*settings),
                    query@,
                ),
                Some(MusicSubcommand::Setting) => r matches Ok(MusicAction::Setting),
                Some(MusicSubcommand::Favorite { scope }) => r matches Ok(MusicAction::Favorite(s))
                    && s == scope,
                Some(MusicSubcommand::Collection { platform, query }) => aliased_query_result(
                    r,
                    QueryKind::Collection,
                    platform,
                    user_platform(*settings),
                    query@,
                ),
                None => {
                    let args = cmd.query@;
                    if args.len() > 0 && platform_of_alias(strip_leading(args[0]@, '#')) is Some {
                        query_action_result(
                            r,
                            QueryKind::Get,
                            platform_of_alias(strip_leading(args[0]@, '#')).unwrap(),
                            args.drop_first(),
                        )
                    } else {
                        query_action_result(r, QueryKind::Get, user_platform(*settings), args)
                    }
                },
            },
    {
        let default_platform = settings_platform(settings);
        match cmd.command {
            Some(MusicSubcommand::Search { platform, query }) => aliased_query(
                QueryKind::Search,
                &platform,
                default_platform,
                &query,
            ),
            Some(MusicSubcommand::Get { platform, query }) => aliased_query(
                QueryKind::Get,
                &platform,
                default_platform,
                &query,
            ),
            Some(MusicSubcommand::Setting) => Ok(MusicAction::Setting),
            Some(MusicSubcommand::Favorite { scope }) => Ok(MusicAction::Favorite(scope)),
            Some(MusicSubcommand::Collection { platform, query }) => aliased_query(
                QueryKind::Collection,
                &platform,
                default_platform,
                &query,
            ),
            None => match build_legacy_query_with_default(default_platform, cmd.query.as_slice()) {
                Ok(q) => Ok(MusicAction::Get(q)),
                Err(e) => Err(e),
            },
        }
    }
}

} // verus!
