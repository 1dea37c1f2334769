//! Music platforms, queries and tracks.
use vstd::prelude::*;
use crate::error::BotError;
use crate::text::{
    after_last, all_alnum, before_first, chars_of, check_all_alnum, eq_str, extend_chars,
    extend_str, has_prefix, join_spec, join_strings, lower_spec, norm_key, normalized_key,
    starts_with_str, string_of, strip_leading, take_after_last, take_before_first,
    to_ascii_lowercase, trim_chars, trim_spec, trim_start_matches, views, lemma_norm_key_fixed,
    lemma_norm_key_idempotent,
};
use std::collections::HashMap;

verus! {

/// A music platform the bot can search and download from.
#[derive(Clone, Copy, Debug, PartialEq, Eq, Structural, Hash)]
pub enum MusicPlatform {
    AppleMusic,
    Bilibili,
    Kugou,
    Netease,
    Soda,
    Tencent,
}

/// Platform behind an alias, once trimmed and ASCII-lower-cased.
pub open spec fn platform_of_key(k: Seq<char>) -> Option<MusicPlatform> {
    if k == "am"@ || k == "apple"@ || k == "applemusic"@ || k == "apple-music"@ || k
        == "apple_music"@ || k == "苹果音乐"@ {
        Some(MusicPlatform::AppleMusic)
    } else if k == "b"@ || k == "bili"@ || k == "bilibili"@ || k == "哔哩哔哩"@ || k == "b站"@ {
        Some(MusicPlatform::Bilibili)
    } else if k == "kg"@ || k == "kugou"@ || k == "酷狗"@ || k == "酷狗音乐"@ {
        Some(MusicPlatform::Kugou)
    } else if k == "163"@ || k == "netease"@ || k == "wyy"@ || k == "网易"@ || k == "网易云"@ || k
        == "网易云音乐"@ {
        Some(MusicPlatform::Netease)
    } else if k == "qs"@ || k == "soda"@ || k == "qishui"@ || k == "汽水"@ || k == "汽水音乐"@ {
        Some(MusicPlatform::Soda)
    } else if k == "qq"@ || k == "qqmusic"@ || k == "tencent"@ || k == "tx"@ || k == "qq音乐"@ || k
        == "腾讯"@ || k == "腾讯音乐"@ {
        Some(MusicPlatform::Tencent)
    } else {
        None
    }
}

/// Platform named by a user-typed alias.
pub open spec fn platform_of_alias(alias: Seq<char>) -> Option<MusicPlatform> {
    platform_of_key(norm_key(alias))
}

pub open spec fn platform_id(p: MusicPlatform) -> Seq<char> {
    match p {
        MusicPlatform::AppleMusic => "applemusic"@,
        MusicPlatform::Bilibili => "bilibili"@,
        MusicPlatform::Kugou => "kugou"@,
        MusicPlatform::Netease => "netease"@,
        MusicPlatform::Soda => "soda"@,
        MusicPlatform::Tencent => "tencent"@,
    }
}

pub open spec fn platform_label(p: MusicPlatform) -> Seq<char> {
    match p {
        MusicPlatform::AppleMusic => "Apple Music"@,
        MusicPlatform::Bilibili => "Bilibili"@,
        MusicPlatform::Kugou => "酷狗音乐"@,
        MusicPlatform::Netease => "网易云音乐"@,
        MusicPlatform::Soda => "汽水音乐"@,
        MusicPlatform::Tencent => "QQ音乐"@,
    }
}

/// One-letter code of a platform in callback payloads.
pub open spec fn platform_code(p: MusicPlatform) -> Seq<char> {
    match p {
        MusicPlatform::AppleMusic => "a"@,
        MusicPlatform::Bilibili => "b"@,
        MusicPlatform::Kugou => "k"@,
        MusicPlatform::Netease => "n"@,
        MusicPlatform::Soda => "s"@,
        MusicPlatform::Tencent => "t"@,
    }
}

/// Platform of a one-letter callback code.
pub open spec fn platform_of_code(c: Seq<char>) -> Option<MusicPlatform> {
    if c == "a"@ {
        Some(MusicPlatform::AppleMusic)
    } else if c == "b"@ {
        Some(MusicPlatform::Bilibili)
    } else if c == "k"@ {
        Some(MusicPlatform::Kugou)
    } else if c == "n"@ {
        Some(MusicPlatform::Netease)
    } else if c == "s"@ {
        Some(MusicPlatform::Soda)
    } else if c == "t"@ {
        Some(MusicPlatform::Tencent)
    } else {
        None
    }
}

/// The platform used when none is given or stored: QQ Music.
pub open spec fn default_platform_spec() -> MusicPlatform {
    MusicPlatform::Tencent
}


/// Every platform is named by its id, which is also what it prints as, and
/// an alias names the same platform once trimmed and lower-cased.
pub proof fn lemma_alias_laws(p: MusicPlatform, s: Seq<char>)
    ensures
        platform_of_alias(platform_id(p)) == Some(p),
        platform_of_alias(norm_key(s)) == platform_of_alias(s),
{
    lemma_norm_key_idempotent(s);
    reveal_strlit("am");
    reveal_strlit("apple");
    reveal_strlit("applemusic");
    reveal_strlit("apple-music");
    reveal_strlit("apple_music");
    reveal_strlit("苹果音乐");
    reveal_strlit("b");
    reveal_strlit("bili");
    reveal_strlit("bilibili");
    reveal_strlit("哔哩哔哩");
    reveal_strlit("b站");
    reveal_strlit("kg");
    reveal_strlit("kugou");
    reveal_strlit("酷狗");
    reveal_strlit("酷狗音乐");
    reveal_strlit("163");
    reveal_strlit("netease");
    reveal_strlit("wyy");
    reveal_strlit("网易");
    reveal_strlit("网易云");
    reveal_strlit("网易云音乐");
    reveal_strlit("qs");
    reveal_strlit("soda");
    reveal_strlit("qishui");
    reveal_strlit("汽水");
    reveal_strlit("汽水音乐");
    reveal_strlit("qq");
    reveal_strlit("qqmusic");
    reveal_strlit("tencent");
    reveal_strlit("tx");
    reveal_strlit("qq音乐");
    reveal_strlit("腾讯");
    reveal_strlit("腾讯音乐");
    match p {
        MusicPlatform::AppleMusic => {
            lemma_norm_key_fixed("applemusic"@);
        },
        MusicPlatform::Bilibili => {
            lemma_norm_key_fixed("bilibili"@);
        },
        MusicPlatform::Kugou => {
            lemma_norm_key_fixed("kugou"@);
        },
        MusicPlatform::Netease => {
            lemma_norm_key_fixed("netease"@);
        },
        MusicPlatform::Soda => {
            lemma_norm_key_fixed("soda"@);
        },
        MusicPlatform::Tencent => {
            lemma_norm_key_fixed("tencent"@);
        },
    }
}

impl MusicPlatform {
    pub fn id(self) -> (r: &'static str)
        ensures
            r@ == platform_id(self),
    {
        match self {
            MusicPlatform::AppleMusic => "applemusic",
            MusicPlatform::Bilibili => "bilibili",
            MusicPlatform::Kugou => "kugou",
            MusicPlatform::Netease => "netease",
            MusicPlatform::Soda => "soda",
            MusicPlatform::Tencent => "tencent",
        }
    }

    /// The platform as it prints: its id.
    pub fn to_string(self) -> (r: String)
        ensures
            r@ == platform_id(self),
    {
        String::from_str(self.id())
    }

    pub fn label(self) -> (r: &'static str)
        ensures
            r@ == platform_label(self),
    {
        match self {
            MusicPlatform::AppleMusic => "Apple Music",
            MusicPlatform::Bilibili => "Bilibili",
            MusicPlatform::Kugou => "酷狗音乐",
            MusicPlatform::Netease => "网易云音乐",
            MusicPlatform::Soda => "汽水音乐",
            MusicPlatform::Tencent => "QQ音乐",
        }
    }

    /// The platform an alias names; surrounding whitespace and ASCII case
    /// are ignored.
    pub fn from_alias(alias: &str) -> (r: Option<MusicPlatform>)
        ensures
            r == platform_of_alias(alias@),
    {
        let k = normalized_key(alias);
        if eq_str(&k, "am") || eq_str(&k, "apple") || eq_str(&k, "applemusic") || eq_str(
            &k,
            "apple-music",
        ) || eq_str(&k, "apple_music") || eq_str(&k, "苹果音乐") {
            Some(MusicPlatform::AppleMusic)
        } else if eq_str(&k, "b") || eq_str(&k, "bili") || eq_str(&k, "bilibili") || eq_str(
            &k,
            "哔哩哔哩",
        ) || eq_str(&k, "b站") {
            Some(MusicPlatform::Bilibili)
        } else if eq_str(&k, "kg") || eq_str(&k, "kugou") || eq_str(&k, "酷狗") || eq_str(
            &k,
            "酷狗音乐",
        ) {
            Some(MusicPlatform::Kugou)
        } else if eq_str(&k, "163") || eq_str(&k, "netease") || eq_str(&k, "wyy") || eq_str(
            &k,
            "网易",
        ) || eq_str(&k, "网易云") || eq_str(&k, "网易云音乐") {
            Some(MusicPlatform::Netease)
        } else if eq_str(&k, "qs") || eq_str(&k, "soda") || eq_str(&k, "qishui") || eq_str(
            &k,
            "汽水",
        ) || eq_str(&k, "汽水音乐") {
            Some(MusicPlatform::Soda)
        } else if eq_str(&k, "qq") || eq_str(&k, "qqmusic") || eq_str(&k, "tencent") || eq_str(
            &k,
            "tx",
        ) || eq_str(&k, "qq音乐") || eq_str(&k, "腾讯") || eq_str(&k, "腾讯音乐") {
            Some(MusicPlatform::Tencent)
        } else {
            None
        }
    }

    pub fn callback_code(self) -> (r: &'static str)
        ensures
            r@ == platform_code(self),
    {
        match self {
            MusicPlatform::AppleMusic => "a",
            MusicPlatform::Bilibili => "b",
            MusicPlatform::Kugou => "k",
            MusicPlatform::Netease => "n",
            MusicPlatform::Soda => "s",
            MusicPlatform::Tencent => "t",
        }
    }

    pub fn from_callback_code(code: &str) -> (r: Option<MusicPlatform>)
        ensures
            r == platform_of_code(code@),
    {
        let c = chars_of(code);
        platform_of_code_chars(&c)
    }

    /// The platform a stored setting names, QQ Music when it names none.
    pub fn from_stored_default(value: &str) -> (r: MusicPlatform)
        ensures
            r == match platform_of_alias(value@) {
                Some(p) => p,
                None => default_platform_spec(),
            },
    {
        match MusicPlatform::from_alias(value) {
            Some(p) => p,
            None => MusicPlatform::default(),
        }
    }
}

/// Platform of a one-letter callback code given as characters.
pub fn platform_of_code_chars(c: &[char]) -> (r: Option<MusicPlatform>)
    ensures
        r == platform_of_code(c@),
{
    if eq_str(c, "a") {
        Some(MusicPlatform::AppleMusic)
    } else if eq_str(c, "b") {
        Some(MusicPlatform::Bilibili)
    } else if eq_str(c, "k") {
        Some(MusicPlatform::Kugou)
    } else if eq_str(c, "n") {
        Some(MusicPlatform::Netease)
    } else if eq_str(c, "s") {
        Some(MusicPlatform::Soda)
    } else if eq_str(c, "t") {
        Some(MusicPlatform::Tencent)
    } else {
        None
    }
}

impl Default for MusicPlatform {
    fn default() -> (r: MusicPlatform)
        ensures
            r == default_platform_spec(),
    {
        MusicPlatform::Tencent
    }
}

/// What to search for, and where.
#[derive(Clone, Debug)]
pub struct MusicQuery {
    pub platform: MusicPlatform,
    pub keyword: String,
}

/// One search hit.
#[derive(Clone, Debug)]
pub struct MusicSearchItem {
    pub platform: MusicPlatform,
    pub id: String,
    pub song: String,
    pub singer: String,
}

/// A resolved track, ready to download.
#[derive(Clone, Debug)]
pub struct MusicTrack {
    pub id: String,
    pub platform: MusicPlatform,
    pub song: String,
    pub singer: String,
    pub album: String,
    pub cover: String,
    pub link: String,
    pub url: String,
    pub headers: HashMap<String, String>,
    pub duration: Option<u32>,
    pub bitrate: Option<u32>,
    pub format: Option<String>,
}

/// Downloaded audio and cover bytes.
#[derive(Clone, Debug)]
pub struct MusicMedia {
    pub audio: Vec<u8>,
    pub cover: Vec<u8>,
}

/// Bytes written so far, and the total when the server told it.
#[derive(Clone, Copy, Debug, PartialEq, Eq, Structural)]
pub struct DownloadProgress {
    pub written: u64,
    pub total: Option<u64>,
}

/// The view of an optional string.
pub open spec fn opt_view(o: Option<String>) -> Option<Seq<char>> {
    match o {
        Some(s) => Some(s@),
        None => None,
    }
}

/// The file extension of a track: the declared format when there is one,
/// `m4a` for Apple Music wrapper URLs, else the URL path's extension when it
/// is short and alphanumeric, else `mp3`.
pub open spec fn track_extension(format: Option<Seq<char>>, url: Seq<char>) -> Seq<char> {
    if format is Some && trim_spec(format.unwrap()).len() > 0 {
        lower_spec(strip_leading(trim_spec(format.unwrap()), '.'))
    } else if has_prefix(url, "applemusic-wrapper://"@) {
        "m4a"@
    } else {
        let ext = after_last(before_first(url, '?'), '.');
        if ext.len() <= 5 && all_alnum(ext) {
            lower_spec(ext)
        } else {
            "mp3"@
        }
    }
}

impl MusicTrack {
    /// `"{song} - {singer}.{extension}"`.
    pub fn file_name(&self) -> (r: String)
        ensures
            r@ == self.song@ + " - "@ + self.singer@ + "."@ + track_extension(
                opt_view(self.format),
                self.url@,
            ),
    {
        let ext = self.file_extension();
        let mut out: Vec<char> = Vec::new();
        extend_str(&mut out, self.song.as_str());
        extend_str(&mut out, " - ");
        extend_str(&mut out, self.singer.as_str());
        extend_str(&mut out, ".");
        extend_str(&mut out, ext.as_str());
        string_of(&out)
    }

    pub fn file_extension(&self) -> (r: String)
        ensures
            r@ == track_extension(opt_view(self.format), self.url@),
    {
        if let Some(format) = &self.format {
            let f = chars_of(format.as_str());
            let t = trim_chars(&f);
            if t.len() > 0 {
                let s = trim_start_matches(&t, '.');
                let l = to_ascii_lowercase(&s);
                return string_of(&l);
            }
        }
        let url = chars_of(self.url.as_str());
        if starts_with_str(&url, "applemusic-wrapper://") {
            return String::from_str("m4a");
        }
        let path = take_before_first(&url, '?');
        let ext = take_after_last(&path, '.');
        if ext.len() <= 5 && check_all_alnum(&ext) {
            let l = to_ascii_lowercase(&ext);
            string_of(&l)
        } else {
            String::from_str("mp3")
        }
    }
}

/// The keyword a query is built from: the parts joined by spaces, trimmed.
pub open spec fn query_keyword(parts: Seq<String>) -> Seq<char> {
    trim_spec(join_spec(views(parts), " "@))
}

pub open spec fn unsupported_platform_message(alias: Seq<char>) -> Seq<char> {
    "暂不支持音乐平台："@ + alias
}

pub open spec fn empty_query_message() -> Seq<char> {
    "请输入歌曲名、链接或 ID，例如：/music qq 晴天"@
}

/// A query on the platform named by `platform_alias`.
pub fn build_query(platform_alias: &str, keyword_parts: &[String]) -> (r: Result<
    MusicQuery,
    BotError,
>)
    ensures
        match platform_of_alias(platform_alias@) {
            None => r matches Err(BotError::Custom(m)) && m@ == unsupported_platform_message(
                platform_alias@,
            ),
            Some(p) => query_result(r, p, keyword_parts@),
        },
{
    match MusicPlatform::from_alias(platform_alias) {
        Some(platform) => build_query_with_platform(platform, keyword_parts),
        None => {
            let mut m: Vec<char> = Vec::new();
            extend_str(&mut m, "暂不支持音乐平台：");
            extend_str(&mut m, platform_alias);
            Err(BotError::Custom(string_of(&m)))
        },
    }
}

/// The outcome of building a query on platform `p` from `parts`.
pub open spec fn query_result(r: Result<MusicQuery, BotError>, p: MusicPlatform, parts: Seq<String>) -> bool {
    let kw = query_keyword(parts);
    if kw.len() == 0 {
        r matches Err(BotError::Custom(m)) && m@ == empty_query_message()
    } else {
        r matches Ok(q) && q.platform == p && q.keyword@ == kw
    }
}

/// A query on `platform` for the parts joined by spaces; an error when that
/// keyword is blank.
pub fn build_query_with_platform(platform: MusicPlatform, keyword_parts: &[String]) -> (r: Result<
    MusicQuery,
    BotError,
>)
    ensures
        query_result(r, platform, keyword_parts@),
{
    let joined = join_strings(keyword_parts, " ");
    let keyword = trim_chars(&joined);
    if keyword.len() == 0 {
        return Err(BotError::Custom(String::from_str("请输入歌曲名、链接或 ID，例如：/music qq 晴天")));
    }
    Ok(MusicQuery { platform, keyword: string_of(&keyword) })
}

/// A query from legacy arguments, on QQ Music unless the first argument names
/// a platform.
pub fn build_legacy_query(args: &[String]) -> (r: Result<MusicQuery, BotError>)
    ensures
        legacy_query_result(r, default_platform_spec(), args@),
{
    build_legacy_query_with_default(MusicPlatform::default(), args)
}

/// Legacy arguments: when the first argument, without leading `#`, names a
/// platform, the query is on that platform for the other arguments;
/// otherwise on `default_platform` for all of them.
pub open spec fn legacy_query_result(r: Result<MusicQuery, BotError>, default_platform: MusicPlatform, args: Seq<String>) -> bool {
    if args.len() > 0 && platform_of_alias(strip_leading(args[0]@, '#')) is Some {
        query_result(r, platform_of_alias(strip_leading(args[0]@, '#')).unwrap(), args.drop_first())
    } else {
        query_result(r, default_platform, args)
    }
}

pub fn build_legacy_query_with_default(default_platform: MusicPlatform, args: &[String]) -> (r: Result<
    MusicQuery,
    BotError,
>)
    ensures
        legacy_query_result(r, default_platform, args@),
{
    if args.len() > 0 {
        let first = chars_of(args[0].as_str());
        let stripped = trim_start_matches(&first, '#');
        let s = string_of(&stripped);
        if let Some(platform) = MusicPlatform::from_alias(s.as_str()) {
            let rest = slice_tail(args);
            proof {
                assert(rest@ =~= args@.drop_first());
            }
            return build_query_with_platform(platform, &rest);
        }
    }
    build_query_with_platform(default_platform, args)
}

/// A copy of all strings but the first.
fn slice_tail(args: &[String]) -> (r: Vec<String>)
    requires
        args@.len() > 0,
    ensures
        r@ == args@.drop_first(),
{
    let mut r: Vec<String> = Vec::new();
    let mut i: usize = 1;
    while i < args.len()
        invariant
            1 <= i <= args.len(),
            r@ == args@.subrange(1, i as int),
        decreases args.len() - i,
    {
        r.push(args[i].clone());
        i = i + 1;
        proof {
            assert(r@ =~= args@.subrange(1, i as int));
        }
    }
    proof {
        assert(args@.subrange(1, args@.len() as int) =~= args@.drop_first());
    }
    r
}

} // verus!
