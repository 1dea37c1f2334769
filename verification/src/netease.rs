//! NetEase Cloud Music rules: how the global quality setting maps to the
//! API's levels and bit rates, when the vkeys mirror is preferred, and how
//! its track metadata reads.
use vstd::prelude::*;
use crate::error::BotError;
use crate::num::parse_u32_spec;
use crate::text::{chars_of, eq_str, norm_key, normalized_key, trim_spec, contains_seq, has_prefix, lower_spec, split_once_spec, strip_leading, string_of, sub_vec, trim_chars};
use crate::urlparts::{first_value, first_value_of, form_decoded, form_pairs, opt_str_view, pair_views, parse_url, parsed_url, str_views, UrlParts, UrlView};

verus! {

pub open spec fn is_standard(k: Seq<char>) -> bool {
    k == "standard"@ || k == "std"@ || k == "128"@
}

pub open spec fn is_lossless(k: Seq<char>) -> bool {
    k == "lossless"@ || k == "flac"@ || k == "无损"@
}

pub open spec fn is_hires(k: Seq<char>) -> bool {
    k == "hires"@ || k == "hi-res"@ || k == "master"@
}

/// The vkeys quality level of a quality setting: 2 standard, 5 lossless,
/// 4 otherwise.
pub open spec fn vkeys_quality_spec(q: Seq<char>) -> i64 {
    let k = norm_key(q);
    if is_standard(k) {
        2
    } else if is_lossless(k) {
        5
    } else {
        4
    }
}

fn key_is_standard(k: &[char]) -> (r: bool)
    ensures
        r == is_standard(k@),
{
    eq_str(k, "standard") || eq_str(k, "std") || eq_str(k, "128")
}

fn key_is_lossless(k: &[char]) -> (r: bool)
    ensures
        r == is_lossless(k@),
{
    eq_str(k, "lossless") || eq_str(k, "flac") || eq_str(k, "无损")
}

fn key_is_hires(k: &[char]) -> (r: bool)
    ensures
        r == is_hires(k@),
{
    eq_str(k, "hires") || eq_str(k, "hi-res") || eq_str(k, "master")
}

pub fn netease_vkeys_quality(quality: &str) -> (r: i64)
    ensures
        r == vkeys_quality_spec(quality@),
{
    let k = normalized_key(quality);
    if key_is_standard(&k) {
        2
    } else if key_is_lossless(&k) {
        5
    } else {
        4
    }
}

/// The bit rate asked of the NetEase API for a quality setting.
pub open spec fn native_bitrate_spec(q: Seq<char>) -> i64 {
    let k = norm_key(q);
    if is_standard(k) {
        128_000
    } else if is_lossless(k) {
        999_000
    } else if is_hires(k) {
        1_999_000
    } else {
        320_000
    }
}

pub fn netease_native_bitrate(quality: &str) -> (r: i64)
    ensures
        r == native_bitrate_spec(quality@),
{
    let k = normalized_key(quality);
    if key_is_standard(&k) {
        128_000
    } else if key_is_lossless(&k) {
        999_000
    } else if key_is_hires(&k) {
        1_999_000
    } else {
        320_000
    }
}

/// Whether a quality is downloaded through vkeys: lossless and hi-res.
pub open spec fn prefer_vkeys_spec(q: Seq<char>) -> bool {
    is_lossless(norm_key(q)) || is_hires(norm_key(q))
}

pub fn should_prefer_vkeys_netease_download(quality: &str) -> (r: bool)
    ensures
        r == prefer_vkeys_spec(quality@),
{
    let k = normalized_key(quality);
    key_is_lossless(&k) || key_is_hires(&k)
}

/// A duration as vkeys writes it: whole seconds, or `M分S秒`; none when
/// blank, malformed, or zero.
pub open spec fn vkeys_duration_spec(v: Seq<char>) -> Option<u32> {
    let t = trim_spec(v);
    if t.len() == 0 {
        None
    } else if parse_u32_spec(t) is Some {
        if parse_u32_spec(t).unwrap() > 0 {
            parse_u32_spec(t)
        } else {
            None
        }
    } else {
        match crate::text::split_once_spec(t, '分') {
            None => None,
            Some((m, rest)) => {
                let s = crate::text::strip_trailing(rest, '秒');
                match (parse_u32_spec(trim_spec(m)), parse_u32_spec(trim_spec(s))) {
                    (Some(a), Some(b)) => if a * 60 + b > u32::MAX || a * 60 + b == 0 {
                        None
                    } else {
                        Some((a * 60 + b) as u32)
                    },
                    _ => None,
                }
            },
        }
    }
}

/// Reads a vkeys duration; a total beyond `u32` is none.
pub fn parse_vkeys_duration(value: &str) -> (r: Option<u32>)
    ensures
        r == vkeys_duration_spec(value@),
{
    let v = chars_of(value);
    let t = crate::text::trim_chars(&v);
    if t.len() == 0 {
        return None;
    }
    match crate::num::parse_u32(&t) {
        Some(seconds) => {
            return if seconds > 0 {
                Some(seconds)
            } else {
                None
            };
        },
        None => {},
    }
    let (m, rest) = match crate::text::split_once(&t, '分') {
        Some(x) => x,
        None => return None,
    };
    let s = crate::text::trim_end_matches(&rest, '秒');
    let mt = crate::text::trim_chars(&m);
    let st = crate::text::trim_chars(&s);
    let a = match crate::num::parse_u32(&mt) {
        Some(a) => a,
        None => return None,
    };
    let b = match crate::num::parse_u32(&st) {
        Some(b) => b,
        None => return None,
    };
    let total: u64 = a as u64 * 60 + b as u64;
    if total > u32::MAX as u64 || total == 0 {
        None
    } else {
        Some(total as u32)
    }
}

/// The format of a vkeys track: the URL path's extension when it is short
/// and alphanumeric (in lower case), else `flac` for lossless and `mp3`.
pub open spec fn vkeys_format_spec(url: Seq<char>, quality: Seq<char>, size: Seq<char>) -> Seq<
    char,
> {
    let ext = trim_spec(crate::text::after_last(crate::text::before_first(url, '?'), '.'));
    if ext.len() <= 5 && crate::text::all_alnum(ext) {
        crate::text::lower_spec(ext)
    } else if crate::text::contains_seq(quality, "无损"@) || crate::text::contains_seq(
        crate::text::lower_spec(size),
        "flac"@,
    ) {
        "flac"@
    } else {
        "mp3"@
    }
}

pub fn vkeys_track_format(url: &str, quality: &str, size: &str) -> (r: Option<String>)
    ensures
        r matches Some(s) && s@ == vkeys_format_spec(url@, quality@, size@),
{
    let u = chars_of(url);
    let path = crate::text::take_before_first(&u, '?');
    let ext0 = crate::text::take_after_last(&path, '.');
    let ext = crate::text::trim_chars(&ext0);
    if ext.len() <= 5 && crate::text::check_all_alnum(&ext) {
        let l = crate::text::to_ascii_lowercase(&ext);
        return Some(crate::text::string_of(&l));
    }
    let qv = chars_of(quality);
    let sv = chars_of(size);
    let sl = crate::text::to_ascii_lowercase(&sv);
    if crate::text::contains_str(&qv, "无损") || crate::text::contains_str(&sl, "flac") {
        Some(String::from_str("flac"))
    } else {
        Some(String::from_str("mp3"))
    }
}

/// The singers of a song: the non-blank artist names joined by ` / `, or
/// `未知歌手` when there are none.
pub open spec fn artists_spec(names: Seq<Seq<char>>) -> Seq<char> {
    let kept = names.filter(|n: Seq<char>| trim_spec(n).len() > 0);
    if kept.len() == 0 {
        "未知歌手"@
    } else {
        crate::text::join_spec(kept, " / "@)
    }
}

pub fn netease_artists(names: &[String]) -> (r: String)
    ensures
        r@ == artists_spec(crate::text::views(names@)),
{
    let mut kept: Vec<Vec<char>> = Vec::new();
    let ghost all = crate::text::views(names@);
    let mut i: usize = 0;
    while i < names.len()
        invariant
            i <= names.len(),
            all == crate::text::views(names@),
            crate::text::vec_views(kept@) == all.take(i as int).filter(
                |n: Seq<char>| trim_spec(n).len() > 0,
            ),
        decreases names.len() - i,
    {
        let v = chars_of(names[i].as_str());
        proof {
            assert(all.take(i + 1).drop_last() =~= all.take(i as int));
            assert(all.take(i + 1).last() == v@);
            all.take(i as int).lemma_filter_push(v@, |n: Seq<char>| trim_spec(n).len() > 0);
            assert(all.take(i as int).push(v@) =~= all.take(i + 1));
        }
        if !crate::text::is_blank(&v) {
            kept.push(v);
            proof {
                assert(crate::text::vec_views(kept@) =~= all.take(i + 1).filter(
                    |n: Seq<char>| trim_spec(n).len() > 0,
                ));
            }
        } else {
            proof {
                assert(crate::text::vec_views(kept@) =~= all.take(i + 1).filter(
                    |n: Seq<char>| trim_spec(n).len() > 0,
                ));
            }
        }
        i = i + 1;
    }
    proof {
        assert(all.take(names.len() as int) =~= all);
    }
    if kept.len() == 0 {
        String::from_str("未知歌手")
    } else {
        let j = crate::text::join_vecs(&kept, " / ");
        crate::text::string_of(&j)
    }
}

/// Whether a value is a NetEase numeric id: digits once trimmed.
pub open spec fn numeric_id_spec(v: Seq<char>) -> bool {
    trim_spec(v).len() > 0 && crate::num::all_digits(trim_spec(v))
}

pub fn is_netease_numeric_id(value: &str) -> (r: bool)
    ensures
        r == numeric_id_spec(value@),
{
    let v = chars_of(value);
    let t = crate::text::trim_chars(&v);
    t.len() > 0 && crate::text::check_all_digits(&t)
}

/// A vkeys answer: its status code and message.
pub struct VkeysResponse<T> {
    pub code: i64,
    pub message: String,
    pub data: Option<T>,
}

impl<T> VkeysResponse<T> {
    /// Success for the codes 0 and 200; else an error naming what failed
    /// and the server's message.
    pub fn ensure_success(&self, context: &str) -> (r: Result<(), BotError>)
        ensures
            (self.code == 0 || self.code == 200) ==> r is Ok,
            !(self.code == 0 || self.code == 200) ==> (r matches Err(BotError::Custom(m)) && m@
                == context@ + "失败："@ + self.message@),
    {
        if self.code == 0 || self.code == 200 {
            Ok(())
        } else {
            let mut m = String::from_str(context);
            crate::text::push_str(&mut m, "失败：");
            crate::text::push_str(&mut m, self.message.as_str());
            Err(BotError::Custom(m))
        }
    }
}


/// The `id` of a form-encoded query: the first `id` pair's value, when it
/// is a numeric id.
pub open spec fn query_id_spec(q: Seq<char>) -> Option<Seq<char>> {
    match first_value_of(form_decoded(q), seq!["id"@]) {
        Some(v) => if numeric_id_spec(v) {
            Some(v)
        } else {
            None
        },
        None => None,
    }
}

pub fn query_id(query: &str) -> (r: Option<String>)
    ensures
        opt_str_view(r) == query_id_spec(query@),
{
    let pairs = form_pairs(query);
    let mut keys: Vec<&str> = Vec::new();
    keys.push("id");
    proof {
        assert(str_views(keys@) =~= seq!["id"@]);
    }
    match first_value(&pairs, keys.as_slice()) {
        Some(v) => if is_netease_numeric_id(v.as_str()) {
            Some(v)
        } else {
            None
        },
        None => None,
    }
}

/// The path and query of a NetEase address, lowercased path: those of a
/// non-blank fragment (`#/path?query`, leading slashes dropped, a blank
/// query as none) when there is one, else the address's own.
pub open spec fn path_and_query_spec(u: UrlView) -> (Seq<char>, Option<Seq<char>>) {
    let frag = match u.fragment {
        Some(f) => trim_spec(f),
        None => Seq::empty(),
    };
    if frag.len() > 0 {
        let fr = strip_leading(frag, '/');
        let (p, q) = match split_once_spec(fr, '?') {
            Some(pq) => pq,
            None => (fr, Seq::empty()),
        };
        (lower_spec(p), if trim_spec(q).len() > 0 {
            Some(q)
        } else {
            None
        })
    } else {
        (lower_spec(u.path), u.query)
    }
}

pub fn netease_url_path_and_query(url: &UrlParts) -> (r: (Vec<char>, Option<String>))
    ensures
        (r.0@, opt_str_view(r.1)) == path_and_query_spec(url@),
{
    let frag: Vec<char> = match &url.fragment {
        Some(f) => {
            let fv = chars_of(f.as_str());
            trim_chars(&fv)
        },
        None => Vec::new(),
    };
    if frag.len() > 0 {
        let fr = crate::text::trim_start_matches(&frag, '/');
        let (p, q) = match crate::text::split_once(&fr, '?') {
            Some(pq) => pq,
            None => (sub_vec(&fr, 0, fr.len()), Vec::new()),
        };
        proof {
            if split_once_spec(fr@, '?') is None {
                assert(p@ =~= fr@);
                assert(q@ =~= Seq::<char>::empty());
            }
        }
        let path = crate::text::to_ascii_lowercase(&p);
        let query = if trim_chars(&q).len() > 0 {
            Some(string_of(&q))
        } else {
            None
        };
        (path, query)
    } else {
        let pv = chars_of(url.path.as_str());
        let query = match &url.query {
            Some(q) => Some(q.clone()),
            None => None,
        };
        (crate::text::to_ascii_lowercase(&pv), query)
    }
}

/// A `163.com` address's path and query (host compared in lower case).
pub open spec fn netease_url_spec(t: Seq<char>) -> Option<(Seq<char>, Option<Seq<char>>)> {
    match parsed_url(t) {
        None => None,
        Some(u) => match u.host {
            None => None,
            Some(h) => if contains_seq(lower_spec(h), "163.com"@) {
                Some(path_and_query_spec(u))
            } else {
                None
            },
        },
    }
}

fn netease_url(t: &str) -> (r: Option<(Vec<char>, Option<String>)>)
    ensures
        match r {
            Some(pq) => netease_url_spec(t@) == Some((pq.0@, opt_str_view(pq.1))),
            None => netease_url_spec(t@) is None,
        },
{
    proof {
        reveal_strlit("163.com");
    }
    let url = match parse_url(t) {
        Some(u) => u,
        None => {
            return None;
        },
    };
    let host = match &url.host {
        Some(h) => h,
        None => {
            return None;
        },
    };
    let hv = chars_of(host.as_str());
    let lower = crate::text::to_ascii_lowercase(&hv);
    if !crate::text::contains_str(&lower, "163.com") {
        return None;
    }
    Some(netease_url_path_and_query(&url))
}

/// The NetEase track a text names: a numeric id as it is, else the `id`
/// of a `163.com` address.
pub open spec fn netease_id_spec(text: Seq<char>) -> Option<Seq<char>> {
    let t = trim_spec(text);
    if t.len() > 0 && crate::num::all_digits(t) {
        Some(t)
    } else {
        match netease_url_spec(t) {
            Some((_, Some(q))) => query_id_spec(q),
            _ => None,
        }
    }
}

pub fn parse_netease_id(text: &str) -> (r: Option<String>)
    ensures
        opt_str_view(r) == netease_id_spec(text@),
{
    let v = chars_of(text);
    let t = trim_chars(&v);
    let ts = string_of(&t);
    if t.len() > 0 && crate::text::check_all_digits(&t) {
        return Some(ts);
    }
    match netease_url(ts.as_str()) {
        Some((_, Some(q))) => query_id(q.as_str()),
        _ => None,
    }
}

/// Which kind of NetEase collection an id names.
#[derive(Clone, Copy, Debug, PartialEq, Eq, Structural)]
pub enum NeteaseCollectionKind {
    Playlist,
    Album,
}

/// A NetEase playlist or album.
#[derive(Clone, Debug, PartialEq, Eq)]
pub struct NeteaseCollectionId {
    pub kind: NeteaseCollectionKind,
    pub id: String,
}

/// The NetEase collection a text names: `album:{id}` or `playlist:{id}`,
/// else a `163.com` address with an `id` whose path names an album or a
/// playlist (album first).
pub open spec fn collection_spec(text: Seq<char>) -> Option<(NeteaseCollectionKind, Seq<char>)> {
    let t = trim_spec(text);
    if has_prefix(t, "album:"@) && numeric_id_spec(t.skip(6)) {
        Some((NeteaseCollectionKind::Album, trim_spec(t.skip(6))))
    } else if has_prefix(t, "playlist:"@) && numeric_id_spec(t.skip(9)) {
        Some((NeteaseCollectionKind::Playlist, trim_spec(t.skip(9))))
    } else {
        match netease_url_spec(t) {
            Some((path, Some(q))) => match query_id_spec(q) {
                Some(id) => if contains_seq(path, "album"@) {
                    Some((NeteaseCollectionKind::Album, id))
                } else if contains_seq(path, "playlist"@) {
                    Some((NeteaseCollectionKind::Playlist, id))
                } else {
                    None
                },
                None => None,
            },
            _ => None,
        }
    }
}

pub fn parse_netease_collection_id(text: &str) -> (r: Option<NeteaseCollectionId>)
    ensures
        match r {
            Some(c) => collection_spec(text@) == Some((c.kind, c.id@)),
            None => collection_spec(text@) is None,
        },
{
    proof {
        reveal_strlit("album:");
        reveal_strlit("playlist:");
        reveal_strlit("album");
        reveal_strlit("playlist");
    }
    let v = chars_of(text);
    let t = trim_chars(&v);
    if crate::text::starts_with_str(&t, "album:") {
        let rest = sub_vec(&t, 6, t.len());
        proof {
            assert(rest@ =~= t@.skip(6));
        }
        let rs = string_of(&rest);
        if is_netease_numeric_id(rs.as_str()) {
            return Some(NeteaseCollectionId { kind: NeteaseCollectionKind::Album, id: string_of(&trim_chars(&rest)) });
        }
    }
    if crate::text::starts_with_str(&t, "playlist:") {
        let rest = sub_vec(&t, 9, t.len());
        proof {
            assert(rest@ =~= t@.skip(9));
        }
        let rs = string_of(&rest);
        if is_netease_numeric_id(rs.as_str()) {
            return Some(NeteaseCollectionId { kind: NeteaseCollectionKind::Playlist, id: string_of(&trim_chars(&rest)) });
        }
    }
    let ts = string_of(&t);
    let (path, query) = match netease_url(ts.as_str()) {
        Some(pq) => pq,
        None => {
            return None;
        },
    };
    let q = match query {
        Some(q) => q,
        None => {
            return None;
        },
    };
    let id = match query_id(q.as_str()) {
        Some(id) => id,
        None => {
            return None;
        },
    };
    if crate::text::contains_str(&path, "album") {
        return Some(NeteaseCollectionId { kind: NeteaseCollectionKind::Album, id });
    }
    if crate::text::contains_str(&path, "playlist") {
        return Some(NeteaseCollectionId { kind: NeteaseCollectionKind::Playlist, id });
    }
    None
}

} // verus!
