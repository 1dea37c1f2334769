//! QQ Music rules: the file names a stream is asked under, the stream,
//! track and cover addresses, song ids, and the login values read from a
//! cookie.
use vstd::prelude::*;
use vstd::string::StrSliceExecFns;
use vstd::string::StringSliceAdditionalSpecFns;
use vstd::utf8::encode_utf8;
use base64::Engine;
use sha1::{Digest, Sha1};
use crate::music_text::find_from;
use crate::text::{
    chars_of, concat, eq_str, has_prefix, is_alnum, push_str, string_of, sub_vec, trim_chars,
    trim_spec, contains_seq, lower_spec, strip_leading, strip_trailing,
};
use crate::urlparts::{first_value, first_value_of, opt_str_view, pair_views, parse_url, parsed_url, str_views};

verus! {

/// The stream file names of a track: `{quality}{media}.{ext}`, then
/// `{quality}{song}{song}.{ext}`, blank names dropped and a repeated name
/// kept once.
pub open spec fn vkey_names_spec(song_mid: Seq<char>, media_mid: Seq<char>, code: Seq<char>, ext: Seq<
    char,
>) -> Seq<Seq<char>> {
    let a = code + media_mid + "."@ + ext;
    let b = code + song_mid + song_mid + "."@ + ext;
    let first = if trim_spec(a).len() > 0 {
        seq![a]
    } else {
        Seq::empty()
    };
    if trim_spec(b).len() > 0 && !first.contains(b) {
        first.push(b)
    } else {
        first
    }
}

pub fn build_vkey_filenames(song_mid: &str, media_mid: &str, quality_code: &str, ext: &str) -> (r:
    Vec<String>)
    ensures
        crate::text::views(r@) == vkey_names_spec(song_mid@, media_mid@, quality_code@, ext@),
{
    let mut a = String::from_str(quality_code);
    push_str(&mut a, media_mid);
    push_str(&mut a, ".");
    push_str(&mut a, ext);
    let mut b = String::from_str(quality_code);
    push_str(&mut b, song_mid);
    push_str(&mut b, song_mid);
    push_str(&mut b, ".");
    push_str(&mut b, ext);
    let mut out: Vec<String> = Vec::new();
    let a_blank = crate::text::str_is_blank(a.as_str());
    let b_blank = crate::text::str_is_blank(b.as_str());
    let same = crate::text::str_eq(a.as_str(), b.as_str());
    if !a_blank {
        out.push(a);
    }
    if !b_blank && !(!a_blank && same) {
        out.push(b);
    }
    proof {
        let first = if trim_spec(a@).len() > 0 {
            seq![a@]
        } else {
            Seq::<Seq<char>>::empty()
        };
        assert(seq![a@].contains(b@) == (a@ == b@)) by {
            if seq![a@].contains(b@) {
                let i = choose|i: int| 0 <= i < 1 && seq![a@][i] == b@;
                assert(seq![a@][i] == a@);
            }
            if a@ == b@ {
                assert(seq![a@][0] == b@);
            }
        }
        assert(Seq::<Seq<char>>::empty().contains(b@) == false);
        assert(crate::text::views(out@) =~= vkey_names_spec(
            song_mid@,
            media_mid@,
            quality_code@,
            ext@,
        ));
    }
    out
}

/// The stream address: the purl when it and the vkey are given, else the
/// wifi address, each trimmed.
pub open spec fn vkey_url_spec(purl: Seq<char>, wifi: Seq<char>, vkey: Seq<char>) -> Option<
    Seq<char>,
> {
    if trim_spec(purl).len() > 0 && trim_spec(vkey).len() > 0 {
        Some(trim_spec(purl))
    } else if trim_spec(wifi).len() > 0 {
        Some(trim_spec(wifi))
    } else {
        None
    }
}

pub fn resolve_vkey_url(purl: &str, wifi_url: &str, vkey: &str) -> (r: Option<String>)
    ensures
        crate::provider::opt_view(r) == vkey_url_spec(purl@, wifi_url@, vkey@),
{
    let p = crate::text::trim_str(purl);
    let k = crate::text::trim_str(vkey);
    let w = crate::text::trim_str(wifi_url);
    if chars_of(p.as_str()).len() > 0 && chars_of(k.as_str()).len() > 0 {
        Some(p)
    } else if chars_of(w.as_str()).len() > 0 {
        Some(w)
    } else {
        None
    }
}

/// The address of a stream file: absolute addresses as they are, a name
/// under the stream host, nothing for a blank purl.
pub open spec fn stream_url_spec(purl: Seq<char>) -> Seq<char> {
    let p = trim_spec(purl);
    if has_prefix(p, "http://"@) || has_prefix(p, "https://"@) {
        p
    } else if p.len() == 0 {
        Seq::empty()
    } else {
        "https://ws.stream.qqmusic.qq.com/"@ + p
    }
}

pub fn build_stream_url(purl: &str) -> (r: String)
    ensures
        r@ == stream_url_spec(purl@),
{
    let v = chars_of(purl);
    let p = trim_chars(&v);
    if crate::text::starts_with_str(&p, "http://") || crate::text::starts_with_str(&p, "https://") {
        string_of(&p)
    } else if p.len() == 0 {
        String::new()
    } else {
        let ps = string_of(&p);
        concat("https://ws.stream.qqmusic.qq.com/", ps.as_str())
    }
}

pub fn build_track_url(track_id: &str) -> (r: String)
    ensures
        r@ == "https://y.qq.com/n/ryqq_v2/songDetail/"@ + track_id@,
{
    concat("https://y.qq.com/n/ryqq_v2/songDetail/", track_id)
}

/// The cover address of an album, nothing for a blank album id.
pub fn build_track_cover_url(album_mid: &str) -> (r: String)
    ensures
        r@ == (if trim_spec(album_mid@).len() == 0 {
            Seq::<char>::empty()
        } else {
            "https://y.gtimg.cn/music/photo_new/T002M000"@ + trim_spec(album_mid@) + ".jpg"@
        }),
{
    let t = crate::text::trim_str(album_mid);
    if chars_of(t.as_str()).len() == 0 {
        String::new()
    } else {
        let mut r = String::from_str("https://y.gtimg.cn/music/photo_new/T002M000");
        push_str(&mut r, t.as_str());
        push_str(&mut r, ".jpg");
        r
    }
}

/// The singers of a track: the trimmed non-blank names joined by ` / `, or
/// `未知歌手`.
pub open spec fn singers_spec(names: Seq<Seq<char>>) -> Seq<char> {
    let kept = names.map_values(|n: Seq<char>| trim_spec(n)).filter(|n: Seq<char>| n.len() > 0);
    if kept.len() == 0 {
        "未知歌手"@
    } else {
        crate::text::join_spec(kept, " / "@)
    }
}

pub fn singers_to_string(names: &[String]) -> (r: String)
    ensures
        r@ == singers_spec(crate::text::views(names@)),
{
    let ghost trimmed = crate::text::views(names@).map_values(|n: Seq<char>| trim_spec(n));
    let mut kept: Vec<Vec<char>> = Vec::new();
    let mut i: usize = 0;
    while i < names.len()
        invariant
            i <= names.len(),
            trimmed == crate::text::views(names@).map_values(|n: Seq<char>| trim_spec(n)),
            crate::text::vec_views(kept@) == trimmed.take(i as int).filter(
                |n: Seq<char>| n.len() > 0,
            ),
        decreases names.len() - i,
    {
        let v = chars_of(names[i].as_str());
        let t = trim_chars(&v);
        proof {
            assert(trimmed.take(i + 1).drop_last() =~= trimmed.take(i as int));
            assert(trimmed[i as int] == t@);
            trimmed.take(i as int).lemma_filter_push(t@, |n: Seq<char>| n.len() > 0);
            assert(trimmed.take(i as int).push(t@) =~= trimmed.take(i + 1));
        }
        if t.len() > 0 {
            kept.push(t);
        }
        proof {
            assert(crate::text::vec_views(kept@) =~= trimmed.take(i + 1).filter(
                |n: Seq<char>| n.len() > 0,
            ));
        }
        i = i + 1;
    }
    proof {
        assert(trimmed.take(names.len() as int) =~= trimmed);
    }
    if kept.len() == 0 {
        String::from_str("未知歌手")
    } else {
        let j = crate::text::join_vecs(&kept, " / ");
        string_of(&j)
    }
}

/// The first given item that is not blank, trimmed.
pub open spec fn first_non_empty_spec(items: Seq<Option<Seq<char>>>) -> Option<Seq<char>>
    decreases items.len(),
{
    if items.len() == 0 {
        None
    } else {
        match items[0] {
            Some(s) => if trim_spec(s).len() > 0 {
                Some(trim_spec(s))
            } else {
                first_non_empty_spec(items.drop_first())
            },
            None => first_non_empty_spec(items.drop_first()),
        }
    }
}

pub open spec fn opt_strs(items: Seq<Option<&str>>) -> Seq<Option<Seq<char>>> {
    items.map_values(|o: Option<&str>| crate::rom_links::opt_str(o))
}

/// The trimmed text of a string slice, as a slice of it.
pub fn trim_slice(s: &str) -> (r: &str)
    ensures
        r@ == trim_spec(s@),
{
    let v = chars_of(s);
    let (a, b) = crate::text::trim_bounds(&v);
    s.substring_char(a, b)
}

pub fn first_non_empty<'a>(items: &[Option<&'a str>]) -> (r: Option<&'a str>)
    ensures
        crate::rom_links::opt_str(r) == first_non_empty_spec(opt_strs(items@)),
{
    let mut i: usize = 0;
    proof {
        assert(opt_strs(items@).skip(0) =~= opt_strs(items@));
    }
    while i < items.len()
        invariant
            i <= items.len(),
            first_non_empty_spec(opt_strs(items@)) == first_non_empty_spec(
                opt_strs(items@).skip(i as int),
            ),
        decreases items.len() - i,
    {
        proof {
            assert(opt_strs(items@).skip(i as int)[0] == crate::rom_links::opt_str(items@[i as int]));
            assert(opt_strs(items@).skip(i as int).drop_first() =~= opt_strs(items@).skip(i + 1));
        }
        match items[i] {
            Some(s) => {
                let t = trim_slice(s);
                if chars_of(t).len() > 0 {
                    return Some(t);
                }
            },
            None => {},
        }
        i = i + 1;
    }
    None
}

/// Whether a value looks like a QQ Music song mid: 12 to 16 ASCII letters,
/// digits, `_` or `-` once trimmed.
pub open spec fn song_mid_spec(v: Seq<char>) -> bool {
    let t = trim_spec(v);
    12 <= t.len() <= 16 && forall|i: int|
        0 <= i < t.len() ==> is_alnum(#[trigger] t[i]) || t[i] == '_' || t[i] == '-'
}

pub fn is_tencent_song_mid(text: &str) -> (r: bool)
    ensures
        r == song_mid_spec(text@),
{
    let v = chars_of(text);
    let t = trim_chars(&v);
    if t.len() < 12 || t.len() > 16 {
        return false;
    }
    let mut i: usize = 0;
    while i < t.len()
        invariant
            i <= t.len(),
            t@ == trim_spec(text@),
            forall|j: int| 0 <= j < i ==> is_alnum(#[trigger] t@[j]) || t@[j] == '_' || t@[j] == '-',
        decreases t.len() - i,
    {
        let c = t[i];
        if !(crate::text::is_ascii_alphanumeric(c) || c == '_' || c == '-') {
            proof {
                assert(!(is_alnum(t@[i as int]) || t@[i as int] == '_' || t@[i as int] == '-'));
            }
            return false;
        }
        i = i + 1;
    }
    true
}

/// A QQ number from a cookie: without leading `o`/`O`s and zeros; `0` when
/// nothing or something other than digits is left.
pub open spec fn uin_spec(raw: Seq<char>) -> Seq<char> {
    let t = crate::text::strip_leading(strip_leading_o(trim_spec(raw)), '0');
    if t.len() == 0 || !crate::num::all_digits(t) {
        "0"@
    } else {
        t
    }
}

/// Leading `o` and `O` characters removed.
pub open spec fn strip_leading_o(s: Seq<char>) -> Seq<char>
    decreases s.len(),
{
    if s.len() > 0 && (s[0] == 'o' || s[0] == 'O') {
        strip_leading_o(s.drop_first())
    } else {
        s
    }
}

pub fn normalize_qq_uin(raw: &str) -> (r: String)
    ensures
        r@ == uin_spec(raw@),
{
    let v = chars_of(raw);
    let t = trim_chars(&v);
    let mut a: usize = 0;
    proof {
        assert(t@.skip(0) =~= t@);
    }
    while a < t.len() && (t[a] == 'o' || t[a] == 'O')
        invariant
            a <= t.len(),
            strip_leading_o(t@) == strip_leading_o(t@.skip(a as int)),
        decreases t.len() - a,
    {
        proof {
            assert(t@.skip(a as int).drop_first() =~= t@.skip(a + 1));
        }
        a = a + 1;
    }
    let rest = sub_vec(&t, a, t.len());
    proof {
        assert(rest@ =~= t@.skip(a as int));
    }
    let d = crate::text::trim_start_matches(&rest, '0');
    if d.len() == 0 || !crate::text::check_all_digits(&d) {
        String::from_str("0")
    } else {
        string_of(&d)
    }
}

/// A text split at each `c`.
pub open spec fn split_on(s: Seq<char>, c: char) -> Seq<Seq<char>>
    decreases s.len(),
{
    let j = find_from(s, c, 0);
    if j >= s.len() {
        seq![s]
    } else {
        proof {
            crate::music_text::lemma_find_from_bounds(s, c, 0);
        }
        seq![s.take(j)] + split_on(s.skip(j + 1), c)
    }
}

/// The value of the first `key=value` part of a `;`-separated cookie whose
/// trimmed key is the key, trimmed; empty when there is none.
pub open spec fn cookie_value_in(parts: Seq<Seq<char>>, key: Seq<char>) -> Option<Seq<char>>
    decreases parts.len(),
{
    if parts.len() == 0 {
        None
    } else {
        match crate::text::split_once_spec(trim_spec(parts[0]), '=') {
            Some((k, v)) => if trim_spec(k) == key {
                Some(trim_spec(v))
            } else {
                cookie_value_in(parts.drop_first(), key)
            },
            None => cookie_value_in(parts.drop_first(), key),
        }
    }
}

pub open spec fn cookie_value_spec(cookie: Seq<char>, key: Seq<char>) -> Seq<char> {
    match cookie_value_in(split_on(cookie, ';'), key) {
        Some(v) => v,
        None => Seq::empty(),
    }
}

pub fn parse_cookie_value(cookie: &str, key: &str) -> (r: String)
    ensures
        r@ == cookie_value_spec(cookie@, key@),
{
    match cookie_value(cookie, key) {
        Some(v) => v,
        None => String::new(),
    }
}

/// The value of the first part of a `;`-separated cookie whose trimmed key
/// is the key, trimmed.
pub fn cookie_value(cookie: &str, key: &str) -> (r: Option<String>)
    ensures
        crate::provider::opt_view(r) == cookie_value_in(split_on(cookie@, ';'), key@),
{
    let v = chars_of(cookie);
    let mut i: usize = 0;
    proof {
        assert(v@.skip(0) =~= v@);
    }
    loop
        invariant
            i <= v.len(),
            v@ == cookie@,
            cookie_value_in(split_on(v@.skip(i as int), ';'), key@) == cookie_value_in(
                split_on(cookie@, ';'),
                key@,
            ),
        decreases v.len() - i,
    {
        let j = crate::music_text::find_char_from(&v, ';', i);
        let ghost rest = v@.skip(i as int);
        proof {
            crate::music_text::lemma_find_shift(v@, ';', i as int);
            crate::music_text::lemma_find_from_bounds(rest, ';', 0);
        }
        let part = sub_vec(&v, i, j);
        let t = trim_chars(&part);
        proof {
            assert(part@ =~= rest.take(find_from(rest, ';', 0)));
            let jj = find_from(rest, ';', 0);
            if jj < rest.len() {
                assert(split_on(rest, ';') == seq![rest.take(jj)] + split_on(rest.skip(jj + 1), ';'));
                assert((seq![rest.take(jj)] + split_on(rest.skip(jj + 1), ';')).drop_first()
                    =~= split_on(rest.skip(jj + 1), ';'));
                assert(rest.skip(jj + 1) =~= v@.skip(j + 1));
            } else {
                assert(split_on(rest, ';') == seq![rest]);
                assert(seq![rest].drop_first() =~= Seq::<Seq<char>>::empty());
                assert(rest.take(jj) =~= rest);
            }
        }
        match crate::text::split_once(&t, '=') {
            Some((k, val)) => {
                let kt = trim_chars(&k);
                if eq_str(&kt, key) {
                    let vt = trim_chars(&val);
                    return Some(string_of(&vt));
                }
            },
            None => {},
        }
        if j >= v.len() {
            proof {
                assert(cookie_value_in(Seq::<Seq<char>>::empty(), key@) is None);
            }
            return None;
        }
        i = j + 1;
    }
}

/// The QQ number and login key of a cookie: `uin`, then `qqmusic_key` or
/// else `qm_keyst`.
pub fn parse_qq_auth(cookie: &str) -> (r: (String, String))
    ensures
        r.0@ == uin_spec(cookie_value_spec(cookie@, "uin"@)),
        r.1@ == (match first_non_empty_spec(
            seq![
                Some(cookie_value_spec(cookie@, "qqmusic_key"@)),
                Some(cookie_value_spec(cookie@, "qm_keyst"@)),
            ],
        ) {
            Some(v) => v,
            None => Seq::empty(),
        }),
{
    let uin_raw = parse_cookie_value(cookie, "uin");
    let uin = normalize_qq_uin(uin_raw.as_str());
    let k1 = parse_cookie_value(cookie, "qqmusic_key");
    let k2 = parse_cookie_value(cookie, "qm_keyst");
    let items: [Option<&str>; 2] = [Some(k1.as_str()), Some(k2.as_str())];
    let auth = match first_non_empty(items.as_slice()) {
        Some(a) => a.to_owned(),
        None => String::new(),
    };
    proof {
        assert(opt_strs(items@) =~= seq![Some(k1@), Some(k2@)]);
    }
    (uin, auth)
}


/// The id a song path captures after `prefix`: the rest of the path, when
/// it is not empty and holds no `/`, `?` or `#`.
pub open spec fn path_capture(path: Seq<char>, prefix: Seq<char>) -> Option<Seq<char>> {
    if has_prefix(path, prefix) {
        let rest = path.skip(prefix.len() as int);
        if rest.len() > 0 && forall|i: int|
            0 <= i < rest.len() ==> #[trigger] rest[i] != '/' && rest[i] != '?' && rest[i] != '#' {
            Some(rest)
        } else {
            None
        }
    } else {
        None
    }
}

/// The song id in a QQ Music song path (without its outer slashes):
/// `n/ryqq/songDetail/{id}`, `n/ryqq_v2/songDetail/{id}`, `n/ryqq/song/{id}`
/// or `song/{id}`.
pub open spec fn qq_path_id(path: Seq<char>) -> Option<Seq<char>> {
    match path_capture(path, "n/ryqq/songDetail/"@) {
        Some(id) => Some(id),
        None => match path_capture(path, "n/ryqq_v2/songDetail/"@) {
            Some(id) => Some(id),
            None => match path_capture(path, "n/ryqq/song/"@) {
                Some(id) => Some(id),
                None => path_capture(path, "song/"@),
            },
        },
    }
}

/// The value of the first pair with the key, when it is not blank.
pub open spec fn nonblank_param(pairs: Seq<(Seq<char>, Seq<char>)>, key: Seq<char>) -> Option<Seq<char>> {
    match first_value_of(pairs, seq![key]) {
        Some(v) => if trim_spec(v).len() > 0 {
            Some(v)
        } else {
            None
        },
        None => None,
    }
}

/// The QQ Music track a text names: a numeric id or a song mid as it is;
/// else a `qq.com` address, by its song path, then by its `songmid`,
/// `songid` or `id` query value.
pub open spec fn qq_track_id_spec(text: Seq<char>) -> Option<Seq<char>> {
    let t = trim_spec(text);
    if t.len() == 0 {
        None
    } else if crate::num::all_digits(t) || song_mid_spec(t) {
        Some(t)
    } else {
        match parsed_url(t) {
            None => None,
            Some(u) => match u.host {
                None => None,
                Some(h) => if !contains_seq(lower_spec(h), "qq.com"@) {
                    None
                } else {
                    match qq_path_id(strip_trailing(strip_leading(u.path, '/'), '/')) {
                        Some(id) => Some(id),
                        None => match nonblank_param(u.pairs, "songmid"@) {
                            Some(v) => Some(v),
                            None => match nonblank_param(u.pairs, "songid"@) {
                                Some(v) => Some(v),
                                None => nonblank_param(u.pairs, "id"@),
                            },
                        },
                    }
                },
            },
        }
    }
}

fn capture_after(path: &[char], prefix: &str) -> (r: Option<Vec<char>>)
    ensures
        match r {
            Some(v) => path_capture(path@, prefix@) == Some(v@),
            None => path_capture(path@, prefix@) is None,
        },
{
    if !crate::text::starts_with_str(path, prefix) {
        return None;
    }
    let n = chars_of(prefix).len();
    let rest = sub_vec(path, n, path.len());
    proof {
        assert(rest@ =~= path@.skip(prefix@.len() as int));
    }
    if rest.len() == 0 {
        return None;
    }
    let mut i: usize = 0;
    while i < rest.len()
        invariant
            i <= rest.len(),
            rest@ == path@.skip(prefix@.len() as int),
            has_prefix(path@, prefix@),
            rest@.len() > 0,
            forall|j: int| 0 <= j < i ==> #[trigger] rest@[j] != '/' && rest@[j] != '?' && rest@[j] != '#',
        decreases rest.len() - i,
    {
        let c = rest[i];
        if c == '/' || c == '?' || c == '#' {
            proof {
                assert(rest@ == path@.skip(prefix@.len() as int));
                assert(!(rest@[i as int] != '/' && rest@[i as int] != '?' && rest@[i as int] != '#'));
            }
            return None;
        }
        i = i + 1;
    }
    Some(rest)
}

fn param_nonblank(pairs: &Vec<(String, String)>, key: &str) -> (r: Option<String>)
    ensures
        opt_str_view(r) == nonblank_param(pair_views(pairs@), key@),
{
    let mut keys: Vec<&str> = Vec::new();
    keys.push(key);
    proof {
        assert(str_views(keys@) =~= seq![key@]);
    }
    match first_value(pairs, keys.as_slice()) {
        Some(v) => {
            let vv = chars_of(v.as_str());
            if trim_chars(&vv).len() > 0 {
                Some(v)
            } else {
                None
            }
        },
        None => None,
    }
}

pub fn parse_qq_track_id(text: &str) -> (r: Option<String>)
    ensures
        opt_str_view(r) == qq_track_id_spec(text@),
{
    proof {
        reveal_strlit("qq.com");
        reveal_strlit("n/ryqq/songDetail/");
        reveal_strlit("n/ryqq_v2/songDetail/");
        reveal_strlit("n/ryqq/song/");
        reveal_strlit("song/");
    }
    let v = chars_of(text);
    let t = trim_chars(&v);
    if t.len() == 0 {
        return None;
    }
    let ts = string_of(&t);
    if crate::text::check_all_digits(&t) || is_tencent_song_mid(ts.as_str()) {
        proof {
            crate::text::lemma_trim_idempotent(text@);
        }
        return Some(ts);
    }
    proof {
        crate::text::lemma_trim_idempotent(text@);
    }
    let url = match parse_url(ts.as_str()) {
        Some(u) => u,
        None => {
            return None;
        },
    };
    let host = match &url.host {
        Some(h) => h,
        None => {
            return None;
        },
    };
    let hv = chars_of(host.as_str());
    let lower = crate::text::to_ascii_lowercase(&hv);
    if !crate::text::contains_str(&lower, "qq.com") {
        return None;
    }
    let pv = chars_of(url.path.as_str());
    let p1 = crate::text::trim_start_matches(&pv, '/');
    let path = crate::text::trim_end_matches(&p1, '/');
    let prefixes = ["n/ryqq/songDetail/", "n/ryqq_v2/songDetail/", "n/ryqq/song/", "song/"];
    match capture_after(&path, prefixes[0]) {
        Some(id) => {
            return Some(string_of(&id));
        },
        None => {},
    }
    match capture_after(&path, prefixes[1]) {
        Some(id) => {
            return Some(string_of(&id));
        },
        None => {},
    }
    match capture_after(&path, prefixes[2]) {
        Some(id) => {
            return Some(string_of(&id));
        },
        None => {},
    }
    match capture_after(&path, prefixes[3]) {
        Some(id) => {
            return Some(string_of(&id));
        },
        None => {},
    }
    match param_nonblank(&url.pairs, "songmid") {
        Some(x) => {
            return Some(x);
        },
        None => {},
    }
    match param_nonblank(&url.pairs, "songid") {
        Some(x) => {
            return Some(x);
        },
        None => {},
    }
    param_nonblank(&url.pairs, "id")
}


/// What SHA-1 gives for a byte string.
pub uninterp spec fn sha1_digest(data: Seq<u8>) -> Seq<u8>;

/// `sha1::Sha1` fed the bytes and finalized: the digest, 20 bytes (the
/// hash's output size), which depends on the bytes alone.
#[verifier::external_body]
fn sha1_of(data: &[u8]) -> (r: Vec<u8>)
    ensures
        r@ == sha1_digest(data@),
        r@.len() == 20,
{
    let mut hasher = Sha1::new();
    hasher.update(data);
    hasher.finalize().to_vec()
}

/// What the standard base64 engine (alphabet `A–Z a–z 0–9 + /`, with
/// padding) encodes a byte string to.
pub uninterp spec fn base64_encoded(data: Seq<u8>) -> Seq<char>;

/// `base64::engine::general_purpose::STANDARD.encode`; the text depends on
/// the bytes alone.
#[verifier::external_body]
fn base64_encode(data: &[u8]) -> (r: String)
    ensures
        r@ == base64_encoded(data@),
{
    base64::engine::general_purpose::STANDARD.encode(data)
}

/// An upper-case hexadecimal digit.
pub open spec fn upper_hex_digit(n: int) -> char {
    if n < 10 {
        ((n + 48) as u8) as char
    } else {
        ((n + 55) as u8) as char
    }
}

/// Bytes as upper-case hexadecimal, two digits each.
pub open spec fn upper_hex(b: Seq<u8>) -> Seq<char> {
    Seq::new(
        2 * b.len(),
        |i: int| if i % 2 == 0 {
            upper_hex_digit((b[i / 2] / 16) as int)
        } else {
            upper_hex_digit((b[i / 2] % 16) as int)
        },
    )
}

/// The characters at the positions that exist, in order.
pub open spec fn pick_chars(h: Seq<char>, idx: Seq<int>) -> Seq<char>
    decreases idx.len(),
{
    if idx.len() == 0 {
        Seq::empty()
    } else {
        let prev = pick_chars(h, idx.drop_last());
        if 0 <= idx.last() < h.len() {
            prev.push(h[idx.last()])
        } else {
            prev
        }
    }
}

/// The bytes the third part of a signature mixes into the digest.
pub open spec fn sign_scramble() -> Seq<u8> {
    seq![89u8, 39, 179, 150, 218, 82, 58, 252, 177, 52, 186, 123, 120, 64, 242, 133, 143, 161, 121, 179]
}

/// The text without `/`, `\`, `+` and `=`.
pub open spec fn drop_b64_marks(s: Seq<char>) -> Seq<char>
    decreases s.len(),
{
    if s.len() == 0 {
        Seq::empty()
    } else {
        let prev = drop_b64_marks(s.drop_last());
        let c = s.last();
        if c == '/' || c == '\\' || c == '+' || c == '=' {
            prev
        } else {
            prev.push(c)
        }
    }
}

/// The signature of a QQ Music request body: `zzc`, then in lower case
/// the digest's hex digits at eight positions (none when `clear_part1`),
/// the base64 of the digest mixed with fixed bytes (marks removed), and
/// the hex digits at eight more positions; empty for an empty body.
pub open spec fn tencent_sign_spec(payload: Seq<char>, clear_part1: bool) -> Seq<char> {
    if payload.len() == 0 {
        Seq::empty()
    } else {
        let d = sha1_digest(encode_utf8(payload));
        let h = upper_hex(d);
        let part1 = if clear_part1 {
            Seq::empty()
        } else {
            pick_chars(h, seq![23int, 14, 6, 36, 16, 40, 7, 19])
        };
        let part2 = pick_chars(h, seq![16int, 1, 32, 12, 19, 27, 8, 5]);
        let part3 = Seq::new(20, |i: int| sign_scramble()[i] ^ d[i]);
        "zzc"@ + lower_spec(part1 + drop_b64_marks(base64_encoded(part3)) + part2)
    }
}

fn upper_hex_char(n: u8) -> (r: char)
    requires
        n < 16,
    ensures
        r == upper_hex_digit(n as int),
{
    if n < 10 {
        (n + 48) as char
    } else {
        (n + 55) as char
    }
}

fn pick_from(h: &Vec<char>, idx: &[usize]) -> (r: Vec<char>)
    ensures
        r@ == pick_chars(h@, idx@.map_values(|i: usize| i as int)),
{
    let ghost ix = idx@.map_values(|i: usize| i as int);
    let mut out: Vec<char> = Vec::new();
    let mut k: usize = 0;
    while k < idx.len()
        invariant
            k <= idx.len(),
            ix == idx@.map_values(|i: usize| i as int),
            out@ == pick_chars(h@, ix.take(k as int)),
        decreases idx.len() - k,
    {
        proof {
            assert(ix.take(k + 1).drop_last() =~= ix.take(k as int));
            assert(ix.take(k + 1).last() == idx@[k as int] as int);
        }
        let i = idx[k];
        if i < h.len() {
            out.push(h[i]);
        }
        k = k + 1;
    }
    proof {
        assert(ix.take(idx.len() as int) =~= ix);
    }
    out
}

pub fn tencent_sign(payload: &str, clear_part1: bool) -> (r: String)
    ensures
        r@ == tencent_sign_spec(payload@, clear_part1),
{
    proof {
        reveal_strlit("zzc");
    }
    if chars_of(payload).len() == 0 {
        return String::new();
    }
    let d = sha1_of(payload.as_bytes());
    let mut h: Vec<char> = Vec::new();
    let mut i: usize = 0;
    while i < d.len()
        invariant
            i <= d.len(),
            d@.len() == 20,
            h@ =~= upper_hex(d@.take(i as int)),
        decreases d.len() - i,
    {
        let hi = upper_hex_char(d[i] / 16);
        let lo = upper_hex_char(d[i] % 16);
        h.push(hi);
        h.push(lo);
        proof {
            assert(h@ =~= upper_hex(d@.take(i + 1)));
        }
        i = i + 1;
    }
    proof {
        assert(d@.take(20) =~= d@);
    }
    let part1: Vec<char> = if clear_part1 {
        Vec::new()
    } else {
        let idx: [usize; 8] = [23, 14, 6, 36, 16, 40, 7, 19];
        let p = pick_from(&h, &idx);
        proof {
            assert(idx@.map_values(|i: usize| i as int) =~= seq![23int, 14, 6, 36, 16, 40, 7, 19]);
        }
        p
    };
    let idx2: [usize; 8] = [16, 1, 32, 12, 19, 27, 8, 5];
    let part2 = pick_from(&h, &idx2);
    proof {
        assert(idx2@.map_values(|i: usize| i as int) =~= seq![16int, 1, 32, 12, 19, 27, 8, 5]);
    }
    let scramble: [u8; 20] = [
        89u8, 39, 179, 150, 218, 82, 58, 252, 177, 52, 186, 123, 120, 64, 242, 133, 143, 161, 121,
        179,
    ];
    proof {
        assert(scramble@ =~= sign_scramble());
    }
    let mut part3: Vec<u8> = Vec::new();
    let mut k: usize = 0;
    while k < 20
        invariant
            k <= 20,
            d@.len() == 20,
            scramble@ == sign_scramble(),
            part3@ =~= Seq::new(k as nat, |j: int| sign_scramble()[j] ^ d@[j]),
        decreases 20 - k,
    {
        part3.push(scramble[k] ^ d[k]);
        k = k + 1;
    }
    let b64 = base64_encode(&part3);
    let bv = chars_of(b64.as_str());
    let mut kept: Vec<char> = Vec::new();
    let mut j: usize = 0;
    while j < bv.len()
        invariant
            j <= bv.len(),
            kept@ == drop_b64_marks(bv@.take(j as int)),
        decreases bv.len() - j,
    {
        proof {
            assert(bv@.take(j + 1).drop_last() =~= bv@.take(j as int));
        }
        let c = bv[j];
        if !(c == '/' || c == '\\' || c == '+' || c == '=') {
            kept.push(c);
        }
        j = j + 1;
    }
    proof {
        assert(bv@.take(bv.len() as int) =~= bv@);
    }
    let mut body = part1;
    crate::text::extend_chars(&mut body, &kept);
    crate::text::extend_chars(&mut body, &part2);
    let lower = crate::text::to_ascii_lowercase(&body);
    let mut out = chars_of("zzc");
    crate::text::extend_chars(&mut out, &lower);
    string_of(&out)
}

} // verus!
