//! Soda Music (汽水音乐): track ids in share links, the choice among the
//! play infos of a track, the names and cover of a track, and the key
//! hidden in a play authorization.
use vstd::prelude::*;
use crate::text::{
    chars_of, contains_seq, eq_str, has_suffix, lower_spec, string_of, strip_leading,
    strip_trailing, trim_chars, trim_spec, to_ascii_lowercase, trim_end_matches, trim_start_matches,
};
use crate::urlparts::{first_value, first_value_of, form_decoded, form_pairs, opt_str_view, pair_views, parse_url, parsed_url, str_views};

verus! {

/// A Soda Music track id: at least eight ASCII digits.
pub open spec fn soda_id_spec(v: Seq<char>) -> bool {
    v.len() >= 8 && forall|i: int| 0 <= i < v.len() ==> crate::text::is_digit(#[trigger] v[i])
}

pub fn is_soda_numeric_id(value: &str) -> (r: bool)
    ensures
        r == soda_id_spec(value@),
{
    let v = chars_of(value);
    v.len() >= 8 && crate::text::check_all_digits(&v)
}

/// The text without leading and trailing `/`.
pub open spec fn trim_slashes(s: Seq<char>) -> Seq<char> {
    strip_trailing(strip_leading(s, '/'), '/')
}

fn trim_slashes_exec(v: &[char]) -> (r: Vec<char>)
    ensures
        r@ == trim_slashes(v@),
{
    let a = trim_start_matches(v, '/');
    trim_end_matches(&a, '/')
}

/// The keys a track id is given under in a query.
pub open spec fn id_keys() -> Seq<Seq<char>> {
    seq!["track_id"@, "trackId"@, "id"@]
}

/// A track id kept when it reads as one.
pub open spec fn keep_soda_id(v: Option<Seq<char>>) -> Option<Seq<char>> {
    match v {
        Some(x) => if soda_id_spec(x) {
            Some(x)
        } else {
            None
        },
        None => None,
    }
}

/// The track id of a link fragment `#/track?track_id=…`: the fragment's
/// path (before `?`, without slashes) names a track or song, and its query
/// gives the id.
pub open spec fn soda_fragment_spec(fragment: Seq<char>) -> Option<Seq<char>> {
    let f = strip_leading(trim_spec(fragment), '#');
    match crate::text::split_once_spec(f, '?') {
        None => None,
        Some((path, query)) => {
            let p = trim_slashes(path);
            if !contains_seq(p, "track"@) && !contains_seq(p, "song"@) {
                None
            } else {
                keep_soda_id(first_value_of(form_decoded(query), id_keys()))
            }
        },
    }
}

fn id_key_list() -> (r: [&'static str; 3])
    ensures
        str_views(r@) == id_keys(),
{
    let r = ["track_id", "trackId", "id"];
    assert(str_views(r@) =~= id_keys());
    r
}

fn keep_id(v: Option<String>) -> (r: Option<String>)
    ensures
        opt_str_view(r) == keep_soda_id(opt_str_view(v)),
{
    match v {
        Some(x) => if is_soda_numeric_id(x.as_str()) {
            Some(x)
        } else {
            None
        },
        None => None,
    }
}

pub fn parse_soda_fragment(fragment: &str) -> (r: Option<String>)
    ensures
        opt_str_view(r) == soda_fragment_spec(fragment@),
{
    let t = trim_chars(&chars_of(fragment));
    let f = trim_start_matches(&t, '#');
    let (path, query) = match crate::text::split_once(&f, '?') {
        Some(pq) => pq,
        None => return None,
    };
    let p = trim_slashes_exec(&path);
    if !crate::text::contains_str(&p, "track") && !crate::text::contains_str(&p, "song") {
        return None;
    }
    let q = string_of(&query);
    let pairs = form_pairs(q.as_str());
    let keys = id_key_list();
    keep_id(first_value(&pairs, &keys))
}

/// The hosts of Soda Music share links, with their subdomains.
pub open spec fn soda_host_spec(host: Seq<char>) -> bool {
    let h = lower_spec(host);
    ||| h == "qishui.com"@ || has_suffix(h, ".qishui.com"@)
    ||| h == "qishui.douyin.com"@ || has_suffix(h, ".qishui.douyin.com"@)
    ||| h == "music.douyin.com"@ || has_suffix(h, ".music.douyin.com"@)
    ||| h == "bubble.qishui.com"@ || has_suffix(h, ".bubble.qishui.com"@)
    ||| h == "douyin.com"@ || has_suffix(h, ".douyin.com"@)
}

/// The digits of a path `prefix` + digits, when there is at least one and
/// nothing else.
pub open spec fn digits_after(path: Seq<char>, prefix: Seq<char>) -> Option<Seq<char>> {
    if crate::text::has_prefix(path, prefix) && path.len() > prefix.len() && forall|i: int|
        prefix.len() <= i < path.len() ==> crate::text::is_digit(#[trigger] path[i]) {
        Some(path.skip(prefix.len() as int))
    } else {
        None
    }
}

/// The track id of a Soda Music link: a `track/…` or `song/…` path, else a
/// query id, else the fragment's; none for other hosts.
pub open spec fn soda_track_id_spec(text: Seq<char>) -> Option<Seq<char>> {
    let t = trim_spec(text);
    if t.len() == 0 {
        None
    } else {
        match parsed_url(t) {
            None => None,
            Some(u) => match u.host {
                None => None,
                Some(h) => if !soda_host_spec(h) {
                    None
                } else {
                    let p = trim_slashes(u.path);
                    match digits_after(p, "track/"@) {
                        Some(d) => Some(d),
                        None => match digits_after(p, "song/"@) {
                            Some(d) => Some(d),
                            None => match keep_soda_id(first_value_of(u.pairs, id_keys())) {
                                Some(d) => Some(d),
                                None => match u.fragment {
                                    Some(f) => soda_fragment_spec(f),
                                    None => None,
                                },
                            },
                        },
                    }
                },
            },
        }
    }
}

fn host_is(h: &[char], name: &str) -> (r: bool)
    ensures
        r == (h@ == name@ || has_suffix(h@, "."@ + name@)),
{
    let mut dotted = chars_of(".");
    crate::text::extend_str(&mut dotted, name);
    proof {
        reveal_strlit(".");
    }
    eq_str(h, name) || crate::text::ends_with(h, &dotted)
}

fn digits_after_exec(path: &[char], prefix: &str) -> (r: Option<Vec<char>>)
    ensures
        match digits_after(path@, prefix@) {
            Some(d) => r matches Some(x) && x@ == d,
            None => r is None,
        },
{
    let p = chars_of(prefix);
    if !crate::text::starts_with(path, &p) || path.len() <= p.len() {
        return None;
    }
    let rest = crate::text::sub_vec(path, p.len(), path.len());
    if !crate::text::check_all_digits(&rest) {
        proof {
            let k = choose|k: int| 0 <= k < rest@.len() && !crate::text::is_digit(#[trigger] rest@[k]);
            assert(path@[p@.len() + k] == rest@[k]);
        }
        return None;
    }
    proof {
        assert forall|i: int| p@.len() <= i < path@.len() implies crate::text::is_digit(#[trigger] path@[i]) by {
            assert(rest@[i - p@.len()] == path@[i]);
        }
        assert(rest@ =~= path@.skip(p@.len() as int));
    }
    Some(rest)
}

pub fn parse_soda_track_id(text: &str) -> (r: Option<String>)
    ensures
        opt_str_view(r) == soda_track_id_spec(text@),
{
    let t = trim_chars(&chars_of(text));
    if t.len() == 0 {
        return None;
    }
    let ts = string_of(&t);
    let url = match parse_url(ts.as_str()) {
        Some(u) => u,
        None => return None,
    };
    let host = match &url.host {
        Some(h) => to_ascii_lowercase(&chars_of(h.as_str())),
        None => return None,
    };
    proof {
        reveal_strlit(".");
    }
    let known = host_is(&host, "qishui.com") || host_is(&host, "qishui.douyin.com") || host_is(
        &host,
        "music.douyin.com",
    ) || host_is(&host, "bubble.qishui.com") || host_is(&host, "douyin.com");
    proof {
        reveal_strlit(".qishui.com");
        reveal_strlit(".qishui.douyin.com");
        reveal_strlit(".music.douyin.com");
        reveal_strlit(".bubble.qishui.com");
        reveal_strlit(".douyin.com");
        reveal_strlit("qishui.com");
        reveal_strlit("qishui.douyin.com");
        reveal_strlit("music.douyin.com");
        reveal_strlit("bubble.qishui.com");
        reveal_strlit("douyin.com");
        assert("."@ + "qishui.com"@ =~= ".qishui.com"@);
        assert("."@ + "qishui.douyin.com"@ =~= ".qishui.douyin.com"@);
        assert("."@ + "music.douyin.com"@ =~= ".music.douyin.com"@);
        assert("."@ + "bubble.qishui.com"@ =~= ".bubble.qishui.com"@);
        assert("."@ + "douyin.com"@ =~= ".douyin.com"@);
    }
    if !known {
        return None;
    }
    let path = trim_slashes_exec(&chars_of(url.path.as_str()));
    match digits_after_exec(&path, "track/") {
        Some(d) => return Some(string_of(&d)),
        None => {},
    }
    match digits_after_exec(&path, "song/") {
        Some(d) => return Some(string_of(&d)),
        None => {},
    }
    let keys = id_key_list();
    match keep_id(first_value(&url.pairs, &keys)) {
        Some(d) => return Some(d),
        None => {},
    }
    match &url.fragment {
        Some(f) => parse_soda_fragment(f.as_str()),
        None => None,
    }
}

/// A quality setting read as one of Soda Music's: `standard`, `lossless`,
/// `hires`, else `high`.
pub open spec fn soda_quality_spec(value: Seq<char>) -> Seq<char> {
    let k = lower_spec(trim_spec(value));
    if k == "standard"@ || k == "std"@ || k == "128"@ {
        "standard"@
    } else if k == "lossless"@ || k == "flac"@ || k == "无损"@ {
        "lossless"@
    } else if k == "hires"@ || k == "hi-res"@ || k == "hi_res"@ || k == "高解析"@ {
        "hires"@
    } else {
        "high"@
    }
}

pub fn normalize_quality(value: &str) -> (r: &'static str)
    ensures
        r@ == soda_quality_spec(value@),
{
    let k = to_ascii_lowercase(&trim_chars(&chars_of(value)));
    if eq_str(&k, "standard") || eq_str(&k, "std") || eq_str(&k, "128") {
        "standard"
    } else if eq_str(&k, "lossless") || eq_str(&k, "flac") || eq_str(&k, "无损") {
        "lossless"
    } else if eq_str(&k, "hires") || eq_str(&k, "hi-res") || eq_str(&k, "hi_res") || eq_str(
        &k,
        "高解析",
    ) {
        "hires"
    } else {
        "high"
    }
}

/// A media format, trimmed and lower-cased, `m4a` for none or blank, and
/// `m4a` for `mp4`.
pub open spec fn soda_format_spec(format: Option<Seq<char>>) -> Seq<char> {
    let f = match format {
        Some(x) => if trim_spec(x).len() > 0 {
            lower_spec(trim_spec(x))
        } else {
            "m4a"@
        },
        None => "m4a"@,
    };
    if f == "mp4"@ {
        "m4a"@
    } else {
        f
    }
}

pub fn normalize_soda_format(format: Option<&str>) -> (r: String)
    ensures
        r@ == soda_format_spec(match format {
            Some(x) => Some(x@),
            None => None,
        }),
{
    let f: Vec<char> = match format {
        Some(x) => {
            let t = trim_chars(&chars_of(x));
            if t.len() > 0 {
                to_ascii_lowercase(&t)
            } else {
                chars_of("m4a")
            }
        },
        None => chars_of("m4a"),
    };
    if eq_str(&f, "mp4") {
        String::from_str("m4a")
    } else {
        string_of(&f)
    }
}

/// One way to play a track, as Soda Music lists it.
#[derive(Clone, Debug)]
pub struct SodaPlayInfo {
    pub main_play_url: Option<String>,
    pub backup_play_url: Option<String>,
    pub play_auth: Option<String>,
    pub format: Option<String>,
    pub quality: Option<String>,
    pub size: i64,
    pub bitrate: i64,
}

/// The rank of a quality label: the known labels from `lossless` (6000)
/// down to `medium` (1000), else the bitrate.
pub open spec fn label_rank(label: Seq<char>, bitrate: i64) -> int {
    if label == "lossless"@ {
        6000
    } else if label == "hi_res"@ {
        5000
    } else if label == "spatial"@ {
        4500
    } else if label == "highest"@ {
        4000
    } else if label == "high"@ {
        3000
    } else if label == "higher"@ {
        2000
    } else if label == "medium"@ {
        1000
    } else {
        (bitrate as i32) as int
    }
}

/// The bonus a label gets for the requested quality.
pub open spec fn label_bonus(requested: Seq<char>, label: Seq<char>) -> int {
    if requested == "lossless"@ && label == "lossless"@ {
        1_000_000
    } else if requested == "hires"@ && label == "lossless"@ {
        1_000_000
    } else if requested == "hires"@ && label == "hi_res"@ {
        900_000
    } else if requested == "hires"@ && label == "spatial"@ {
        800_000
    } else if requested == "high"@ && label == "highest"@ {
        1_000_000
    } else if requested == "high"@ && (label == "high"@ || label == "hi_res"@ || label
        == "spatial"@) {
        800_000
    } else if requested == "standard"@ && label == "higher"@ {
        1_000_000
    } else if requested == "standard"@ && label == "medium"@ {
        900_000
    } else {
        0
    }
}

/// The label of a play info: its quality, trimmed and lower-cased.
pub open spec fn play_label(p: SodaPlayInfo) -> Seq<char> {
    match p.quality {
        Some(q) => lower_spec(trim_spec(q@)),
        None => Seq::empty(),
    }
}

/// The key a play info is chosen by: its ranked label with the bonus for
/// the requested quality, then its size, then its bitrate.
pub open spec fn play_key(p: SodaPlayInfo, requested: Seq<char>) -> (int, int, int) {
    let label = play_label(p);
    (label_rank(label, p.bitrate) + label_bonus(requested, label), p.size as int, p.bitrate as int)
}

pub open spec fn key_ge(a: (int, int, int), b: (int, int, int)) -> bool {
    a.0 > b.0 || (a.0 == b.0 && (a.1 > b.1 || (a.1 == b.1 && a.2 >= b.2)))
}

/// The index of the play info with the greatest key among the first `n`,
/// the last of those with equal keys.
pub open spec fn best_play_index(infos: Seq<SodaPlayInfo>, requested: Seq<char>, n: nat) -> int
    decreases n,
{
    if n <= 1 {
        0
    } else {
        let b = best_play_index(infos, requested, (n - 1) as nat);
        if key_ge(play_key(infos[n - 1], requested), play_key(infos[b], requested)) {
            n - 1
        } else {
            b
        }
    }
}

proof fn lemma_best_in_range(infos: Seq<SodaPlayInfo>, requested: Seq<char>, n: nat)
    requires
        n >= 1,
    ensures
        0 <= best_play_index(infos, requested, n) < n,
    decreases n,
{
    if n > 1 {
        lemma_best_in_range(infos, requested, (n - 1) as nat);
    }
}

/// The labels a play info is ranked by.
pub open spec fn known_soda_label(l: Seq<char>) -> bool {
    l == "lossless"@ || l == "hi_res"@ || l == "spatial"@ || l == "highest"@ || l == "high"@ || l
        == "higher"@ || l == "medium"@
}

proof fn lemma_best_ge(infos: Seq<SodaPlayInfo>, requested: Seq<char>, n: nat, j: int)
    requires
        0 <= j < n,
    ensures
        key_ge(play_key(infos[best_play_index(infos, requested, n)], requested), play_key(infos[j], requested)),
    decreases n,
{
    if n > 1 {
        let b = best_play_index(infos, requested, (n - 1) as nat);
        lemma_best_in_range(infos, requested, (n - 1) as nat);
        if j < n - 1 {
            lemma_best_ge(infos, requested, (n - 1) as nat, j);
        }
        lemma_best_ge(infos, requested, (n - 1) as nat, b);
    }
}

/// For a request of high quality a play info labelled `highest` outranks
/// every other label (`high`, `hi_res`, `spatial` and the rest), so when
/// one is offered among ranked labels, the one chosen is labelled
/// `highest`.
pub proof fn lemma_high_prefers_highest(infos: Seq<SodaPlayInfo>, i: int)
    requires
        0 <= i < infos.len(),
        play_label(infos[i]) == "highest"@,
        forall|j: int| 0 <= j < infos.len() ==> known_soda_label(#[trigger] play_label(infos[j])),
    ensures
        play_label(infos[best_play_index(infos, "high"@, infos.len() as nat)]) == "highest"@,
{
    reveal_strlit("lossless");
    reveal_strlit("hi_res");
    reveal_strlit("spatial");
    reveal_strlit("highest");
    reveal_strlit("high");
    reveal_strlit("higher");
    reveal_strlit("medium");
    reveal_strlit("hires");
    reveal_strlit("standard");
    assert("lossless"@.len() == 8 && "hi_res"@.len() == 6 && "spatial"@.len() == 7 && "highest"@.len()
        == 7 && "high"@.len() == 4 && "higher"@.len() == 6 && "medium"@.len() == 6 && "hires"@.len() == 5
        && "standard"@.len() == 8);
    assert("spatial"@[0] == 's' && "highest"@[0] == 'h' && "higher"@[2] == 'g' && "hi_res"@[2] == '_'
        && "medium"@[0] == 'm' && "hi_res"@[0] == 'h' && "higher"@[0] == 'h');
    let n = infos.len() as nat;
    lemma_best_in_range(infos, "high"@, n);
    let b = best_play_index(infos, "high"@, n);
    lemma_best_ge(infos, "high"@, n, i);
    assert(play_key(infos[i], "high"@).0 == 1_004_000);
    assert(known_soda_label(play_label(infos[b])));
    if play_label(infos[b]) != "highest"@ {
        assert(play_key(infos[b], "high"@).0 <= 806_000);
    }
}

fn label_of(p: &SodaPlayInfo) -> (r: Vec<char>)
    ensures
        r@ == play_label(*p),
{
    match &p.quality {
        Some(q) => to_ascii_lowercase(&trim_chars(&chars_of(q.as_str()))),
        None => Vec::new(),
    }
}

fn rank_of(p: &SodaPlayInfo, requested: &str) -> (r: i64)
    ensures
        r == play_key(*p, requested@).0,
{
    let label = label_of(p);
    let mut rank: i64 = if eq_str(&label, "lossless") {
        6000
    } else if eq_str(&label, "hi_res") {
        5000
    } else if eq_str(&label, "spatial") {
        4500
    } else if eq_str(&label, "highest") {
        4000
    } else if eq_str(&label, "high") {
        3000
    } else if eq_str(&label, "higher") {
        2000
    } else if eq_str(&label, "medium") {
        1000
    } else {
        (p.bitrate as i32) as i64
    };
    let q = chars_of(requested);
    if eq_str(&q, "lossless") && eq_str(&label, "lossless") {
        rank = rank + 1_000_000;
    } else if eq_str(&q, "hires") && eq_str(&label, "lossless") {
        rank = rank + 1_000_000;
    } else if eq_str(&q, "hires") && eq_str(&label, "hi_res") {
        rank = rank + 900_000;
    } else if eq_str(&q, "hires") && eq_str(&label, "spatial") {
        rank = rank + 800_000;
    } else if eq_str(&q, "high") && eq_str(&label, "highest") {
        rank = rank + 1_000_000;
    } else if eq_str(&q, "high") && (eq_str(&label, "high") || eq_str(&label, "hi_res") || eq_str(
        &label,
        "spatial",
    )) {
        rank = rank + 800_000;
    } else if eq_str(&q, "standard") && eq_str(&label, "higher") {
        rank = rank + 1_000_000;
    } else if eq_str(&q, "standard") && eq_str(&label, "medium") {
        rank = rank + 900_000;
    }
    rank
}

/// The play info that best fits the requested quality: the greatest key,
/// the last of equals; none when there are none.
pub fn select_soda_play_info<'a>(play_infos: &'a [SodaPlayInfo], quality: &str) -> (r: Option<
    &'a SodaPlayInfo,
>)
    ensures
        play_infos@.len() == 0 ==> r is None,
        play_infos@.len() > 0 ==> r == Some(
            &play_infos@[best_play_index(
                play_infos@,
                soda_quality_spec(quality@),
                play_infos@.len() as nat,
            )],
        ),
{
    if play_infos.len() == 0 {
        return None;
    }
    let requested = normalize_quality(quality);
    let mut best: usize = 0;
    let mut best_rank = rank_of(&play_infos[0], requested);
    let mut i: usize = 1;
    while i < play_infos.len()
        invariant
            1 <= i <= play_infos.len(),
            best < i,
            requested@ == soda_quality_spec(quality@),
            best == best_play_index(play_infos@, requested@, i as nat),
            best_rank == play_key(play_infos@[best as int], requested@).0,
        decreases play_infos.len() - i,
    {
        let rank = rank_of(&play_infos[i], requested);
        let p = &play_infos[i];
        let b = &play_infos[best];
        if rank > best_rank || (rank == best_rank && (p.size > b.size || (p.size == b.size
            && p.bitrate >= b.bitrate))) {
            best = i;
            best_rank = rank;
        }
        i = i + 1;
    }
    Some(&play_infos[best])
}

/// The artists of a track: their names trimmed, blank ones left out,
/// joined by ` / `, or `未知歌手` when none is left.
pub open spec fn soda_artists_spec(names: Seq<Seq<char>>) -> Seq<char> {
    let kept = names.map_values(|n: Seq<char>| trim_spec(n)).filter(|n: Seq<char>| n.len() > 0);
    if kept.len() == 0 {
        "未知歌手"@
    } else {
        crate::text::join_spec(kept, " / "@)
    }
}

pub fn soda_artists(names: &[String]) -> (r: String)
    ensures
        r@ == soda_artists_spec(crate::text::views(names@)),
{
    let mut kept: Vec<Vec<char>> = Vec::new();
    let ghost all = crate::text::views(names@).map_values(|n: Seq<char>| trim_spec(n));
    let mut i: usize = 0;
    while i < names.len()
        invariant
            i <= names.len(),
            all == crate::text::views(names@).map_values(|n: Seq<char>| trim_spec(n)),
            crate::text::vec_views(kept@) == all.take(i as int).filter(|n: Seq<char>| n.len() > 0),
        decreases names.len() - i,
    {
        let v = trim_chars(&chars_of(names[i].as_str()));
        proof {
            assert(all.take(i + 1).drop_last() =~= all.take(i as int));
            assert(all.take(i + 1).last() == v@);
            all.take(i as int).lemma_filter_push(v@, |n: Seq<char>| n.len() > 0);
            assert(all.take(i as int).push(v@) =~= all.take(i + 1));
        }
        if v.len() > 0 {
            let ghost k0 = crate::text::vec_views(kept@);
            kept.push(v);
            proof {
                assert(crate::text::vec_views(kept@) =~= k0.push(v@));
            }
        }
        i = i + 1;
    }
    proof {
        assert(all.take(names@.len() as int) =~= all);
    }
    if kept.len() == 0 {
        return String::from_str("未知歌手");
    }
    let joined = crate::text::join_vecs(&kept, " / ");
    string_of(&joined)
}

/// A cover address: the first address trimmed, the cover's `uri` appended
/// unless it is blank or already there, then the 375×375 suffix unless the
/// address has a `~`; empty when there is no address.
pub open spec fn soda_cover_spec(urls: Seq<Seq<char>>, uri: Seq<char>) -> Seq<char> {
    let base = if urls.len() > 0 {
        trim_spec(urls[0])
    } else {
        Seq::empty()
    };
    let u = trim_spec(uri);
    if base.len() == 0 {
        Seq::empty()
    } else {
        let b1 = if u.len() > 0 && !contains_seq(base, u) {
            base + u
        } else {
            base
        };
        if !b1.contains('~') {
            b1 + "~c5_375x375.jpg"@
        } else {
            b1
        }
    }
}

pub fn soda_cover_url(urls: &[String], uri: &str) -> (r: String)
    ensures
        r@ == soda_cover_spec(crate::text::views(urls@), uri@),
{
    let mut base: Vec<char> = if urls.len() > 0 {
        proof {
            assert(crate::text::views(urls@)[0] == urls@[0]@);
        }
        trim_chars(&chars_of(urls[0].as_str()))
    } else {
        Vec::new()
    };
    let u = trim_chars(&chars_of(uri));
    if base.len() == 0 {
        return String::new();
    }
    if u.len() > 0 && !crate::text::find_seq(&base, &u).is_some() {
        crate::text::extend_chars(&mut base, &u);
    }
    if !crate::text::contains_char(&base, '~') {
        crate::text::extend_str(&mut base, "~c5_375x375.jpg");
    }
    string_of(&base)
}

/// The share page of a track.
pub fn soda_track_url(id: &str) -> (r: String)
    ensures
        r@ == "https://music.douyin.com/qishui/share/track?track_id="@ + id@,
{
    crate::text::concat("https://music.douyin.com/qishui/share/track?track_id=", id)
}

} // verus!
