//! Text the music commands show and parse: HTML escaping, lyric previews
//! and captions, lyric file names, inline query suffixes and the ids of
//! inline results.
use vstd::prelude::*;
use vstd::string::StrSliceExecFns;
use crate::callback::{script_label, MusicLyricScript};
use crate::error::BotError;
use crate::provider::{platform_code, platform_id, platform_of_alias, platform_of_code, MusicPlatform};
use crate::text::{
    chars_of, concat, eq_str, extend_chars, extend_str, has_prefix, is_ascii_ws, is_ws,
    push_char, push_str, split_once_spec, string_of, sub_vec, trim_chars, trim_spec,
};

verus! {

/// The HTML escape of one character.
pub open spec fn escape_char(c: char) -> Seq<char> {
    if c == '&' {
        "&amp;"@
    } else if c == '<' {
        "&lt;"@
    } else if c == '>' {
        "&gt;"@
    } else if c == '"' {
        "&quot;"@
    } else {
        seq![c]
    }
}

/// Text with `&`, `<`, `>` and `"` escaped for HTML.
pub open spec fn html_escape_spec(s: Seq<char>) -> Seq<char>
    decreases s.len(),
{
    if s.len() == 0 {
        Seq::empty()
    } else {
        html_escape_spec(s.drop_last()) + escape_char(s.last())
    }
}

pub fn html_escape_chars(v: &[char]) -> (r: Vec<char>)
    ensures
        r@ == html_escape_spec(v@),
{
    let mut out: Vec<char> = Vec::new();
    let mut i: usize = 0;
    while i < v.len()
        invariant
            i <= v.len(),
            out@ == html_escape_spec(v@.take(i as int)),
        decreases v.len() - i,
    {
        let c = v[i];
        if c == '&' {
            extend_str(&mut out, "&amp;");
        } else if c == '<' {
            extend_str(&mut out, "&lt;");
        } else if c == '>' {
            extend_str(&mut out, "&gt;");
        } else if c == '"' {
            extend_str(&mut out, "&quot;");
        } else {
            out.push(c);
        }
        proof {
            assert(v@.take(i + 1).drop_last() =~= v@.take(i as int));
            assert(v@.take(i + 1).last() == c);
        }
        i = i + 1;
    }
    proof {
        assert(v@.take(v.len() as int) =~= v@);
    }
    out
}

pub fn html_escape(text: &str) -> (r: String)
    ensures
        r@ == html_escape_spec(text@),
{
    let v = chars_of(text);
    let e = html_escape_chars(&v);
    string_of(&e)
}

/// The hashtag of a platform in a caption.
pub open spec fn platform_tag_spec(p: MusicPlatform) -> Seq<char> {
    match p {
        MusicPlatform::AppleMusic => "AppleMusic"@,
        MusicPlatform::Bilibili => "Bilibili"@,
        MusicPlatform::Kugou => "Kugou"@,
        MusicPlatform::Netease => "Netease"@,
        MusicPlatform::Soda => "Soda"@,
        MusicPlatform::Tencent => "QQMusic"@,
    }
}

pub fn platform_tag(platform: MusicPlatform) -> (r: &'static str)
    ensures
        r@ == platform_tag_spec(platform),
{
    match platform {
        MusicPlatform::AppleMusic => "AppleMusic",
        MusicPlatform::Bilibili => "Bilibili",
        MusicPlatform::Kugou => "Kugou",
        MusicPlatform::Netease => "Netease",
        MusicPlatform::Soda => "Soda",
        MusicPlatform::Tencent => "QQMusic",
    }
}

/// The bit rate of a file of `bytes` bytes playing for `duration` seconds:
/// eight times the size over the duration (the product saturating), kept
/// to its low 32 bits; none without a positive duration.
pub fn estimate_bitrate(bytes: u64, duration: Option<u32>) -> (r: Option<u32>)
    ensures
        match duration {
            Some(d) if d > 0 => r == Some(
                ((if bytes * 8 > u64::MAX {
                    u64::MAX as int
                } else {
                    bytes * 8
                }) / (d as int)) as u32,
            ),
            _ => r is None,
        },
{
    match duration {
        Some(d) => {
            if d == 0 {
                return None;
            }
            let bits: u64 = if bytes > u64::MAX / 8 {
                u64::MAX
            } else {
                bytes * 8
            };
            Some((bits / (d as u64)) as u32)
        },
        None => None,
    }
}

/// At most `max` characters: a longer text is cut to `max - 1` characters
/// and an ellipsis.
pub open spec fn truncate_spec(s: Seq<char>, max: int) -> Seq<char> {
    if s.len() <= max {
        s
    } else {
        s.take(if max >= 1 {
            max - 1
        } else {
            0
        }).push('…')
    }
}

pub fn truncate_chars_of(v: &[char], max_chars: usize) -> (r: Vec<char>)
    ensures
        r@ == truncate_spec(v@, max_chars as int),
{
    if v.len() <= max_chars {
        return sub_vec(v, 0, v.len());
    }
    let keep: usize = if max_chars >= 1 {
        max_chars - 1
    } else {
        0
    };
    let mut r = sub_vec(v, 0, keep);
    r.push('…');
    proof {
        assert(v@.subrange(0, v@.len() as int) =~= v@);
    }
    r
}

pub fn truncate_chars(text: &str, max_chars: usize) -> (r: String)
    ensures
        r@ == truncate_spec(text@, max_chars as int),
{
    let v = chars_of(text);
    let t = truncate_chars_of(&v, max_chars);
    string_of(&t)
}

/// Text for an inline message: at most 4096 characters.
pub fn truncate_inline_text(text: &str) -> (r: String)
    ensures
        r@ == truncate_spec(text@, 4096),
{
    truncate_chars(text, 4096)
}

/// The lyrics of a track as one text: the lyrics, then the translation
/// after a blank line; a notice where both are blank.
pub open spec fn lrc_content_spec(plain: Seq<char>, translation: Seq<char>) -> Seq<char> {
    let p = trim_spec(plain);
    let t = trim_spec(translation);
    let c = if t.len() == 0 {
        p
    } else if p.len() == 0 {
        t
    } else {
        p + "\n\n"@ + t
    };
    if c.len() == 0 {
        "暂无歌词信息\n"@
    } else {
        c
    }
}

pub fn build_lrc_content(plain: &str, translation: &str) -> (r: String)
    ensures
        r@ == lrc_content_spec(plain@, translation@),
{
    let pv = chars_of(plain);
    let mut content = trim_chars(&pv);
    let tv = chars_of(translation);
    let t = trim_chars(&tv);
    if t.len() > 0 {
        if content.len() > 0 {
            extend_str(&mut content, "\n\n");
        }
        extend_chars(&mut content, &t);
    }
    if content.len() == 0 {
        String::from_str("暂无歌词信息\n")
    } else {
        string_of(&content)
    }
}

/// The shown name of a lyric format.
pub open spec fn format_name_spec(f: Seq<char>) -> Seq<char> {
    if f == "txt"@ {
        "纯文本"@
    } else if f == "srt"@ {
        "SRT 字幕"@
    } else if f == "ttml"@ {
        "TTML 逐词"@
    } else {
        "LRC"@
    }
}

pub fn lyric_format_display_name(format: &str) -> (r: &'static str)
    ensures
        r@ == format_name_spec(format@),
{
    let v = chars_of(format);
    proof {
        reveal_strlit("lrc");
        reveal_strlit("txt");
        reveal_strlit("srt");
        reveal_strlit("ttml");
    }
    if eq_str(&v, "lrc") {
        proof {
            assert(format@ == "lrc"@);
            assert("lrc"@[0] != "txt"@[0] && "lrc"@[0] != "srt"@[0] && "lrc"@.len() != "ttml"@.len());
        }
        "LRC"
    } else if eq_str(&v, "txt") {
        "纯文本"
    } else if eq_str(&v, "srt") {
        "SRT 字幕"
    } else if eq_str(&v, "ttml") {
        "TTML 逐词"
    } else {
        "LRC"
    }
}

/// A file name without its last extension (`rsplit_once('.')`).
pub open spec fn trim_extension_spec(s: Seq<char>) -> Seq<char> {
    match crate::text::rsplit_once_spec(s, '.') {
        Some((base, _)) => base,
        None => s,
    }
}

pub fn trim_file_extension(value: &str) -> (r: &str)
    ensures
        r@ == trim_extension_spec(value@),
{
    let v = chars_of(value);
    match crate::text::rfind_char(&v, '.') {
        Some(i) => {
            proof {
                crate::text::lemma_last_index(value@, '.', i as int);
                assert(value@.subrange(0, i as int) =~= value@.take(i as int));
            }
            value.substring_char(0, i)
        },
        None => {
            proof {
                crate::text::lemma_no_index(value@, '.');
            }
            value
        },
    }
}

/// Whether a character is not allowed in a file name.
pub open spec fn unsafe_file_char(c: char) -> bool {
    c == '/' || c == '?' || c == '*' || c == ':' || c == '|' || c == '\\' || c == '<' || c == '>'
        || c == '"'
}

pub open spec fn file_safe_spec(s: Seq<char>) -> Seq<char> {
    s.map_values(|c: char| if unsafe_file_char(c) { ' ' } else { c })
}

/// The number of UTF-8 bytes of a character.
pub open spec fn char_len(c: char) -> int {
    let u = c as u32;
    if u <= 0x7F {
        1
    } else if u <= 0x7FF {
        2
    } else if u <= 0xFFFF {
        3
    } else {
        4
    }
}

/// The longest prefix whose UTF-8 encoding fits in `budget` bytes.
pub open spec fn fit_prefix(s: Seq<char>, budget: int) -> Seq<char>
    decreases s.len(),
{
    if s.len() == 0 || char_len(s[0]) > budget {
        Seq::empty()
    } else {
        seq![s[0]] + fit_prefix(s.drop_first(), budget - char_len(s[0]))
    }
}

proof fn lemma_encode_len(s: Seq<char>)
    ensures
        vstd::utf8::encode_utf8(s).len() == (if s.len() == 0 {
            0
        } else {
            char_len(s[0]) + vstd::utf8::encode_utf8(s.drop_first()).len()
        }),
{
    if s.len() > 0 {
        lemma_char_range(s[0]);
    }
}

proof fn lemma_char_range(c: char)
    ensures
        (c as u32) <= 0x10FFFF,
        !(0xD800 <= (c as u32) <= 0xDFFF),
{
}

/// Whether a prefix the budget holds is the whole text.
proof fn lemma_fit_whole(s: Seq<char>, budget: int)
    requires
        budget >= 0,
    ensures
        (fit_prefix(s, budget) =~= s) <==> vstd::utf8::encode_utf8(s).len() <= budget,
        fit_prefix(s, budget).len() <= s.len(),
    decreases s.len(),
{
    lemma_encode_len(s);
    if s.len() > 0 {
        let cl = char_len(s[0]);
        let rest = s.drop_first();
        if cl <= budget {
            lemma_fit_whole(rest, budget - cl);
            let f = fit_prefix(rest, budget - cl);
            assert(fit_prefix(s, budget) == seq![s[0]] + f);
            if f =~= rest {
                assert(seq![s[0]] + f =~= s);
            } else {
                assert(vstd::utf8::encode_utf8(rest).len() > budget - cl);
                if seq![s[0]] + f =~= s {
                    assert((seq![s[0]] + f).drop_first() =~= f);
                    assert(false);
                }
            }
        } else {
            assert(fit_prefix(s, budget) =~= Seq::<char>::empty());
        }
    }
}

/// Whether the UTF-8 encoding of the characters takes at most `max` bytes.
pub fn utf8_fits(v: &[char], max: usize) -> (r: bool)
    ensures
        r == (vstd::utf8::encode_utf8(v@).len() <= max),
{
    let mut total: u128 = 0;
    let mut i: usize = 0;
    proof {
        assert(v@.skip(0) =~= v@);
    }
    while i < v.len()
        invariant
            i <= v.len(),
            total <= 4 * i,
            vstd::utf8::encode_utf8(v@).len() == total + vstd::utf8::encode_utf8(v@.skip(i as int)).len(),
        decreases v.len() - i,
    {
        proof {
            lemma_encode_len(v@.skip(i as int));
            assert(v@.skip(i as int).drop_first() =~= v@.skip(i + 1));
        }
        total = total + char_len_of(v[i]) as u128;
        i = i + 1;
    }
    proof {
        assert(v@.skip(i as int).len() == 0);
    }
    total <= max as u128
}

/// Text of at most `max` UTF-8 bytes: a longer text is cut at the last
/// character boundary within the limit, then trimmed.
pub open spec fn truncate_bytes_spec(s: Seq<char>, max: int) -> Seq<char> {
    if vstd::utf8::encode_utf8(s).len() <= max {
        s
    } else {
        trim_spec(fit_prefix(s, max))
    }
}

fn char_len_of(c: char) -> (r: usize)
    ensures
        r == char_len(c),
{
    let u = c as u32;
    if u <= 0x7F {
        1
    } else if u <= 0x7FF {
        2
    } else if u <= 0xFFFF {
        3
    } else {
        4
    }
}

pub fn truncate_utf8_bytes(value: &str, max_bytes: usize) -> (r: String)
    ensures
        r@ == truncate_bytes_spec(value@, max_bytes as int),
{
    let v = chars_of(value);
    if utf8_fits(&v, max_bytes) {
        return value.to_owned();
    }
    proof {
        assert(v@.skip(0) =~= v@);
        assert(v@.take(0) + fit_prefix(v@, max_bytes as int) =~= fit_prefix(v@, max_bytes as int));
    }
    let mut budget: usize = max_bytes;
    let mut k: usize = 0;
    while k < v.len() && char_len_of(v[k]) <= budget
        invariant
            k <= v.len(),
            budget <= max_bytes,
            fit_prefix(v@, max_bytes as int) == v@.take(k as int) + fit_prefix(
                v@.skip(k as int),
                budget as int,
            ),
        decreases v.len() - k,
    {
        let ghost rest = v@.skip(k as int);
        proof {
            assert(rest[0] == v@[k as int]);
            assert(rest.drop_first() =~= v@.skip(k + 1));
            assert(v@.take(k as int) + seq![v@[k as int]] =~= v@.take(k + 1));
        }
        budget = budget - char_len_of(v[k]);
        k = k + 1;
    }
    proof {
        if k < v.len() {
            assert(v@.skip(k as int)[0] == v@[k as int]);
        }
        assert(fit_prefix(v@.skip(k as int), budget as int) =~= Seq::<char>::empty());
        assert(v@.take(k as int) + Seq::<char>::empty() =~= v@.take(k as int));
    }
    let head = sub_vec(&v, 0, k);
    let t = trim_chars(&head);
    proof {
        assert(head@ =~= v@.take(k as int));
    }
    string_of(&t)
}

/// A lyric file name safe to send: the characters that file systems
/// refuse made spaces, trimmed, at most 180 bytes; `file.lrc` where nothing
/// is left.
pub open spec fn sanitize_spec(name: Seq<char>) -> Seq<char> {
    let cleaned = trim_spec(file_safe_spec(name));
    if cleaned.len() == 0 {
        "file.lrc"@
    } else {
        truncate_bytes_spec(cleaned, 180)
    }
}

pub fn sanitize_file_name(name: &str) -> (r: String)
    ensures
        r@ == sanitize_spec(name@),
{
    let v = chars_of(name);
    let mut cleaned: Vec<char> = Vec::new();
    let mut i: usize = 0;
    while i < v.len()
        invariant
            i <= v.len(),
            cleaned@ == file_safe_spec(v@.take(i as int)),
        decreases v.len() - i,
    {
        let c = v[i];
        let d = if c == '/' || c == '?' || c == '*' || c == ':' || c == '|' || c == '\\' || c
            == '<' || c == '>' || c == '"' {
            ' '
        } else {
            c
        };
        cleaned.push(d);
        proof {
            assert(file_safe_spec(v@.take(i + 1)) =~= file_safe_spec(v@.take(i as int)).push(d));
        }
        i = i + 1;
    }
    proof {
        assert(v@.take(v.len() as int) =~= v@);
    }
    let t = trim_chars(&cleaned);
    if t.len() == 0 {
        return String::from_str("file.lrc");
    }
    let ts = string_of(&t);
    truncate_utf8_bytes(ts.as_str(), 180)
}

/// A value that can stand between `|` in an inline result id: not blank,
/// with no ASCII whitespace and no `|`.
pub open spec fn inline_token(s: Seq<char>) -> bool {
    trim_spec(s).len() > 0 && forall|i: int|
        0 <= i < s.len() ==> !is_ascii_ws(#[trigger] s[i]) && s[i] != '|'
}

pub fn is_inline_result_token(value: &str) -> (r: bool)
    ensures
        r == inline_token(value@),
{
    let v = chars_of(value);
    if crate::text::is_blank(&v) {
        return false;
    }
    let mut i: usize = 0;
    while i < v.len()
        invariant
            i <= v.len(),
            v@ == value@,
            forall|j: int| 0 <= j < i ==> !is_ascii_ws(#[trigger] v@[j]) && v@[j] != '|',
        decreases v.len() - i,
    {
        if crate::text::is_ascii_whitespace(v[i]) || v[i] == '|' {
            proof {
                assert(is_ascii_ws(value@[i as int]) || value@[i as int] == '|');
            }
            return false;
        }
        i = i + 1;
    }
    true
}

/// The id of a pending inline result: `p|{platform}|{id}|{quality}`.
pub open spec fn pending_text(p: MusicPlatform, id: Seq<char>, quality: Seq<char>) -> Seq<char> {
    "p|"@ + platform_code(p) + "|"@ + id + "|"@ + quality
}

/// The pending id, when both values are tokens and it fits in 64 bytes.
pub open spec fn pending_id_spec(p: MusicPlatform, id: Seq<char>, quality: Seq<char>) -> Option<
    Seq<char>,
> {
    if !inline_token(id) || !inline_token(quality) || vstd::utf8::encode_utf8(
        pending_text(p, id, quality),
    ).len() > 64 {
        None
    } else {
        Some(pending_text(p, id, quality))
    }
}

pub fn inline_pending_result_id(platform: MusicPlatform, id: &str, quality: &str) -> (r: Option<
    String,
>)
    ensures
        crate::provider::opt_view(r) == pending_id_spec(platform, id@, quality@),
{
    if !is_inline_result_token(id) || !is_inline_result_token(quality) {
        return None;
    }
    let mut s = String::from_str("p|");
    push_str(&mut s, platform.callback_code());
    push_str(&mut s, "|");
    push_str(&mut s, id);
    push_str(&mut s, "|");
    push_str(&mut s, quality);
    let sv = chars_of(s.as_str());
    if utf8_fits(&sv, 64) {
        Some(s)
    } else {
        None
    }
}

/// What a pending id reads as: the platform, id and quality between the
/// `|`s, when there are exactly four parts, the first `p`, the second a
/// platform code, and the last two tokens.
pub open spec fn parse_pending_spec(v: Seq<char>) -> Option<(MusicPlatform, Seq<char>, Seq<char>)> {
    match split_once_spec(v, '|') {
        None => None,
        Some((head, r1)) => if head != "p"@ {
            None
        } else {
            match split_once_spec(r1, '|') {
                None => None,
                Some((code, r2)) => match platform_of_code(code) {
                    None => None,
                    Some(p) => match split_once_spec(r2, '|') {
                        None => None,
                        Some((id, quality)) => if quality.contains('|') || !inline_token(id)
                            || !inline_token(quality) {
                            None
                        } else {
                            Some((p, id, quality))
                        },
                    },
                },
            }
        },
    }
}

pub fn parse_inline_pending_result_id(value: &str) -> (r: Option<(MusicPlatform, String, String)>)
    ensures
        match parse_pending_spec(value@) {
            Some((p, id, q)) => r matches Some((rp, rid, rq)) && rp == p && rid@ == id && rq@ == q,
            None => r is None,
        },
{
    let v = chars_of(value);
    let (head, r1) = match crate::text::split_once(&v, '|') {
        Some(x) => x,
        None => return None,
    };
    if !eq_str(&head, "p") {
        return None;
    }
    let (code, r2) = match crate::text::split_once(&r1, '|') {
        Some(x) => x,
        None => return None,
    };
    let platform = match crate::provider::platform_of_code_chars(&code) {
        Some(p) => p,
        None => return None,
    };
    let (id, quality) = match crate::text::split_once(&r2, '|') {
        Some(x) => x,
        None => return None,
    };
    if crate::text::contains_char(&quality, '|') {
        return None;
    }
    let ids = string_of(&id);
    let qs = string_of(&quality);
    if !is_inline_result_token(ids.as_str()) || !is_inline_result_token(qs.as_str()) {
        return None;
    }
    Some((platform, ids, qs))
}

/// A pending id reads back as the platform, id and quality it was made
/// of.
pub proof fn lemma_pending_id_roundtrip(p: MusicPlatform, id: Seq<char>, quality: Seq<char>)
    requires
        pending_id_spec(p, id, quality) is Some,
    ensures
        parse_pending_spec(pending_id_spec(p, id, quality).unwrap()) == Some((p, id, quality)),
{
    reveal_strlit("p|");
    reveal_strlit("|");
    reveal_strlit("p");
    crate::callback::lemma_platform_code(p);
    let code = platform_code(p);
    reveal_strlit("a");
    reveal_strlit("b");
    reveal_strlit("k");
    reveal_strlit("n");
    reveal_strlit("s");
    reveal_strlit("t");
    assert(!id.contains('|')) by {
        if id.contains('|') {
            let i = choose|i: int| 0 <= i < id.len() && id[i] == '|';
        }
    }
    assert(!quality.contains('|')) by {
        if quality.contains('|') {
            let i = choose|i: int| 0 <= i < quality.len() && quality[i] == '|';
        }
    }
    assert(!code.contains('|'));
    assert(!"p"@.contains('|'));
    let t = pending_text(p, id, quality);
    let r2 = id + seq!['|'] + quality;
    let r1 = code + seq!['|'] + r2;
    assert(t =~= "p"@ + seq!['|'] + r1);
    crate::text::lemma_split_once_concat("p"@, '|', r1);
    crate::text::lemma_split_once_concat(code, '|', r2);
    crate::text::lemma_split_once_concat(id, '|', quality);
}

} // verus!


verus! {

/// The first position from `k` on holding `c`, or the length.
pub open spec fn find_from(s: Seq<char>, c: char, k: int) -> int
    decreases s.len() - k,
{
    if k < 0 || k >= s.len() {
        s.len() as int
    } else if s[k] == c {
        k
    } else {
        find_from(s, c, k + 1)
    }
}

pub proof fn lemma_find_from_bounds(s: Seq<char>, c: char, k: int)
    requires
        0 <= k,
    ensures
        k <= find_from(s, c, k) <= s.len() || (k > s.len() && find_from(s, c, k) == s.len()),
        find_from(s, c, k) < s.len() ==> s[find_from(s, c, k)] == c,
        forall|j: int| k <= j < find_from(s, c, k) ==> s[j] != c,
    decreases s.len() - k,
{
    if k < s.len() && s[k] != c {
        lemma_find_from_bounds(s, c, k + 1);
    }
}

pub fn find_char_from(v: &[char], c: char, k: usize) -> (r: usize)
    requires
        k <= v.len(),
    ensures
        r == find_from(v@, c, k as int),
        k <= r <= v.len(),
{
    let mut j = k;
    while j < v.len() && v[j] != c
        invariant
            k <= j <= v.len(),
            find_from(v@, c, k as int) == find_from(v@, c, j as int),
        decreases v.len() - j,
    {
        j = j + 1;
    }
    j
}

/// A line with its leading `[...]` time tags removed (`strip_lrc_timestamps`
/// on text already trimmed at the start).
pub open spec fn strip_tags_from(rest: Seq<char>) -> Seq<char>
    decreases rest.len(),
{
    if rest.len() > 0 && rest[0] == '[' {
        let j = find_from(rest, ']', 1);
        if j < rest.len() {
            proof {
                lemma_find_from_bounds(rest, ']', 1);
                crate::text::lemma_trim_start_shape(rest.skip(j + 1));
            }
            strip_tags_from(crate::text::trim_start_spec(rest.skip(j + 1)))
        } else {
            rest
        }
    } else {
        rest
    }
}

pub open spec fn strip_timestamps_spec(line: Seq<char>) -> Seq<char> {
    strip_tags_from(crate::text::trim_start_spec(line))
}

/// A lyric line without its leading time tags.
pub fn strip_lrc_timestamps(line: &str) -> (r: String)
    ensures
        r@ == strip_timestamps_spec(line@),
{
    let v = chars_of(line);
    let mut rest = crate::text::trim_start_chars(&v);
    while rest.len() > 0 && rest[0] == '['
        invariant
            strip_tags_from(rest@) == strip_timestamps_spec(line@),
        ensures
            rest@ == strip_timestamps_spec(line@),
        decreases rest.len(),
    {
        let j = find_char_from(&rest, ']', 1);
        if j >= rest.len() {
            break;
        }
        let after = sub_vec(&rest, j + 1, rest.len());
        let next = crate::text::trim_start_chars(&after);
        proof {
            assert(after@ =~= rest@.skip(j + 1));
            crate::text::lemma_trim_start_shape(rest@.skip(j + 1));
        }
        rest = next;
    }
    string_of(&rest)
}

} // verus!

verus! {

/// The lines of a text, split at each `\n`.
pub open spec fn split_lines(s: Seq<char>) -> Seq<Seq<char>>
    decreases s.len(),
{
    let j = find_from(s, '\n', 0);
    if j >= s.len() {
        seq![s]
    } else {
        proof {
            lemma_find_from_bounds(s, '\n', 0);
        }
        seq![s.take(j)] + split_lines(s.skip(j + 1))
    }
}

/// The non-blank lines of a lyric preview, each without time tags and
/// trimmed.
pub open spec fn preview_lines(lines: Seq<Seq<char>>) -> Seq<Seq<char>>
    decreases lines.len(),
{
    if lines.len() == 0 {
        Seq::empty()
    } else {
        let t = trim_spec(strip_timestamps_spec(lines[0]));
        (if t.len() > 0 {
            seq![t]
        } else {
            Seq::empty()
        }) + preview_lines(lines.drop_first())
    }
}

/// The lyric text shown in a caption: the non-blank lines without their
/// time tags, joined by line breaks. (A `\r` before a line break is
/// whitespace that trimming removes, as `str::lines` would.)
pub open spec fn preview_spec(content: Seq<char>) -> Seq<char> {
    crate::text::join_spec(preview_lines(split_lines(content)), "\n"@)
}

pub proof fn lemma_find_shift(s: Seq<char>, c: char, k: int)
    requires
        0 <= k <= s.len(),
    ensures
        find_from(s, c, k) == k + find_from(s.skip(k), c, 0),
    decreases s.len() - k,
{
    if k < s.len() && s[k] != c {
        lemma_find_shift(s, c, k + 1);
        assert(s.skip(k).skip(1) =~= s.skip(k + 1));
        lemma_find_skip1(s.skip(k), c);
    }
}

proof fn lemma_find_skip1(s: Seq<char>, c: char)
    requires
        s.len() > 0,
        s[0] != c,
    ensures
        find_from(s, c, 0) == 1 + find_from(s.skip(1), c, 0),
{
    lemma_find_rel(s, c, 1);
}

proof fn lemma_find_rel(s: Seq<char>, c: char, k: int)
    requires
        1 <= k <= s.len(),
        forall|j: int| 0 <= j < k ==> s[j] != c,
    ensures
        find_from(s, c, 0) == find_from(s, c, k),
        find_from(s, c, k) == 1 + find_from(s.skip(1), c, k - 1),
    decreases s.len() - k,
{
    lemma_find_prefix(s, c, 0, k);
    if k < s.len() {
        if s[k] != c {
            lemma_find_rel(s, c, k + 1);
            assert(s.skip(1)[k - 1] == s[k]);
        } else {
            assert(s.skip(1)[k - 1] == s[k]);
        }
    }
}

proof fn lemma_find_prefix(s: Seq<char>, c: char, a: int, b: int)
    requires
        0 <= a <= b <= s.len(),
        forall|j: int| a <= j < b ==> s[j] != c,
    ensures
        find_from(s, c, a) == find_from(s, c, b),
    decreases b - a,
{
    if a < b {
        lemma_find_prefix(s, c, a + 1, b);
    }
}

pub fn lyric_preview_text(content: &str) -> (r: String)
    ensures
        r@ == preview_spec(content@),
{
    let v = chars_of(content);
    let mut kept: Vec<Vec<char>> = Vec::new();
    let mut i: usize = 0;
    proof {
        assert(v@.skip(0) =~= v@);
        assert(crate::text::vec_views(kept@) + preview_lines(split_lines(v@)) =~= preview_lines(
            split_lines(v@),
        ));
    }
    loop
        invariant_except_break
            i <= v.len(),
            v@ == content@,
            crate::text::vec_views(kept@) + preview_lines(split_lines(v@.skip(i as int)))
                == preview_lines(split_lines(v@)),
        ensures
            crate::text::vec_views(kept@) == preview_lines(split_lines(v@)),
            v@ == content@,
        decreases v.len() - i,
    {
        let j = find_char_from(&v, '\n', i);
        let line = sub_vec(&v, i, j);
        let ls = string_of(&line);
        let stripped = strip_lrc_timestamps(ls.as_str());
        let sv = chars_of(stripped.as_str());
        let t = trim_chars(&sv);
        let ghost rest = v@.skip(i as int);
        let ghost k0 = crate::text::vec_views(kept@);
        proof {
            lemma_find_shift(v@, '\n', i as int);
            lemma_find_from_bounds(rest, '\n', 0);
            let jj = find_from(rest, '\n', 0);
            assert(jj == j - i);
            assert(line@ =~= rest.take(jj));
        }
        if t.len() > 0 {
            kept.push(t);
        }
        proof {
            let jj = find_from(rest, '\n', 0);
            let tail = if jj >= rest.len() {
                Seq::<Seq<char>>::empty()
            } else {
                split_lines(rest.skip(jj + 1))
            };
            assert(split_lines(rest) == seq![rest.take(jj)] + tail);
            assert((seq![rest.take(jj)] + tail).drop_first() =~= tail);
            assert((seq![rest.take(jj)] + tail)[0] == rest.take(jj));
            if t@.len() > 0 {
                assert(crate::text::vec_views(kept@) =~= k0.push(t@));
            } else {
                assert(crate::text::vec_views(kept@) =~= k0);
            }
        }
        if j >= v.len() {
            proof {
                let jj = find_from(rest, '\n', 0);
                assert(split_lines(rest) == seq![rest.take(jj)]);
                assert(seq![rest.take(jj)].drop_first() =~= Seq::<Seq<char>>::empty());
                assert(preview_lines(Seq::<Seq<char>>::empty()) =~= Seq::<Seq<char>>::empty());
                if t@.len() > 0 {
                    assert(preview_lines(split_lines(rest)) =~= seq![t@]);
                } else {
                    assert(preview_lines(split_lines(rest)) =~= Seq::<Seq<char>>::empty());
                }
                assert(crate::text::vec_views(kept@) =~= k0 + preview_lines(split_lines(rest)));
            }
            break;
        }
        proof {
            let jj = find_from(rest, '\n', 0);
            assert(rest.skip(jj + 1) =~= v@.skip(j + 1));
        }
        i = j + 1;
    }
    let joined = crate::text::join_vecs(&kept, "\n");
    string_of(&joined)
}

} // verus!

verus! {

pub open spec fn caption_header(format: Seq<char>, script: MusicLyricScript) -> Seq<char> {
    "当前歌词格式: "@ + format_name_spec(format) + "\n当前歌词文字: "@ + script_label(script)
}

pub open spec fn quoted(header: Seq<char>, body: Seq<char>) -> Seq<char> {
    header + "\n<blockquote expandable>"@ + body + "</blockquote>"@
}

/// The caption of a lyric document: the format and script, then a preview
/// of the lyrics in an expandable quote when it fits in 1000 characters,
/// else the first 400 characters of the escaped preview and an ellipsis
/// when that fits, else the header alone.
pub open spec fn lyric_caption_spec(content: Seq<char>, format: Seq<char>, script: MusicLyricScript) -> Seq<
    char,
> {
    let header = caption_header(format, script);
    let preview = preview_spec(content);
    if preview.len() == 0 {
        header
    } else {
        let escaped = html_escape_spec(preview);
        if quoted(header, escaped).len() <= 1000 {
            quoted(header, escaped)
        } else {
            let cut = escaped.take(if escaped.len() < 400 {
                escaped.len() as int
            } else {
                400
            }).push('…');
            if quoted(header, cut).len() <= 1000 {
                quoted(header, cut)
            } else {
                header
            }
        }
    }
}

fn quoted_chars(header: &[char], body: &[char]) -> (r: Vec<char>)
    ensures
        r@ == quoted(header@, body@),
{
    let mut r = sub_vec(header, 0, header.len());
    extend_str(&mut r, "\n<blockquote expandable>");
    extend_chars(&mut r, body);
    extend_str(&mut r, "</blockquote>");
    proof {
        assert(header@.subrange(0, header@.len() as int) =~= header@);
    }
    r
}

pub fn build_lyric_caption(content: &str, format: &str, script: MusicLyricScript) -> (r: String)
    ensures
        r@ == lyric_caption_spec(content@, format@, script),
{
    let mut header: Vec<char> = chars_of("当前歌词格式: ");
    extend_str(&mut header, lyric_format_display_name(format));
    extend_str(&mut header, "\n当前歌词文字: ");
    extend_str(&mut header, script.label());
    let preview = lyric_preview_text(content);
    let pv = chars_of(preview.as_str());
    if pv.len() == 0 {
        return string_of(&header);
    }
    let escaped = html_escape_chars(&pv);
    let candidate = quoted_chars(&header, &escaped);
    if candidate.len() <= 1000 {
        return string_of(&candidate);
    }
    let keep: usize = if escaped.len() < 400 {
        escaped.len()
    } else {
        400
    };
    let mut cut = sub_vec(&escaped, 0, keep);
    cut.push('…');
    proof {
        assert(escaped@.subrange(0, keep as int) =~= escaped@.take(keep as int));
    }
    let candidate = quoted_chars(&header, &cut);
    if candidate.len() <= 1000 {
        string_of(&candidate)
    } else {
        string_of(&header)
    }
}

/// A lyric block that fits: the content trimmed and cut to `limit`
/// characters, escaped and quoted after the header; while the whole is
/// longer than `cap` and the limit above `floor`, the limit shrinks to
/// nine tenths.
pub open spec fn fitted_block(
    header: Seq<char>,
    content: Seq<char>,
    limit: nat,
    cap: nat,
    floor: nat,
) -> Seq<char>
    decreases limit,
{
    let block = header + "<blockquote expandable>"@ + html_escape_spec(
        truncate_spec(trim_spec(content), limit as int),
    ) + "</blockquote>"@;
    if block.len() <= cap || limit <= floor {
        block
    } else {
        fitted_block(header, content, limit * 9 / 10, cap, floor)
    }
}

/// The first limit: what the cap leaves after the header, the quote tags
/// and eight characters of slack, but at least `floor`.
pub open spec fn first_limit(header_len: nat, cap: nat, floor: nat) -> nat {
    let room = cap - header_len - 36 - 8;
    if room > floor {
        room as nat
    } else {
        floor
    }
}

fn fit_block(header: &[char], content: &str, cap: usize, floor: usize) -> (r: Vec<char>)
    requires
        cap <= 4096,
        floor <= cap,
    ensures
        r@ == fitted_block(header@, content@, first_limit(header@.len(), cap as nat, floor as nat), cap as nat, floor as nat),
{
    let room: usize = if header.len() >= cap {
        0
    } else {
        let a = cap - header.len();
        if a >= 44 {
            a - 44
        } else {
            0
        }
    };
    let mut limit: usize = if room > floor {
        room
    } else {
        floor
    };
    proof {
        reveal_strlit("<blockquote expandable>");
        reveal_strlit("</blockquote>");
    }
    let cv = chars_of(content);
    let trimmed = trim_chars(&cv);
    loop
        invariant
            limit <= cap,
            floor <= cap <= 4096,
            trimmed@ == trim_spec(content@),
            fitted_block(header@, content@, limit as nat, cap as nat, floor as nat)
                == fitted_block(header@, content@, first_limit(header@.len(), cap as nat, floor as nat), cap as nat, floor as nat),
        decreases limit,
    {
        let cut = truncate_chars_of(&trimmed, limit);
        let esc = html_escape_chars(&cut);
        let mut block = sub_vec(header, 0, header.len());
        extend_str(&mut block, "<blockquote expandable>");
        extend_chars(&mut block, &esc);
        extend_str(&mut block, "</blockquote>");
        proof {
            assert(header@.subrange(0, header@.len() as int) =~= header@);
        }
        if block.len() <= cap || limit <= floor {
            return block;
        }
        limit = limit * 9 / 10;
    }
}

/// The HTML message of lyrics sent inline: song and singer in bold, the
/// script, then the lyrics fitted into 4096 characters (the limit never
/// below 128).
pub open spec fn inline_lyric_html_spec(
    song: Seq<char>,
    singer: Seq<char>,
    content: Seq<char>,
    script: MusicLyricScript,
) -> Seq<char> {
    let header = "<b>"@ + html_escape_spec(song) + " - "@ + html_escape_spec(singer)
        + "</b>\n当前歌词文字: "@ + script_label(script) + "\n"@;
    fitted_block(header, content, first_limit(header.len(), 4096, 128), 4096, 128)
}

pub fn build_inline_lyric_html(song: &str, singer: &str, content: &str, script: MusicLyricScript) -> (r:
    String)
    ensures
        r@ == inline_lyric_html_spec(song@, singer@, content@, script),
{
    let mut header: Vec<char> = chars_of("<b>");
    let sv = chars_of(song);
    let se = html_escape_chars(&sv);
    extend_chars(&mut header, &se);
    extend_str(&mut header, " - ");
    let gv = chars_of(singer);
    let ge = html_escape_chars(&gv);
    extend_chars(&mut header, &ge);
    extend_str(&mut header, "</b>\n当前歌词文字: ");
    extend_str(&mut header, script.label());
    extend_str(&mut header, "\n");
    let r = fit_block(&header, content, 4096, 128);
    string_of(&r)
}

/// A caption with the lyrics appended: the base, the script, then the
/// lyrics fitted into 1024 characters (the limit never below 64).
pub open spec fn lyric_block_spec(base: Seq<char>, content: Seq<char>, script: MusicLyricScript) -> Seq<
    char,
> {
    let header = base + "\n当前歌词文字: "@ + script_label(script) + "\n"@;
    fitted_block(header, content, first_limit(header.len(), 1024, 64), 1024, 64)
}

pub fn append_inline_lyric_block(base: &str, content: &str, script: MusicLyricScript) -> (r: String)
    ensures
        r@ == lyric_block_spec(base@, content@, script),
{
    let mut header: Vec<char> = chars_of(base);
    extend_str(&mut header, "\n当前歌词文字: ");
    extend_str(&mut header, script.label());
    extend_str(&mut header, "\n");
    let r = fit_block(&header, content, 1024, 64);
    string_of(&r)
}

} // verus!

verus! {

/// Trailing platform and quality words of an inline query, looked at from
/// the end, at most `n` of them.
pub open spec fn suffix_options(
    parts: Seq<Seq<char>>,
    platform: MusicPlatform,
    quality: Seq<char>,
    n: nat,
) -> (Seq<Seq<char>>, MusicPlatform, Seq<char>)
    decreases n,
{
    if n == 0 || parts.len() == 0 {
        (parts, platform, quality)
    } else {
        let last = trim_spec(parts.last());
        match platform_of_alias(last) {
            Some(p) => suffix_options(parts.drop_last(), p, quality, (n - 1) as nat),
            None => if crate::settings::is_option(crate::settings::quality_options(), last) {
                suffix_options(parts.drop_last(), platform, last, (n - 1) as nat)
            } else {
                (parts, platform, quality)
            },
        }
    }
}

/// An inline query read as keyword, platform and quality: up to two
/// trailing words may name the platform or the quality, which otherwise
/// come from the settings.
pub open spec fn inline_query_spec(text: Seq<char>, s: crate::settings::SettingsView) -> (
    Seq<char>,
    MusicPlatform,
    Seq<char>,
) {
    let platform = match platform_of_alias(s.default_platform) {
        Some(p) => p,
        None => crate::provider::default_platform_spec(),
    };
    let (parts, p, q) = suffix_options(
        crate::text::ws_tokens(text),
        platform,
        crate::settings::cache_quality_spec(s.quality),
        2,
    );
    (crate::text::join_spec(parts, " "@), p, q)
}

fn quality_known(v: &[char]) -> (r: bool)
    ensures
        r == crate::settings::is_option(crate::settings::quality_options(), v@),
{
    proof {
        reveal_with_fuel(crate::settings::is_option, 5);
    }
    eq_str(v, "standard") || eq_str(v, "high") || eq_str(v, "lossless") || eq_str(v, "hires")
}

pub fn parse_inline_music_query(text: &str, settings: &crate::settings::UserMusicSettings) -> (r: (
    String,
    MusicPlatform,
    String,
))
    ensures
        ({
            let (k, p, q) = inline_query_spec(text@, settings@);
            r.0@ == k && r.1 == p && r.2@ == q
        }),
{
    let tv = chars_of(text);
    let mut parts = crate::text::split_whitespace(&tv);
    let mut platform = crate::settings::settings_platform(settings);
    let mut quality = crate::settings::music_cache_quality(settings);
    let mut n: usize = 2;
    while n > 0 && parts.len() > 0
        invariant
            n <= 2,
            suffix_options(crate::text::vec_views(parts@), platform, quality@, n as nat)
                == suffix_options(
                crate::text::ws_tokens(text@),
                match platform_of_alias(settings.default_platform@) {
                    Some(p) => p,
                    None => crate::provider::default_platform_spec(),
                },
                crate::settings::cache_quality_spec(settings.quality@),
                2,
            ),
        ensures
            suffix_options(crate::text::vec_views(parts@), platform, quality@, n as nat) == (
                crate::text::vec_views(parts@),
                platform,
                quality@,
            ),
            suffix_options(crate::text::vec_views(parts@), platform, quality@, n as nat)
                == suffix_options(
                crate::text::ws_tokens(text@),
                match platform_of_alias(settings.default_platform@) {
                    Some(p) => p,
                    None => crate::provider::default_platform_spec(),
                },
                crate::settings::cache_quality_spec(settings.quality@),
                2,
            ),
        decreases n,
    {
        let ghost pv = crate::text::vec_views(parts@);
        let last = trim_chars(&parts[parts.len() - 1]);
        proof {
            assert(pv.last() == parts@[parts.len() - 1]@);
            assert(pv.drop_last() =~= crate::text::vec_views(parts@.drop_last()));
        }
        let ls = string_of(&last);
        match MusicPlatform::from_alias(ls.as_str()) {
            Some(p) => {
                platform = p;
                parts.pop();
            },
            None => {
                if quality_known(&last) {
                    quality = ls;
                    parts.pop();
                } else {
                    break;
                }
            },
        }
        n = n - 1;
    }
    let joined = crate::text::join_vecs(&parts, " ");
    (string_of(&joined), platform, quality)
}

/// The lyric search of an inline query: the text after a lyric prefix
/// (`歌词 `, `lyric ` or `lyrics `), trimmed, when not blank.
pub open spec fn lyric_query_spec(text: Seq<char>) -> Option<Seq<char>> {
    let t = trim_spec(text);
    let rest = if has_prefix(t, "歌词 "@) {
        Some(t.skip(3))
    } else if has_prefix(t, "lyric "@) {
        Some(t.skip(6))
    } else if has_prefix(t, "lyrics "@) {
        Some(t.skip(7))
    } else {
        None
    };
    match rest {
        Some(r) => if trim_spec(r).len() > 0 {
            Some(trim_spec(r))
        } else {
            None
        },
        None => None,
    }
}

pub fn parse_inline_lyric_query(text: &str) -> (r: Option<String>)
    ensures
        crate::provider::opt_view(r) == lyric_query_spec(text@),
{
    let v = chars_of(text);
    let t = trim_chars(&v);
    proof {
        reveal_strlit("歌词 ");
        reveal_strlit("lyric ");
        reveal_strlit("lyrics ");
    }
    let skip: usize = if crate::text::starts_with_str(&t, "歌词 ") {
        3
    } else if crate::text::starts_with_str(&t, "lyric ") {
        6
    } else if crate::text::starts_with_str(&t, "lyrics ") {
        7
    } else {
        return None;
    };
    let rest = sub_vec(&t, skip, t.len());
    let tr = trim_chars(&rest);
    proof {
        assert(rest@ =~= t@.skip(skip as int));
    }
    if tr.len() > 0 {
        Some(string_of(&tr))
    } else {
        None
    }
}

/// Whether a keyword asks for one track rather than a search: blank, the
/// track's id, a link, or `{platform}:{id}`.
pub open spec fn direct_lookup_spec(keyword: Seq<char>, platform: MusicPlatform, id: Seq<char>) -> bool {
    let k = trim_spec(keyword);
    k.len() == 0 || k == id || has_prefix(k, "http://"@) || has_prefix(k, "https://"@) || k
        == platform_id(platform) + ":"@ + id
}

pub fn is_direct_track_lookup(keyword: &str, track: &crate::provider::MusicTrack) -> (r: bool)
    ensures
        r == direct_lookup_spec(keyword@, track.platform, track.id@),
{
    let v = chars_of(keyword);
    let k = trim_chars(&v);
    if k.len() == 0 {
        return true;
    }
    if eq_str(&k, track.id.as_str()) || crate::text::starts_with_str(&k, "http://")
        || crate::text::starts_with_str(&k, "https://") {
        return true;
    }
    let mut expected: Vec<char> = chars_of(track.platform.id());
    expected.push(':');
    extend_str(&mut expected, track.id.as_str());
    proof {
        reveal_strlit(":");
        assert(expected@ =~= platform_id(track.platform) + ":"@ + track.id@);
    }
    crate::text::chars_eq(&k, &expected)
}

/// The platform a command names, or the default; an unknown name is an
/// error that quotes it.
pub fn parse_optional_platform(platform_alias: Option<&str>, default_platform: MusicPlatform) -> (r:
    Result<MusicPlatform, BotError>)
    ensures
        match platform_alias {
            Some(a) => match platform_of_alias(a@) {
                Some(p) => r == Ok::<MusicPlatform, BotError>(p),
                None => r matches Err(BotError::Custom(m)) && m@ == "暂不支持音乐平台："@ + a@,
            },
            None => r == Ok::<MusicPlatform, BotError>(default_platform),
        },
{
    match platform_alias {
        Some(alias) => match MusicPlatform::from_alias(alias) {
            Some(p) => Ok(p),
            None => Err(BotError::Custom(concat("暂不支持音乐平台：", alias))),
        },
        None => Ok(default_platform),
    }
}

} // verus!

verus! {

/// The text converted by OpenCC's built-in configuration: Simplified to
/// Traditional Chinese when `traditional`, else Traditional to Simplified.
pub uninterp spec fn script_conversion(text: Seq<char>, traditional: bool) -> Seq<char>;

/// Whether OpenCC loads its built-in configuration for the direction
/// (to traditional when `traditional`); it reads only the configuration
/// built into the crate.
pub uninterp spec fn opencc_available(traditional: bool) -> bool;

/// `OpenCC::from_config` with `BuiltinConfig::S2t` (to traditional) or
/// `BuiltinConfig::T2s` (to simplified), then `OpenCC::convert` of the
/// text. The result is there exactly when the built-in configuration
/// loads, and is then the conversion of the text by that configuration.
#[verifier::external_body]
fn opencc_convert(text: &str, traditional: bool) -> (r: Option<String>)
    ensures
        r is Some <==> opencc_available(traditional),
        r matches Some(s) ==> s@ == script_conversion(text@, traditional),
{
    let config = if traditional {
        ferrous_opencc::config::BuiltinConfig::S2t
    } else {
        ferrous_opencc::config::BuiltinConfig::T2s
    };
    ferrous_opencc::OpenCC::from_config(config).ok().map(|cc| cc.convert(text))
}

/// Lyrics in the chosen script: converted where the converter for that
/// direction loads, else kept as they are.
pub open spec fn script_text(content: Seq<char>, script: MusicLyricScript) -> Seq<char> {
    let t = script == MusicLyricScript::Traditional;
    if opencc_available(t) {
        script_conversion(content, t)
    } else {
        content
    }
}

pub fn convert_lyric_script(content: &str, script: MusicLyricScript) -> (r: String)
    ensures
        r@ == script_text(content@, script),
{
    let traditional = match script {
        MusicLyricScript::Simplified => false,
        MusicLyricScript::Traditional => true,
    };
    match opencc_convert(content, traditional) {
        Some(s) => s,
        None => content.to_owned(),
    }
}

} // verus!

verus! {

/// The HTML message of a track's lyrics sent inline: the lyrics and their
/// translation joined, converted to the script, then fitted.
pub fn inline_lyric_text(
    song: &str,
    singer: &str,
    plain: &str,
    translation: &str,
    script: MusicLyricScript,
) -> (r: String)
    ensures
        r@ == inline_lyric_html_spec(
            song@,
            singer@,
            script_text(lrc_content_spec(plain@, translation@), script),
            script,
        ),
{
    let content = build_lrc_content(plain, translation);
    let converted = convert_lyric_script(content.as_str(), script);
    build_inline_lyric_html(song, singer, converted.as_str(), script)
}

} // verus!
