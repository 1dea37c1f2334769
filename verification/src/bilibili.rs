//! Bilibili rules: API status codes, video ids in text, titles with their
//! markup removed, and image addresses.
use vstd::prelude::*;
use crate::error::BotError;
use crate::text::{chars_of, has_prefix, is_alnum, push_str, string_of, trim_chars, trim_spec};

verus! {

/// Success for code 0; else an error with the code and message.
pub fn ensure_bilibili_ok(code: i64, message: &str) -> (r: Result<(), BotError>)
    ensures
        code == 0 ==> r is Ok,
        code != 0 ==> (r matches Err(BotError::Custom(m)) && m@ == "Bilibili API 错误 "@
            + crate::num::int_text(code as int) + ": "@ + message@),
{
    if code == 0 {
        return Ok(());
    }
    let mut v: Vec<char> = chars_of("Bilibili API 错误 ");
    crate::num::push_i64(&mut v, code);
    crate::text::extend_str(&mut v, ": ");
    crate::text::extend_str(&mut v, message);
    Err(BotError::Custom(string_of(&v)))
}

/// An ASCII letter or digit in a case-insensitive match: also the long s
/// and the Kelvin sign, which fold to `s` and `k`.
pub open spec fn id_char(c: char) -> bool {
    is_alnum(c) || c == '\u{17F}' || c == '\u{212A}'
}

/// Whether a `BV` id (either case) followed by ten id characters starts at
/// `i`.
pub open spec fn bv_at(s: Seq<char>, i: int) -> bool {
    0 <= i && i + 12 <= s.len() && (s[i] == 'B' || s[i] == 'b') && (s[i + 1] == 'V' || s[i + 1]
        == 'v') && forall|k: int| i + 2 <= k < i + 12 ==> id_char(#[trigger] s[k])
}

/// The first place from `k` on where a video id starts.
pub open spec fn first_bv(s: Seq<char>, k: int) -> Option<int>
    decreases s.len() - k,
{
    if k < 0 || k + 12 > s.len() {
        None
    } else if bv_at(s, k) {
        Some(k)
    } else {
        first_bv(s, k + 1)
    }
}

/// The first video id in the trimmed text.
pub open spec fn bilibili_id_spec(text: Seq<char>) -> Option<Seq<char>> {
    let t = trim_spec(text);
    match first_bv(t, 0) {
        Some(i) => Some(t.subrange(i, i + 12)),
        None => None,
    }
}

fn check_bv_at(v: &[char], i: usize) -> (r: bool)
    requires
        i + 12 <= v.len(),
    ensures
        r == bv_at(v@, i as int),
{
    if !(v[i] == 'B' || v[i] == 'b') || !(v[i + 1] == 'V' || v[i + 1] == 'v') {
        return false;
    }
    let mut k: usize = i + 2;
    while k < i + 12
        invariant
            i + 2 <= k <= i + 12,
            i + 12 <= v.len(),
            forall|j: int| i + 2 <= j < k ==> id_char(#[trigger] v@[j]),
        decreases i + 12 - k,
    {
        let c = v[k];
        if !(crate::text::is_ascii_alphanumeric(c) || c == '\u{17F}' || c == '\u{212A}') {
            proof {
                assert(!id_char(v@[k as int]));
            }
            return false;
        }
        k = k + 1;
    }
    true
}

pub fn parse_bilibili_id(text: &str) -> (r: Option<String>)
    ensures
        crate::provider::opt_view(r) == bilibili_id_spec(text@),
{
    let v = chars_of(text);
    let t = trim_chars(&v);
    let mut k: usize = 0;
    while k <= t.len() && t.len() - k >= 12
        invariant
            k <= t.len(),
            t@ == trim_spec(text@),
            first_bv(t@, k as int) == first_bv(t@, 0),
        decreases t.len() - k,
    {
        if check_bv_at(&t, k) {
            let id = crate::text::sub_vec(&t, k, k + 12);
            return Some(string_of(&id));
        }
        k = k + 1;
    }
    None
}

/// The first tag from `k` on: a `<`, at least one character other than
/// `>`, then the first `>`; its start and end.
pub open spec fn first_tag(s: Seq<char>, k: int) -> Option<(int, int)>
    decreases s.len() - k,
{
    if k < 0 || k >= s.len() {
        None
    } else if s[k] == '<' && k + 1 < s.len() && s[k + 1] != '>' && crate::music_text::find_from(
        s,
        '>',
        k + 1,
    ) < s.len() {
        Some((k, crate::music_text::find_from(s, '>', k + 1)))
    } else {
        first_tag(s, k + 1)
    }
}

/// The text with every `<...>` tag removed, leftmost first.
pub open spec fn strip_tags_spec(s: Seq<char>) -> Seq<char>
    decreases s.len(),
{
    match first_tag(s, 0) {
        Some((a, b)) => {
            proof {
                lemma_first_tag_bounds(s, 0);
            }
            s.take(a) + strip_tags_spec(s.skip(b + 1))
        },
        None => s,
    }
}

pub proof fn lemma_first_tag_bounds(s: Seq<char>, k: int)
    requires
        0 <= k,
    ensures
        first_tag(s, k) matches Some((a, b)) ==> k <= a < b < s.len() && s[a] == '<' && s[b]
            == '>' && forall|j: int| k <= j < a ==> first_tag(s, j) == first_tag(s, k),
    decreases s.len() - k,
{
    if k < s.len() {
        if s[k] == '<' && k + 1 < s.len() && s[k + 1] != '>' && crate::music_text::find_from(
            s,
            '>',
            k + 1,
        ) < s.len() {
            crate::music_text::lemma_find_from_bounds(s, '>', k + 1);
        } else {
            lemma_first_tag_bounds(s, k + 1);
        }
    }
}

proof fn lemma_first_tag_shift(s: Seq<char>, k: int)
    requires
        0 <= k <= s.len(),
    ensures
        first_tag(s, k) == match first_tag(s.skip(k), 0) {
            Some((a, b)) => Some((a + k, b + k)),
            None => None,
        },
    decreases s.len() - k,
{
    if k < s.len() {
        let t = s.skip(k);
        crate::music_text::lemma_find_shift(s, '>', k + 1);
        crate::music_text::lemma_find_shift(t, '>', 1);
        assert(s.skip(k + 1) =~= t.skip(1));
        assert(t[0] == s[k]);
        if k + 1 < s.len() {
            assert(t[1] == s[k + 1]);
        }
        if !(s[k] == '<' && k + 1 < s.len() && s[k + 1] != '>' && crate::music_text::find_from(
            s,
            '>',
            k + 1,
        ) < s.len()) {
            lemma_first_tag_shift(s, k + 1);
            lemma_first_tag_shift(t, 1);
            assert(t.skip(1) =~= s.skip(k + 1));
        }
    }
}

pub fn strip_html_tags(text: &str) -> (r: String)
    ensures
        r@ == strip_tags_spec(text@),
{
    let v = chars_of(text);
    let mut out: Vec<char> = Vec::new();
    let mut i: usize = 0;
    let mut k: usize = 0;
    proof {
        assert(v@.skip(0) =~= v@);
        assert(out@ + strip_tags_spec(v@) =~= strip_tags_spec(v@));
    }
    while k < v.len()
        invariant
            i <= k <= v.len(),
            v@ == text@,
            out@ + strip_tags_spec(v@.skip(i as int)) == strip_tags_spec(text@),
            first_tag(v@, i as int) == first_tag(v@, k as int),
        decreases v.len() - k,
    {
        if v[k] == '<' && k + 1 < v.len() && v[k + 1] != '>' {
            let j = crate::music_text::find_char_from(&v, '>', k + 1);
            if j < v.len() {
                let ghost rest = v@.skip(i as int);
                proof {
                    lemma_first_tag_shift(v@, i as int);
                    lemma_first_tag_bounds(v@, i as int);
                }
                let piece = crate::text::sub_vec(&v, i, k);
                crate::text::extend_chars(&mut out, &piece);
                proof {
                    assert(piece@ =~= rest.take(k - i));
                    assert(rest.skip(j + 1 - i) =~= v@.skip(j + 1));
                }
                i = j + 1;
                k = j + 1;
                continue;
            }
        }
        proof {
            assert(first_tag(v@, k as int) == first_tag(v@, k + 1));
        }
        k = k + 1;
    }
    proof {
        lemma_first_tag_shift(v@, i as int);
        assert(first_tag(v@, k as int) is None);
        assert(strip_tags_spec(v@.skip(i as int)) == v@.skip(i as int));
    }
    let rest = crate::text::sub_vec(&v, i, v.len());
    crate::text::extend_chars(&mut out, &rest);
    proof {
        assert(rest@ =~= v@.skip(i as int));
    }
    string_of(&out)
}

/// An image address with a scheme: `https:` before a protocol-relative one.
pub fn normalize_bilibili_image(url: &str) -> (r: String)
    ensures
        r@ == (if has_prefix(url@, "//"@) {
            "https:"@ + url@
        } else {
            url@
        }),
{
    let v = chars_of(url);
    if crate::text::starts_with_str(&v, "//") {
        crate::text::concat("https:", url)
    } else {
        url.to_owned()
    }
}

} // verus!
