//! Kugou rules: track ids that carry a file hash and an album id, cover
//! addresses, and file names read as singer and song.
use vstd::prelude::*;
use crate::text::{
    chars_of, has_prefix, is_hex_char, push_str, split_once_spec, string_of, trim_chars, trim_spec,
    upper_spec,
};

verus! {

/// A track id: the hash in upper case, then `:` and the album id when one
/// is given.
pub open spec fn encode_id_spec(hash: Seq<char>, album: Option<Seq<char>>) -> Seq<char> {
    let h = upper_spec(trim_spec(hash));
    match album {
        Some(a) => if trim_spec(a).len() > 0 {
            h + ":"@ + trim_spec(a)
        } else {
            h
        },
        None => h,
    }
}

pub fn encode_kugou_id(hash: &str, album_id: Option<&str>) -> (r: String)
    ensures
        r@ == encode_id_spec(hash@, crate::rom_links::opt_str(album_id)),
{
    let hv = chars_of(hash);
    let ht = trim_chars(&hv);
    let hu = crate::text::to_ascii_uppercase(&ht);
    let mut r = string_of(&hu);
    match album_id {
        Some(a) => {
            let t = crate::text::trim_str(a);
            if chars_of(t.as_str()).len() > 0 {
                push_str(&mut r, ":");
                push_str(&mut r, t.as_str());
            }
        },
        None => {},
    }
    r
}

/// A track id read back: the part before the first `:`, trimmed and in
/// upper case, and the rest, trimmed, when not blank.
pub open spec fn decode_id_spec(id: Seq<char>) -> (Seq<char>, Option<Seq<char>>) {
    match split_once_spec(id, ':') {
        Some((h, a)) => (
            upper_spec(trim_spec(h)),
            if trim_spec(a).len() > 0 {
                Some(trim_spec(a))
            } else {
                None
            },
        ),
        None => (upper_spec(trim_spec(id)), None),
    }
}

pub fn decode_kugou_id(id: &str) -> (r: (String, Option<String>))
    ensures
        r.0@ == decode_id_spec(id@).0,
        crate::provider::opt_view(r.1) == decode_id_spec(id@).1,
{
    let v = chars_of(id);
    match crate::text::split_once(&v, ':') {
        Some((h, a)) => {
            let ht = trim_chars(&h);
            let hu = crate::text::to_ascii_uppercase(&ht);
            let at = trim_chars(&a);
            let album = if at.len() > 0 {
                Some(string_of(&at))
            } else {
                None
            };
            (string_of(&hu), album)
        },
        None => {
            let ht = trim_chars(&v);
            let hu = crate::text::to_ascii_uppercase(&ht);
            (string_of(&hu), None)
        },
    }
}

proof fn lemma_upper_keeps_ws(s: Seq<char>)
    ensures
        trim_spec(upper_spec(s)) == upper_spec(trim_spec(s)),
        upper_spec(upper_spec(s)) == upper_spec(s),
        upper_spec(s).contains(':') == s.contains(':'),
        upper_spec(s).len() == s.len(),
    decreases s.len(),
{
    assert forall|i: int| 0 <= i < s.len() implies crate::text::is_ws(
        #[trigger] upper_spec(s)[i],
    ) == crate::text::is_ws(s[i]) && upper_spec(s)[i] == ':' <==> s[i] == ':' by {}
    assert(upper_spec(upper_spec(s)) =~= upper_spec(s));
    if upper_spec(s).contains(':') {
        let i = choose|i: int| 0 <= i < upper_spec(s).len() && upper_spec(s)[i] == ':';
        assert(s[i] == ':');
    }
    if s.contains(':') {
        let i = choose|i: int| 0 <= i < s.len() && s[i] == ':';
        assert(upper_spec(s)[i] == ':');
    }
    lemma_trim_map(s);
}

proof fn lemma_trim_map(s: Seq<char>)
    ensures
        trim_spec(upper_spec(s)) == upper_spec(trim_spec(s)),
    decreases s.len(),
{
    lemma_trim_start_map(s);
    lemma_trim_end_map(crate::text::trim_start_spec(s));
}

proof fn lemma_trim_start_map(s: Seq<char>)
    ensures
        crate::text::trim_start_spec(upper_spec(s)) == upper_spec(crate::text::trim_start_spec(s)),
    decreases s.len(),
{
    if s.len() > 0 {
        assert(upper_spec(s)[0] == crate::text::ascii_upper(s[0]));
        if crate::text::is_ws(s[0]) {
            assert(upper_spec(s).drop_first() =~= upper_spec(s.drop_first()));
            lemma_trim_start_map(s.drop_first());
        }
    } else {
        assert(upper_spec(s) =~= s);
    }
}

proof fn lemma_trim_end_map(s: Seq<char>)
    ensures
        crate::text::trim_end_spec(upper_spec(s)) == upper_spec(crate::text::trim_end_spec(s)),
    decreases s.len(),
{
    if s.len() > 0 {
        assert(upper_spec(s).last() == crate::text::ascii_upper(s.last()));
        if crate::text::is_ws(s.last()) {
            assert(upper_spec(s).drop_last() =~= upper_spec(s.drop_last()));
            lemma_trim_end_map(s.drop_last());
        }
    } else {
        assert(upper_spec(s) =~= s);
    }
}

/// Reading back an id gives the hash in upper case and the album id that
/// made it, when the trimmed hash holds no `:`.
pub proof fn lemma_kugou_id_roundtrip(hash: Seq<char>, album: Option<Seq<char>>)
    requires
        !trim_spec(hash).contains(':'),
    ensures
        decode_id_spec(encode_id_spec(hash, album)) == (
            upper_spec(trim_spec(hash)),
            match album {
                Some(a) => if trim_spec(a).len() > 0 {
                    Some(trim_spec(a))
                } else {
                    None
                },
                None => None,
            },
        ),
{
    reveal_strlit(":");
    let h = upper_spec(trim_spec(hash));
    lemma_upper_keeps_ws(trim_spec(hash));
    crate::text::lemma_trim_idempotent(hash);
    lemma_upper_keeps_ws(h);
    assert(trim_spec(h) == h) by {
        lemma_trim_map(trim_spec(hash));
    }
    match album {
        Some(a) => {
            if trim_spec(a).len() > 0 {
                crate::text::lemma_split_once_concat(h, ':', trim_spec(a));
                assert(h + ":"@ + trim_spec(a) =~= h + seq![':'] + trim_spec(a));
                crate::text::lemma_trim_idempotent(a);
            } else {
                crate::text::lemma_split_once_none(h, ':');
            }
        },
        None => {
            crate::text::lemma_split_once_none(h, ':');
        },
    }
}

/// Whether a value is a 32-digit hexadecimal hash once trimmed.
pub open spec fn hash_spec(v: Seq<char>) -> bool {
    let t = trim_spec(v);
    t.len() == 32 && forall|i: int| 0 <= i < t.len() ==> is_hex_char(#[trigger] t[i])
}

pub fn is_hash(text: &str) -> (r: bool)
    ensures
        r == hash_spec(text@),
{
    let v = chars_of(text);
    let t = trim_chars(&v);
    if t.len() != 32 {
        return false;
    }
    let mut i: usize = 0;
    while i < t.len()
        invariant
            i <= t.len(),
            t@ == trim_spec(text@),
            forall|j: int| 0 <= j < i ==> is_hex_char(#[trigger] t@[j]),
        decreases t.len() - i,
    {
        if !crate::text::is_ascii_hexdigit(t[i]) {
            return false;
        }
        i = i + 1;
    }
    true
}

/// An encoded id is taken for a Kugou id exactly when the hash it was made
/// from is a hash (the trimmed hash holding no `:`).
pub proof fn lemma_encoded_id_recognised(hash: Seq<char>, album: Option<Seq<char>>)
    requires
        !trim_spec(hash).contains(':'),
    ensures
        hash_spec(decode_id_spec(encode_id_spec(hash, album)).0) == hash_spec(hash),
{
    lemma_kugou_id_roundtrip(hash, album);
    let t = trim_spec(hash);
    let h = upper_spec(t);
    lemma_upper_keeps_ws(t);
    crate::text::lemma_trim_idempotent(hash);
    assert(trim_spec(h) == h);
    assert forall|i: int| 0 <= i < t.len() implies is_hex_char(#[trigger] h[i]) == is_hex_char(t[i]) by {}
    if hash_spec(h) {
        assert forall|i: int| 0 <= i < t.len() implies is_hex_char(#[trigger] t[i]) by {
            assert(is_hex_char(h[i]));
        }
    }
    if hash_spec(hash) {
        assert forall|i: int| 0 <= i < h.len() implies is_hex_char(#[trigger] h[i]) by {
            assert(is_hex_char(t[i]));
        }
    }
}

/// Whether a track id is a Kugou id: its hash part is a hash.
pub fn is_kugou_encoded_id(text: &str) -> (r: bool)
    ensures
        r == hash_spec(decode_id_spec(text@).0),
{
    let (hash, _) = decode_kugou_id(text);
    is_hash(hash.as_str())
}

/// A cover address with its size placeholder set to 400.
pub fn normalize_kugou_cover(url: &str) -> (r: String)
    ensures
        r@ == crate::text::replace_spec(url@, "{size}"@, "400"@),
{
    let v = chars_of(url);
    proof {
        reveal_strlit("{size}");
    }
    let r = crate::text::replace_all(&v, "{size}", "400");
    string_of(&r)
}

/// A file name `singer - song` read as singer and song; neither without
/// the separator.
pub open spec fn split_file_name_spec(name: Seq<char>) -> (Option<Seq<char>>, Option<Seq<char>>) {
    match first_sep(name, 0) {
        Some(i) => (Some(name.take(i)), Some(name.skip(i + 3))),
        None => (None, None),
    }
}

/// The first position from `k` on where ` - ` starts.
pub open spec fn first_sep(s: Seq<char>, k: int) -> Option<int>
    decreases s.len() - k,
{
    if k < 0 || k + 3 > s.len() {
        None
    } else if crate::text::occurs_at(s, " - "@, k) {
        Some(k)
    } else {
        first_sep(s, k + 1)
    }
}

pub fn split_kugou_file_name(file_name: &str) -> (r: (Option<String>, Option<String>))
    ensures
        crate::provider::opt_view(r.0) == split_file_name_spec(file_name@).0,
        crate::provider::opt_view(r.1) == split_file_name_spec(file_name@).1,
{
    let v = chars_of(file_name);
    let sep = chars_of(" - ");
    proof {
        reveal_strlit(" - ");
    }
    let mut k: usize = 0;
    while k <= v.len() && v.len() - k >= 3
        invariant
            sep@ == " - "@,
            first_sep(file_name@, k as int) == first_sep(file_name@, 0),
            v@ == file_name@,
            k <= v.len(),
        decreases v.len() - k,
    {
        if crate::text::matches_at(&v, &sep, k) {
            let a = sub_vec_of(&v, 0, k);
            let b = sub_vec_of(&v, k + 3, v.len());
            proof {
                assert(a@ =~= file_name@.take(k as int));
                assert(b@ =~= file_name@.skip(k + 3));
            }
            return (Some(string_of(&a)), Some(string_of(&b)));
        }
        k = k + 1;
    }
    (None, None)
}

fn sub_vec_of(v: &[char], a: usize, b: usize) -> (r: Vec<char>)
    requires
        a <= b <= v.len(),
    ensures
        r@ == v@.subrange(a as int, b as int),
{
    crate::text::sub_vec(v, a, b)
}

} // verus!
