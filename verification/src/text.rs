//! Character-sequence primitives shared by the text-handling modules.
//!
//! Strings are handled as sequences of `char`: a `&str` is read into a
//! `Vec<char>` once, the logic works on slices, and the result is turned back
//! into a `String`.
use vstd::prelude::*;

verus! {

/// `String::push`: appends one character.
#[verifier::external_body]
pub fn push_char(s: &mut String, c: char)
    ensures
        final(s)@ == old(s)@.push(c),
{
    s.push(c);
}

/// Appends the characters of `t` to the string `s`.
pub fn push_str(s: &mut String, t: &str)
    ensures
        final(s)@ == old(s)@ + t@,
{
    let ghost s0 = s@;
    for c in it: t.chars()
        invariant
            s@ == s0 + it.seq().take(it.index() as int),
            it.seq() == t@,
    {
        push_char(s, c);
        proof {
            assert(s@ =~= s0 + it.seq().take(it.index() as int + 1));
        }
    }
    proof {
        assert(t@.take(t@.len() as int) =~= t@);
    }
}

/// The string `a` followed by `b`.
pub fn concat(a: &str, b: &str) -> (r: String)
    ensures
        r@ == a@ + b@,
{
    let mut r = a.to_owned();
    push_str(&mut r, b);
    r
}

/// The characters of a string slice, in order.
pub fn chars_of(s: &str) -> (v: Vec<char>)
    ensures
        v@ == s@,
{
    let mut v: Vec<char> = Vec::new();
    for x in it: s.chars()
        invariant
            v@ == it.seq().take(it.index() as int),
            it.seq() == s@,
    {
        v.push(x);
    }
    proof {
        assert(v@ =~= s@);
    }
    v
}

/// The string made of the given characters.
pub fn string_of(v: &[char]) -> (s: String)
    ensures
        s@ == v@,
{
    let mut s = String::new();
    let mut i: usize = 0;
    while i < v.len()
        invariant
            i <= v.len(),
            s@ == v@.take(i as int),
        decreases v.len() - i,
    {
        push_char(&mut s, v[i]);
        i = i + 1;
        proof {
            assert(s@ =~= v@.take(i as int));
        }
    }
    proof {
        assert(v@.take(v.len() as int) =~= v@);
    }
    s
}

/// The characters with the Unicode `White_Space` property (what
/// `char::is_whitespace` tests).
pub open spec fn is_ws(c: char) -> bool {
    let u = c as u32;
    ||| (9 <= u && u <= 13)
    ||| u == 32
    ||| u == 0x85
    ||| u == 0xA0
    ||| u == 0x1680
    ||| (0x2000 <= u && u <= 0x200A)
    ||| u == 0x2028
    ||| u == 0x2029
    ||| u == 0x202F
    ||| u == 0x205F
    ||| u == 0x3000
}

/// ASCII whitespace as `u8::is_ascii_whitespace` defines it (space, tab,
/// line feed, form feed, carriage return).
pub open spec fn is_ascii_ws(c: char) -> bool {
    c == ' ' || c == '\t' || c == '\n' || c == '\x0C' || c == '\r'
}

pub fn is_whitespace(c: char) -> (r: bool)
    ensures
        r == is_ws(c),
{
    let u = c as u32;
    (9 <= u && u <= 13) || u == 32 || u == 0x85 || u == 0xA0 || u == 0x1680 || (0x2000 <= u && u
        <= 0x200A) || u == 0x2028 || u == 0x2029 || u == 0x202F || u == 0x205F || u == 0x3000
}

pub fn is_ascii_whitespace(c: char) -> (r: bool)
    ensures
        r == is_ascii_ws(c),
{
    c == ' ' || c == '\t' || c == '\n' || c == '\x0C' || c == '\r'
}

pub open spec fn is_digit(c: char) -> bool {
    '0' <= c && c <= '9'
}

pub open spec fn is_alnum(c: char) -> bool {
    ('0' <= c && c <= '9') || ('a' <= c && c <= 'z') || ('A' <= c && c <= 'Z')
}

pub open spec fn is_hex_char(c: char) -> bool {
    ('0' <= c && c <= '9') || ('a' <= c && c <= 'f') || ('A' <= c && c <= 'F')
}

pub fn is_ascii_digit(c: char) -> (r: bool)
    ensures
        r == is_digit(c),
{
    '0' <= c && c <= '9'
}

pub fn is_ascii_alphanumeric(c: char) -> (r: bool)
    ensures
        r == is_alnum(c),
{
    ('0' <= c && c <= '9') || ('a' <= c && c <= 'z') || ('A' <= c && c <= 'Z')
}

pub fn is_ascii_hexdigit(c: char) -> (r: bool)
    ensures
        r == is_hex_char(c),
{
    ('0' <= c && c <= '9') || ('a' <= c && c <= 'f') || ('A' <= c && c <= 'F')
}

/// Leading whitespace removed.
pub open spec fn trim_start_spec(s: Seq<char>) -> Seq<char>
    decreases s.len(),
{
    if s.len() > 0 && is_ws(s[0]) {
        trim_start_spec(s.drop_first())
    } else {
        s
    }
}

/// Trailing whitespace removed.
pub open spec fn trim_end_spec(s: Seq<char>) -> Seq<char>
    decreases s.len(),
{
    if s.len() > 0 && is_ws(s.last()) {
        trim_end_spec(s.drop_last())
    } else {
        s
    }
}

/// What `str::trim` gives back.
pub open spec fn trim_spec(s: Seq<char>) -> Seq<char> {
    trim_end_spec(trim_start_spec(s))
}

pub proof fn lemma_trim_start_skip(s: Seq<char>, i: int)
    requires
        0 <= i <= s.len(),
        forall|j: int| 0 <= j < i ==> is_ws(#[trigger] s[j]),
    ensures
        trim_start_spec(s) == trim_start_spec(s.skip(i)),
    decreases i,
{
    if i > 0 {
        lemma_trim_start_skip(s.drop_first(), i - 1);
        assert(s.drop_first().skip(i - 1) =~= s.skip(i));
    } else {
        assert(s.skip(0) =~= s);
    }
}

pub proof fn lemma_trim_end_take(s: Seq<char>, i: int)
    requires
        0 <= i <= s.len(),
        forall|j: int| i <= j < s.len() ==> is_ws(#[trigger] s[j]),
    ensures
        trim_end_spec(s) == trim_end_spec(s.take(i)),
    decreases s.len() - i,
{
    if i < s.len() {
        lemma_trim_end_take(s.drop_last(), i);
        assert(s.drop_last().take(i) =~= s.take(i));
    } else {
        assert(s.take(i) =~= s);
    }
}

/// The bounds `(a, b)` with `v[a..b]` the trimmed text.
pub fn trim_bounds(v: &[char]) -> (r: (usize, usize))
    ensures
        r.0 <= r.1 <= v@.len(),
        v@.subrange(r.0 as int, r.1 as int) == trim_spec(v@),
{
    let mut a: usize = 0;
    while a < v.len() && is_whitespace(v[a])
        invariant
            a <= v.len(),
            forall|j: int| 0 <= j < a ==> is_ws(#[trigger] v@[j]),
        decreases v.len() - a,
    {
        a = a + 1;
    }
    proof {
        lemma_trim_start_skip(v@, a as int);
        if a < v.len() {
            assert(!is_ws(v@.skip(a as int)[0]));
        }
    }
    let ghost t = v@.skip(a as int);
    let mut b: usize = v.len();
    while b > a && is_whitespace(v[b - 1])
        invariant
            a <= b <= v.len(),
            t == v@.skip(a as int),
            forall|j: int| b <= j < v.len() ==> is_ws(#[trigger] v@[j]),
        decreases b,
    {
        b = b - 1;
    }
    proof {
        assert forall|j: int| (b - a) <= j < t.len() implies is_ws(#[trigger] t[j]) by {
            assert(t[j] == v@[j + a]);
        }
        lemma_trim_end_take(t, (b - a) as int);
        assert(t.take((b - a) as int) =~= v@.subrange(a as int, b as int));
        let u = v@.subrange(a as int, b as int);
        if u.len() > 0 {
            assert(u.last() == v@[b - 1]);
        }
    }
    (a, b)
}

/// A copy of `v[a..b]`.
pub fn sub_vec(v: &[char], a: usize, b: usize) -> (r: Vec<char>)
    requires
        a <= b <= v@.len(),
    ensures
        r@ == v@.subrange(a as int, b as int),
{
    let mut r: Vec<char> = Vec::new();
    let mut i = a;
    while i < b
        invariant
            a <= i <= b,
            b <= v@.len(),
            r@ == v@.subrange(a as int, i as int),
        decreases b - i,
    {
        r.push(v[i]);
        i = i + 1;
        proof {
            assert(r@ =~= v@.subrange(a as int, i as int));
        }
    }
    r
}

pub fn trim_chars(v: &[char]) -> (r: Vec<char>)
    ensures
        r@ == trim_spec(v@),
{
    let (a, b) = trim_bounds(v);
    sub_vec(v, a, b)
}

/// `str::trim`, as a new `String`.
pub fn trim_str(s: &str) -> (r: String)
    ensures
        r@ == trim_spec(s@),
{
    let v = chars_of(s);
    let t = trim_chars(&v);
    string_of(&t)
}

/// Whether the trimmed text is empty.
pub fn is_blank(v: &[char]) -> (r: bool)
    ensures
        r == (trim_spec(v@).len() == 0),
{
    let (a, b) = trim_bounds(v);
    a == b
}

pub fn str_is_blank(s: &str) -> (r: bool)
    ensures
        r == (trim_spec(s@).len() == 0),
{
    let v = chars_of(s);
    is_blank(&v)
}

/// Equality of two character slices.
pub fn chars_eq(a: &[char], b: &[char]) -> (r: bool)
    ensures
        r == (a@ == b@),
{
    if a.len() != b.len() {
        return false;
    }
    let mut i: usize = 0;
    while i < a.len()
        invariant
            i <= a.len(),
            a.len() == b.len(),
            forall|j: int| 0 <= j < i ==> a@[j] == b@[j],
        decreases a.len() - i,
    {
        if a[i] != b[i] {
            return false;
        }
        i = i + 1;
    }
    proof {
        assert(a@ =~= b@);
    }
    true
}

/// Whether the characters equal those of the given string.
pub fn eq_str(a: &[char], b: &str) -> (r: bool)
    ensures
        r == (a@ == b@),
{
    let bv = chars_of(b);
    chars_eq(a, &bv)
}

/// Equality of two strings, character by character.
pub fn str_eq(a: &str, b: &str) -> (r: bool)
    ensures
        r == (a@ == b@),
{
    let av = chars_of(a);
    eq_str(&av, b)
}

/// Whether `p` is a prefix of `s`.
pub open spec fn has_prefix(s: Seq<char>, p: Seq<char>) -> bool {
    p.len() <= s.len() && s.take(p.len() as int) == p
}

/// Whether `p` is a suffix of `s`.
pub open spec fn has_suffix(s: Seq<char>, p: Seq<char>) -> bool {
    p.len() <= s.len() && s.skip(s.len() - p.len()) == p
}

pub fn starts_with(s: &[char], p: &[char]) -> (r: bool)
    ensures
        r == has_prefix(s@, p@),
{
    if p.len() > s.len() {
        return false;
    }
    let mut i: usize = 0;
    while i < p.len()
        invariant
            i <= p.len(),
            p.len() <= s.len(),
            forall|j: int| 0 <= j < i ==> s@[j] == p@[j],
        decreases p.len() - i,
    {
        if s[i] != p[i] {
            proof {
                assert(s@.take(p.len() as int)[i as int] != p@[i as int]);
            }
            return false;
        }
        i = i + 1;
    }
    proof {
        assert(s@.take(p.len() as int) =~= p@);
    }
    true
}

pub fn starts_with_str(s: &[char], p: &str) -> (r: bool)
    ensures
        r == has_prefix(s@, p@),
{
    let pv = chars_of(p);
    starts_with(s, &pv)
}

pub fn ends_with(s: &[char], p: &[char]) -> (r: bool)
    ensures
        r == has_suffix(s@, p@),
{
    if p.len() > s.len() {
        return false;
    }
    let off = s.len() - p.len();
    let mut i: usize = 0;
    while i < p.len()
        invariant
            i <= p.len(),
            off + p.len() == s.len(),
            forall|j: int| 0 <= j < i ==> s@[off + j] == p@[j],
        decreases p.len() - i,
    {
        if s[off + i] != p[i] {
            proof {
                assert(s@.skip(off as int)[i as int] != p@[i as int]);
            }
            return false;
        }
        i = i + 1;
    }
    proof {
        assert(s@.skip(off as int) =~= p@);
    }
    true
}

pub fn ends_with_str(s: &[char], p: &str) -> (r: bool)
    ensures
        r == has_suffix(s@, p@),
{
    let pv = chars_of(p);
    ends_with(s, &pv)
}

/// Lower-cases ASCII letters, leaves every other character alone.
pub open spec fn ascii_lower(c: char) -> char {
    if 'A' <= c && c <= 'Z' {
        ((c as u32) + 32) as char
    } else {
        c
    }
}

/// Upper-cases ASCII letters, leaves every other character alone.
pub open spec fn ascii_upper(c: char) -> char {
    if 'a' <= c && c <= 'z' {
        ((c as u32) - 32) as char
    } else {
        c
    }
}

pub open spec fn lower_spec(s: Seq<char>) -> Seq<char> {
    s.map_values(|c: char| ascii_lower(c))
}

pub open spec fn upper_spec(s: Seq<char>) -> Seq<char> {
    s.map_values(|c: char| ascii_upper(c))
}

pub fn to_ascii_lower_char(c: char) -> (r: char)
    ensures
        r == ascii_lower(c),
{
    if 'A' <= c && c <= 'Z' {
        let u = (c as u32) + 32;
        proof {
            assert(u <= 0x7F);
        }
        char_from_ascii(u)
    } else {
        c
    }
}

pub fn to_ascii_upper_char(c: char) -> (r: char)
    ensures
        r == ascii_upper(c),
{
    if 'a' <= c && c <= 'z' {
        let u = (c as u32) - 32;
        char_from_ascii(u)
    } else {
        c
    }
}

/// The character of an ASCII code.
pub fn char_from_ascii(u: u32) -> (c: char)
    requires
        u < 128,
    ensures
        c == u as char,
        c as u32 == u,
{
    let b = u as u8;
    b as char
}

/// `str::to_ascii_lowercase` on characters.
pub fn to_ascii_lowercase(v: &[char]) -> (r: Vec<char>)
    ensures
        r@ == lower_spec(v@),
{
    let mut r: Vec<char> = Vec::new();
    let mut i: usize = 0;
    while i < v.len()
        invariant
            i <= v.len(),
            r@ == lower_spec(v@.take(i as int)),
        decreases v.len() - i,
    {
        let c = to_ascii_lower_char(v[i]);
        r.push(c);
        i = i + 1;
        proof {
            assert(r@ =~= lower_spec(v@.take(i as int)));
        }
    }
    proof {
        assert(v@.take(v.len() as int) =~= v@);
    }
    r
}

/// `str::to_ascii_uppercase` on characters.
pub fn to_ascii_uppercase(v: &[char]) -> (r: Vec<char>)
    ensures
        r@ == upper_spec(v@),
{
    let mut r: Vec<char> = Vec::new();
    let mut i: usize = 0;
    while i < v.len()
        invariant
            i <= v.len(),
            r@ == upper_spec(v@.take(i as int)),
        decreases v.len() - i,
    {
        let c = to_ascii_upper_char(v[i]);
        r.push(c);
        i = i + 1;
        proof {
            assert(r@ =~= upper_spec(v@.take(i as int)));
        }
    }
    proof {
        assert(v@.take(v.len() as int) =~= v@);
    }
    r
}

/// The trimmed, ASCII-lower-cased text: the key several lookups match on.
pub open spec fn norm_key(s: Seq<char>) -> Seq<char> {
    lower_spec(trim_spec(s))
}

proof fn lemma_trim_start_lower(s: Seq<char>)
    ensures
        trim_start_spec(lower_spec(s)) == lower_spec(trim_start_spec(s)),
    decreases s.len(),
{
    if s.len() > 0 {
        assert(lower_spec(s)[0] == ascii_lower(s[0]));
        if is_ws(s[0]) {
            assert(lower_spec(s).drop_first() =~= lower_spec(s.drop_first()));
            lemma_trim_start_lower(s.drop_first());
        }
    } else {
        assert(lower_spec(s) =~= s);
    }
}

proof fn lemma_trim_end_lower(s: Seq<char>)
    ensures
        trim_end_spec(lower_spec(s)) == lower_spec(trim_end_spec(s)),
    decreases s.len(),
{
    if s.len() > 0 {
        assert(lower_spec(s).last() == ascii_lower(s.last()));
        if is_ws(s.last()) {
            assert(lower_spec(s).drop_last() =~= lower_spec(s.drop_last()));
            lemma_trim_end_lower(s.drop_last());
        }
    } else {
        assert(lower_spec(s) =~= s);
    }
}

/// Normalizing a key a second time changes nothing.
pub proof fn lemma_norm_key_idempotent(s: Seq<char>)
    ensures
        norm_key(norm_key(s)) == norm_key(s),
{
    let t = trim_spec(s);
    lemma_trim_start_lower(t);
    lemma_trim_end_lower(trim_start_spec(t));
    lemma_trim_idempotent(s);
    assert(lower_spec(lower_spec(t)) =~= lower_spec(t));
}

/// Text with no whitespace at either end and no upper-case ASCII letter is
/// its own key.
pub proof fn lemma_norm_key_fixed(s: Seq<char>)
    requires
        s.len() > 0,
        !is_ws(s[0]),
        !is_ws(s.last()),
        forall|i: int| 0 <= i < s.len() ==> !('A' <= #[trigger] s[i] && s[i] <= 'Z'),
    ensures
        norm_key(s) == s,
{
    assert(trim_start_spec(s) == s);
    assert(trim_end_spec(s) == s);
    assert(lower_spec(s) =~= s);
}

pub fn normalized_key(s: &str) -> (r: Vec<char>)
    ensures
        r@ == norm_key(s@),
{
    let v = chars_of(s);
    let t = trim_chars(&v);
    to_ascii_lowercase(&t)
}

/// Appends the characters of `b` to `a`.
pub fn extend_chars(a: &mut Vec<char>, b: &[char])
    ensures
        final(a)@ == old(a)@ + b@,
{
    let ghost a0 = a@;
    let mut i: usize = 0;
    while i < b.len()
        invariant
            i <= b.len(),
            a@ == a0 + b@.take(i as int),
        decreases b.len() - i,
    {
        a.push(b[i]);
        i = i + 1;
        proof {
            assert(a@ =~= a0 + b@.take(i as int));
        }
    }
    proof {
        assert(b@.take(b.len() as int) =~= b@);
    }
}

/// Appends the characters of the string `b` to `a`.
pub fn extend_str(a: &mut Vec<char>, b: &str)
    ensures
        final(a)@ == old(a)@ + b@,
{
    let bv = chars_of(b);
    extend_chars(a, &bv);
}

/// Index of the first occurrence of `c`, if any.
pub fn find_char(v: &[char], c: char) -> (r: Option<usize>)
    ensures
        match r {
            Some(i) => i < v.len() && v@[i as int] == c && forall|j: int|
                0 <= j < i ==> v@[j] != c,
            None => forall|j: int| 0 <= j < v@.len() ==> v@[j] != c,
        },
{
    let mut i: usize = 0;
    while i < v.len()
        invariant
            i <= v.len(),
            forall|j: int| 0 <= j < i ==> v@[j] != c,
        decreases v.len() - i,
    {
        if v[i] == c {
            return Some(i);
        }
        i = i + 1;
    }
    None
}

/// Index of the last occurrence of `c`, if any.
pub fn rfind_char(v: &[char], c: char) -> (r: Option<usize>)
    ensures
        match r {
            Some(i) => i < v.len() && v@[i as int] == c && forall|j: int|
                i < j < v@.len() ==> v@[j] != c,
            None => forall|j: int| 0 <= j < v@.len() ==> v@[j] != c,
        },
{
    let mut i: usize = v.len();
    while i > 0
        invariant
            i <= v.len(),
            forall|j: int| i <= j < v@.len() ==> v@[j] != c,
        decreases i,
    {
        if v[i - 1] == c {
            return Some(i - 1);
        }
        i = i - 1;
    }
    None
}

/// Whether `c` occurs in `s`.
pub fn contains_char(v: &[char], c: char) -> (r: bool)
    ensures
        r == v@.contains(c),
{
    match find_char(v, c) {
        Some(i) => {
            proof {
                assert(v@[i as int] == c);
            }
            true
        },
        None => false,
    }
}

/// Whether `p` occurs in `s` starting at position `i`.
pub open spec fn occurs_at(s: Seq<char>, p: Seq<char>, i: int) -> bool {
    0 <= i && i + p.len() <= s.len() && s.subrange(i, i + p.len()) == p
}

/// Whether `p` occurs anywhere in `s` (`str::contains` with a string pattern).
pub open spec fn contains_seq(s: Seq<char>, p: Seq<char>) -> bool {
    exists|i: int| occurs_at(s, p, i)
}

pub fn matches_at(s: &[char], p: &[char], i: usize) -> (r: bool)
    ensures
        r == occurs_at(s@, p@, i as int),
{
    if i > s.len() || p.len() > s.len() - i {
        return false;
    }
    let mut k: usize = 0;
    while k < p.len()
        invariant
            k <= p.len(),
            i + p.len() <= s.len(),
            forall|j: int| 0 <= j < k ==> s@[i + j] == p@[j],
        decreases p.len() - k,
    {
        if s[i + k] != p[k] {
            proof {
                assert(s@.subrange(i as int, i + p.len())[k as int] != p@[k as int]);
            }
            return false;
        }
        k = k + 1;
    }
    proof {
        assert(s@.subrange(i as int, i + p.len()) =~= p@);
    }
    true
}

/// Index of the first occurrence of `p` in `s`, if any.
pub fn find_seq(s: &[char], p: &[char]) -> (r: Option<usize>)
    ensures
        match r {
            Some(i) => occurs_at(s@, p@, i as int) && forall|j: int|
                0 <= j < i ==> !occurs_at(s@, p@, j),
            None => !contains_seq(s@, p@),
        },
{
    if p.len() > s.len() {
        proof {
            assert forall|j: int| !occurs_at(s@, p@, j) by {}
        }
        return None;
    }
    let last = s.len() - p.len();
    let mut i: usize = 0;
    loop
        invariant
            p.len() <= s.len(),
            last == s.len() - p.len(),
            i <= last,
            forall|j: int| 0 <= j < i ==> !occurs_at(s@, p@, j),
        decreases last - i,
    {
        if matches_at(s, p, i) {
            return Some(i);
        }
        if i == last {
            proof {
                assert forall|j: int| !occurs_at(s@, p@, j) by {
                    if 0 <= j && j < i {
                    }
                }
            }
            return None;
        }
        i = i + 1;
    }
}

pub fn contains_str(s: &[char], p: &str) -> (r: bool)
    ensures
        r == contains_seq(s@, p@),
{
    let pv = chars_of(p);
    match find_seq(s, &pv) {
        Some(_) => true,
        None => false,
    }
}

} // verus!

verus! {

/// Leading occurrences of `c` removed (`str::trim_start_matches` with a char).
pub open spec fn strip_leading(s: Seq<char>, c: char) -> Seq<char>
    decreases s.len(),
{
    if s.len() > 0 && s[0] == c {
        strip_leading(s.drop_first(), c)
    } else {
        s
    }
}

/// Trailing occurrences of `c` removed (`str::trim_end_matches` with a char).
pub open spec fn strip_trailing(s: Seq<char>, c: char) -> Seq<char>
    decreases s.len(),
{
    if s.len() > 0 && s.last() == c {
        strip_trailing(s.drop_last(), c)
    } else {
        s
    }
}

/// Index of the first `c` in `s`, if any.
pub open spec fn first_index(s: Seq<char>, c: char) -> Option<int> {
    if s.contains(c) {
        Some(choose|i: int| 0 <= i < s.len() && s[i] == c && forall|j: int| 0 <= j < i ==> s[j] != c)
    } else {
        None
    }
}

/// Index of the last `c` in `s`, if any.
pub open spec fn last_index(s: Seq<char>, c: char) -> Option<int> {
    if s.contains(c) {
        Some(choose|i: int| 0 <= i < s.len() && s[i] == c && forall|j: int| i < j < s.len() ==> s[j] != c)
    } else {
        None
    }
}

/// The text before the first `c`, or all of it (`split(c).next()`).
pub open spec fn before_first(s: Seq<char>, c: char) -> Seq<char> {
    match first_index(s, c) {
        Some(i) => s.take(i),
        None => s,
    }
}

/// The text after the last `c`, or all of it (`rsplit(c).next()`).
pub open spec fn after_last(s: Seq<char>, c: char) -> Seq<char> {
    match last_index(s, c) {
        Some(i) => s.skip(i + 1),
        None => s,
    }
}

/// `str::split_once(c)`.
pub open spec fn split_once_spec(s: Seq<char>, c: char) -> Option<(Seq<char>, Seq<char>)> {
    match first_index(s, c) {
        Some(i) => Some((s.take(i), s.skip(i + 1))),
        None => None,
    }
}

/// `str::rsplit_once(c)`.
pub open spec fn rsplit_once_spec(s: Seq<char>, c: char) -> Option<(Seq<char>, Seq<char>)> {
    match last_index(s, c) {
        Some(i) => Some((s.take(i), s.skip(i + 1))),
        None => None,
    }
}

pub proof fn lemma_first_index(s: Seq<char>, c: char, i: int)
    requires
        0 <= i < s.len(),
        s[i] == c,
        forall|j: int| 0 <= j < i ==> s[j] != c,
    ensures
        first_index(s, c) == Some(i),
{
    assert(s.contains(c));
    let k = choose|k: int| 0 <= k < s.len() && s[k] == c && forall|j: int| 0 <= j < k ==> s[j] != c;
    if k < i {
    } else if k > i {
        assert(s[i] != c);
    }
}

pub proof fn lemma_last_index(s: Seq<char>, c: char, i: int)
    requires
        0 <= i < s.len(),
        s[i] == c,
        forall|j: int| i < j < s.len() ==> s[j] != c,
    ensures
        last_index(s, c) == Some(i),
{
    assert(s.contains(c));
    let k = choose|k: int| 0 <= k < s.len() && s[k] == c && forall|j: int| k < j < s.len() ==> s[j] != c;
    if k < i {
        assert(s[i] != c);
    } else if k > i {
    }
}

pub proof fn lemma_no_index(s: Seq<char>, c: char)
    requires
        forall|j: int| 0 <= j < s.len() ==> s[j] != c,
    ensures
        first_index(s, c) is None,
        last_index(s, c) is None,
{
    if s.contains(c) {
        let k = choose|k: int| 0 <= k < s.len() && s[k] == c;
        assert(s[k] != c);
    }
}

/// `str::split_once(c)` on characters.
pub fn split_once(v: &[char], c: char) -> (r: Option<(Vec<char>, Vec<char>)>)
    ensures
        match split_once_spec(v@, c) {
            Some((a, b)) => r matches Some((x, y)) && x@ == a && y@ == b,
            None => r is None,
        },
{
    match find_char(v, c) {
        Some(i) => {
            proof {
                lemma_first_index(v@, c, i as int);
            }
            let a = sub_vec(v, 0, i);
            let b = sub_vec(v, i + 1, v.len());
            proof {
                assert(a@ =~= v@.take(i as int));
                assert(b@ =~= v@.skip(i + 1));
            }
            Some((a, b))
        },
        None => {
            proof {
                lemma_no_index(v@, c);
            }
            None
        },
    }
}

/// `str::rsplit_once(c)` on characters.
pub fn rsplit_once(v: &[char], c: char) -> (r: Option<(Vec<char>, Vec<char>)>)
    ensures
        match rsplit_once_spec(v@, c) {
            Some((a, b)) => r matches Some((x, y)) && x@ == a && y@ == b,
            None => r is None,
        },
{
    match rfind_char(v, c) {
        Some(i) => {
            proof {
                lemma_last_index(v@, c, i as int);
            }
            let a = sub_vec(v, 0, i);
            let b = sub_vec(v, i + 1, v.len());
            proof {
                assert(a@ =~= v@.take(i as int));
                assert(b@ =~= v@.skip(i + 1));
            }
            Some((a, b))
        },
        None => {
            proof {
                lemma_no_index(v@, c);
            }
            None
        },
    }
}

/// The text before the first `c`, or all of it.
pub fn take_before_first(v: &[char], c: char) -> (r: Vec<char>)
    ensures
        r@ == before_first(v@, c),
{
    match find_char(v, c) {
        Some(i) => {
            proof {
                lemma_first_index(v@, c, i as int);
            }
            let a = sub_vec(v, 0, i);
            proof {
                assert(a@ =~= v@.take(i as int));
            }
            a
        },
        None => {
            proof {
                lemma_no_index(v@, c);
            }
            sub_vec(v, 0, v.len())
        },
    }
}

/// The text after the last `c`, or all of it.
pub fn take_after_last(v: &[char], c: char) -> (r: Vec<char>)
    ensures
        r@ == after_last(v@, c),
{
    match rfind_char(v, c) {
        Some(i) => {
            proof {
                lemma_last_index(v@, c, i as int);
            }
            let a = sub_vec(v, i + 1, v.len());
            proof {
                assert(a@ =~= v@.skip(i + 1));
            }
            a
        },
        None => {
            proof {
                lemma_no_index(v@, c);
                assert(v@.subrange(0, v@.len() as int) =~= v@);
            }
            sub_vec(v, 0, v.len())
        },
    }
}

pub proof fn lemma_strip_leading_skip(s: Seq<char>, c: char, i: int)
    requires
        0 <= i <= s.len(),
        forall|j: int| 0 <= j < i ==> #[trigger] s[j] == c,
    ensures
        strip_leading(s, c) == strip_leading(s.skip(i), c),
    decreases i,
{
    if i > 0 {
        lemma_strip_leading_skip(s.drop_first(), c, i - 1);
        assert(s.drop_first().skip(i - 1) =~= s.skip(i));
    } else {
        assert(s.skip(0) =~= s);
    }
}

pub proof fn lemma_strip_trailing_take(s: Seq<char>, c: char, i: int)
    requires
        0 <= i <= s.len(),
        forall|j: int| i <= j < s.len() ==> #[trigger] s[j] == c,
    ensures
        strip_trailing(s, c) == strip_trailing(s.take(i), c),
    decreases s.len() - i,
{
    if i < s.len() {
        lemma_strip_trailing_take(s.drop_last(), c, i);
        assert(s.drop_last().take(i) =~= s.take(i));
    } else {
        assert(s.take(i) =~= s);
    }
}

/// `trim_start_matches(c)` on characters.
pub fn trim_start_matches(v: &[char], c: char) -> (r: Vec<char>)
    ensures
        r@ == strip_leading(v@, c),
{
    let mut a: usize = 0;
    while a < v.len() && v[a] == c
        invariant
            a <= v.len(),
            forall|j: int| 0 <= j < a ==> #[trigger] v@[j] == c,
        decreases v.len() - a,
    {
        a = a + 1;
    }
    proof {
        lemma_strip_leading_skip(v@, c, a as int);
        assert(v@.skip(a as int) =~= v@.subrange(a as int, v@.len() as int));
    }
    sub_vec(v, a, v.len())
}

/// `trim_end_matches(c)` on characters.
pub fn trim_end_matches(v: &[char], c: char) -> (r: Vec<char>)
    ensures
        r@ == strip_trailing(v@, c),
{
    let mut b: usize = v.len();
    while b > 0 && v[b - 1] == c
        invariant
            b <= v.len(),
            forall|j: int| b <= j < v.len() ==> #[trigger] v@[j] == c,
        decreases b,
    {
        b = b - 1;
    }
    proof {
        lemma_strip_trailing_take(v@, c, b as int);
        assert(v@.take(b as int) =~= v@.subrange(0, b as int));
        if b > 0 {
            assert(v@.take(b as int).last() == v@[b - 1]);
        }
    }
    sub_vec(v, 0, b)
}

pub open spec fn all_alnum(s: Seq<char>) -> bool {
    forall|i: int| 0 <= i < s.len() ==> is_alnum(#[trigger] s[i])
}

pub fn check_all_alnum(v: &[char]) -> (r: bool)
    ensures
        r == all_alnum(v@),
{
    let mut i: usize = 0;
    while i < v.len()
        invariant
            i <= v.len(),
            forall|j: int| 0 <= j < i ==> is_alnum(#[trigger] v@[j]),
        decreases v.len() - i,
    {
        if !is_ascii_alphanumeric(v[i]) {
            return false;
        }
        i = i + 1;
    }
    true
}

pub fn check_all_digits(v: &[char]) -> (r: bool)
    ensures
        r == forall|i: int| 0 <= i < v@.len() ==> is_digit(#[trigger] v@[i]),
{
    let mut i: usize = 0;
    while i < v.len()
        invariant
            i <= v.len(),
            forall|j: int| 0 <= j < i ==> is_digit(#[trigger] v@[j]),
        decreases v.len() - i,
    {
        if !is_ascii_digit(v[i]) {
            return false;
        }
        i = i + 1;
    }
    true
}

/// The UTF-8 length of a string's text.
pub fn utf8_len(s: &String) -> (n: usize)
    ensures
        n == vstd::utf8::encode_utf8(s@).len() as usize,
{
    s.as_str().len()
}

} // verus!

verus! {

/// The views of a list of strings.
pub open spec fn views(v: Seq<String>) -> Seq<Seq<char>> {
    v.map_values(|s: String| s@)
}

/// The pieces joined with `sep` between them (`[T]::join`).
pub open spec fn join_spec(list: Seq<Seq<char>>, sep: Seq<char>) -> Seq<char>
    decreases list.len(),
{
    if list.len() == 0 {
        Seq::<char>::empty()
    } else if list.len() == 1 {
        list[0]
    } else {
        join_spec(list.drop_last(), sep) + sep + list.last()
    }
}

/// The strings joined with `sep` between them.
pub fn join_strings(list: &[String], sep: &str) -> (r: Vec<char>)
    ensures
        r@ == join_spec(views(list@), sep@),
{
    let mut r: Vec<char> = Vec::new();
    let ghost vl = views(list@);
    let mut i: usize = 0;
    while i < list.len()
        invariant
            i <= list.len(),
            vl == views(list@),
            r@ == join_spec(vl.take(i as int), sep@),
        decreases list.len() - i,
    {
        proof {
            assert(vl.take(i + 1).drop_last() =~= vl.take(i as int));
            assert(vl.take(i + 1).last() == list@[i as int]@);
        }
        if i > 0 {
            extend_str(&mut r, sep);
        } else {
            proof {
                assert(vl.take(1).len() == 1);
            }
        }
        extend_str(&mut r, list[i].as_str());
        i = i + 1;
        proof {
            if i == 1 {
                assert(r@ =~= vl.take(1)[0]);
            }
        }
    }
    proof {
        assert(vl.take(list.len() as int) =~= vl);
    }
    r
}

/// The views of a list of character vectors.
pub open spec fn vec_views(v: Seq<Vec<char>>) -> Seq<Seq<char>> {
    v.map_values(|s: Vec<char>| s@)
}

/// The pieces joined with `sep` between them.
pub fn join_vecs(list: &Vec<Vec<char>>, sep: &str) -> (r: Vec<char>)
    ensures
        r@ == join_spec(vec_views(list@), sep@),
{
    let mut r: Vec<char> = Vec::new();
    let ghost vl = vec_views(list@);
    let mut i: usize = 0;
    while i < list.len()
        invariant
            i <= list.len(),
            vl == vec_views(list@),
            r@ == join_spec(vl.take(i as int), sep@),
        decreases list.len() - i,
    {
        proof {
            assert(vl.take(i + 1).drop_last() =~= vl.take(i as int));
            assert(vl.take(i + 1).last() == list@[i as int]@);
        }
        if i > 0 {
            extend_str(&mut r, sep);
        }
        extend_chars(&mut r, &list[i]);
        i = i + 1;
        proof {
            if i == 1 {
                assert(r@ =~= vl.take(1)[0]);
            }
        }
    }
    proof {
        assert(vl.take(list.len() as int) =~= vl);
    }
    r
}

} // verus!

verus! {

/// Number of leading characters before the first whitespace.
pub open spec fn word_len(s: Seq<char>) -> nat
    decreases s.len(),
{
    if s.len() == 0 || is_ws(s[0]) {
        0
    } else {
        1 + word_len(s.drop_first())
    }
}

pub proof fn lemma_word_len_bound(s: Seq<char>)
    ensures
        word_len(s) <= s.len(),
        s.len() > 0 && !is_ws(s[0]) ==> word_len(s) >= 1,
    decreases s.len(),
{
    if s.len() > 0 && !is_ws(s[0]) {
        lemma_word_len_bound(s.drop_first());
    }
}

/// The whitespace-separated words of `s` (`str::split_whitespace`).
pub open spec fn ws_tokens(s: Seq<char>) -> Seq<Seq<char>>
    decreases s.len(),
{
    if s.len() == 0 {
        Seq::<Seq<char>>::empty()
    } else if is_ws(s[0]) {
        ws_tokens(s.drop_first())
    } else {
        proof {
            lemma_word_len_bound(s);
        }
        seq![s.take(word_len(s) as int)] + ws_tokens(s.skip(word_len(s) as int))
    }
}

pub proof fn lemma_word_len_exact(s: Seq<char>, k: int)
    requires
        0 <= k <= s.len(),
        forall|j: int| 0 <= j < k ==> !is_ws(#[trigger] s[j]),
        k == s.len() || is_ws(s[k]),
    ensures
        word_len(s) == k,
    decreases k,
{
    if k > 0 {
        lemma_word_len_exact(s.drop_first(), k - 1);
    }
}

/// `str::split_whitespace` on characters.
pub fn split_whitespace(v: &[char]) -> (r: Vec<Vec<char>>)
    ensures
        vec_views(r@) == ws_tokens(v@),
{
    let mut r: Vec<Vec<char>> = Vec::new();
    let mut i: usize = 0;
    proof {
        assert(v@.skip(0) =~= v@);
        assert(vec_views(r@) + ws_tokens(v@) =~= ws_tokens(v@));
    }
    while i < v.len()
        invariant
            i <= v.len(),
            ws_tokens(v@) == vec_views(r@) + ws_tokens(v@.skip(i as int)),
        decreases v.len() - i,
    {
        let ghost rest = v@.skip(i as int);
        if is_whitespace(v[i]) {
            proof {
                assert(rest.drop_first() =~= v@.skip(i + 1));
            }
            i = i + 1;
        } else {
            let mut j = i;
            while j < v.len() && !is_whitespace(v[j])
                invariant
                    i <= j <= v.len(),
                    forall|k: int| i <= k < j ==> !is_ws(#[trigger] v@[k]),
                decreases v.len() - j,
            {
                j = j + 1;
            }
            proof {
                assert forall|k: int| 0 <= k < j - i implies !is_ws(#[trigger] rest[k]) by {
                    assert(rest[k] == v@[i + k]);
                }
                if j < v.len() {
                    assert(rest[j - i] == v@[j as int]);
                }
                lemma_word_len_exact(rest, (j - i) as int);
                assert(rest.take((j - i) as int) =~= v@.subrange(i as int, j as int));
                assert(rest.skip((j - i) as int) =~= v@.skip(j as int));
            }
            let w = sub_vec(v, i, j);
            let ghost old_r = r@;
            r.push(w);
            proof {
                assert(vec_views(r@) =~= vec_views(old_r) + seq![w@]);
                assert(ws_tokens(rest) == seq![rest.take((j - i) as int)] + ws_tokens(rest.skip((j - i) as int)));
            }
            i = j;
        }
    }
    proof {
        assert(v@.skip(v.len() as int) =~= Seq::<char>::empty());
        assert(vec_views(r@) + Seq::<Seq<char>>::empty() =~= vec_views(r@));
    }
    r
}

} // verus!

verus! {

/// No whitespace anywhere in `s`.
pub open spec fn no_ws(s: Seq<char>) -> bool {
    forall|i: int| 0 <= i < s.len() ==> !is_ws(#[trigger] s[i])
}

/// `w` then a space then `rest` splits into `w` and the words of `rest`.
pub proof fn lemma_ws_tokens_cons(w: Seq<char>, rest: Seq<char>)
    requires
        w.len() > 0,
        no_ws(w),
    ensures
        ws_tokens(w + seq![' '] + rest) == seq![w] + ws_tokens(rest),
{
    let s = w + seq![' '] + rest;
    assert(s[0] == w[0]);
    assert forall|j: int| 0 <= j < w.len() implies !is_ws(#[trigger] s[j]) by {
        assert(s[j] == w[j]);
    }
    assert(s[w.len() as int] == ' ');
    lemma_word_len_exact(s, w.len() as int);
    assert(s.take(w.len() as int) =~= w);
    let t = s.skip(w.len() as int);
    assert(t[0] == ' ');
    assert(is_ws(' '));
    assert(t.drop_first() =~= rest);
    assert(ws_tokens(t) == ws_tokens(t.drop_first()));
    assert(!is_ws(s[0]));
    assert(ws_tokens(s) == seq![s.take(word_len(s) as int)] + ws_tokens(s.skip(word_len(s) as int)));
}

/// A single word is its only token.
pub proof fn lemma_ws_tokens_single(w: Seq<char>)
    requires
        w.len() > 0,
        no_ws(w),
    ensures
        ws_tokens(w) == seq![w],
{
    lemma_word_len_exact(w, w.len() as int);
    assert(w.take(w.len() as int) =~= w);
    assert(w.skip(w.len() as int) =~= Seq::<char>::empty());
    assert(ws_tokens(Seq::<char>::empty()) =~= Seq::<Seq<char>>::empty());
    assert(seq![w] + Seq::<Seq<char>>::empty() =~= seq![w]);
}

/// `x`, a `c`, then `y` splits at that `c` when `x` holds none.
pub proof fn lemma_split_once_concat(x: Seq<char>, c: char, y: Seq<char>)
    requires
        !x.contains(c),
    ensures
        split_once_spec(x + seq![c] + y, c) == Some((x, y)),
{
    let s = x + seq![c] + y;
    assert(s[x.len() as int] == c);
    assert forall|j: int| 0 <= j < x.len() implies s[j] != c by {
        assert(s[j] == x[j]);
        if x[j] == c {
            assert(x.contains(c));
        }
    }
    lemma_first_index(s, c, x.len() as int);
    assert(s.take(x.len() as int) =~= x);
    assert(s.skip(x.len() as int + 1) =~= y);
}

/// Text without `c` does not split at `c`.
pub proof fn lemma_split_once_none(x: Seq<char>, c: char)
    requires
        !x.contains(c),
    ensures
        split_once_spec(x, c) is None,
{
    assert forall|j: int| 0 <= j < x.len() implies x[j] != c by {
        if x[j] == c {
            assert(x.contains(c));
        }
    }
    lemma_no_index(x, c);
}

pub proof fn lemma_trim_start_shape(s: Seq<char>)
    ensures
        trim_start_spec(s).len() <= s.len(),
        trim_start_spec(s).len() > 0 ==> !is_ws(trim_start_spec(s)[0]),
        trim_start_spec(s) == s.skip(s.len() - trim_start_spec(s).len()),
    decreases s.len(),
{
    if s.len() > 0 && is_ws(s[0]) {
        lemma_trim_start_shape(s.drop_first());
        assert(s.drop_first().skip(s.drop_first().len() - trim_start_spec(s).len()) =~= s.skip(
            s.len() - trim_start_spec(s).len(),
        ));
    } else {
        assert(s.skip(0) =~= s);
    }
}

pub proof fn lemma_trim_end_shape(s: Seq<char>)
    ensures
        trim_end_spec(s).len() <= s.len(),
        trim_end_spec(s).len() > 0 ==> !is_ws(trim_end_spec(s).last()),
        trim_end_spec(s) == s.take(trim_end_spec(s).len() as int),
    decreases s.len(),
{
    if s.len() > 0 && is_ws(s.last()) {
        lemma_trim_end_shape(s.drop_last());
        assert(s.drop_last().take(trim_end_spec(s).len() as int) =~= s.take(
            trim_end_spec(s).len() as int,
        ));
    } else {
        assert(s.take(s.len() as int) =~= s);
    }
}

/// Trimming twice is trimming once.
pub proof fn lemma_trim_idempotent(s: Seq<char>)
    ensures
        trim_spec(trim_spec(s)) == trim_spec(s),
{
    let a = trim_start_spec(s);
    lemma_trim_start_shape(s);
    lemma_trim_end_shape(a);
    let t = trim_end_spec(a);
    if t.len() > 0 {
        assert(t[0] == a[0]);
        assert(trim_start_spec(t) == t);
        assert(trim_end_spec(t) == t);
    } else {
        assert(trim_start_spec(t) == t);
        assert(trim_end_spec(t) == t);
    }
}

} // verus!

verus! {

/// A space separates the words on either side of it.
pub proof fn lemma_ws_tokens_concat(a: Seq<char>, b: Seq<char>)
    ensures
        ws_tokens(a + seq![' '] + b) == ws_tokens(a) + ws_tokens(b),
    decreases a.len(),
{
    let s = a + seq![' '] + b;
    assert(is_ws(' '));
    if a.len() == 0 {
        assert(s[0] == ' ');
        assert(s.drop_first() =~= b);
        assert(ws_tokens(a) =~= Seq::<Seq<char>>::empty());
        assert(ws_tokens(a) + ws_tokens(b) =~= ws_tokens(b));
    } else if is_ws(a[0]) {
        lemma_ws_tokens_concat(a.drop_first(), b);
        assert(s[0] == a[0]);
        assert(s.drop_first() =~= a.drop_first() + seq![' '] + b);
    } else {
        assert(s[0] == a[0]);
        lemma_word_len_bound(a);
        let wl = word_len(a) as int;
        // the word ends inside `a` or at the space
        lemma_word_len_prefix(a, wl);
        assert forall|j: int| 0 <= j < wl implies !is_ws(#[trigger] s[j]) by {
            assert(s[j] == a[j]);
        }
        if wl < a.len() {
            assert(s[wl] == a[wl]);
        } else {
            assert(s[wl] == ' ');
        }
        lemma_word_len_exact(s, wl);
        assert(s.take(wl) =~= a.take(wl));
        assert(s.skip(wl) =~= a.skip(wl) + seq![' '] + b);
        lemma_ws_tokens_concat(a.skip(wl), b);
        assert(ws_tokens(a) == seq![a.take(wl)] + ws_tokens(a.skip(wl)));
        assert(ws_tokens(s) == seq![s.take(wl)] + ws_tokens(s.skip(wl)));
        assert(seq![a.take(wl)] + (ws_tokens(a.skip(wl)) + ws_tokens(b)) =~= (seq![a.take(wl)]
            + ws_tokens(a.skip(wl))) + ws_tokens(b));
    }
}

/// The first `word_len(s)` characters are not whitespace, and the next one
/// (if any) is.
pub proof fn lemma_word_len_prefix(s: Seq<char>, wl: int)
    requires
        wl == word_len(s),
    ensures
        forall|j: int| 0 <= j < wl ==> !is_ws(#[trigger] s[j]),
        wl < s.len() ==> is_ws(s[wl]),
        wl <= s.len(),
    decreases s.len(),
{
    lemma_word_len_bound(s);
    if s.len() > 0 && !is_ws(s[0]) {
        lemma_word_len_prefix(s.drop_first(), wl - 1);
        assert forall|j: int| 0 <= j < wl implies !is_ws(#[trigger] s[j]) by {
            if j > 0 {
                assert(s[j] == s.drop_first()[j - 1]);
            }
        }
        if wl < s.len() {
            assert(s[wl] == s.drop_first()[wl - 1]);
        }
    }
}

} // verus!

verus! {

/// `str::replace` with a non-empty pattern: every occurrence, found from the
/// left and without overlap, replaced by `to`.
pub open spec fn replace_spec(s: Seq<char>, from: Seq<char>, to: Seq<char>) -> Seq<char>
    decreases s.len(),
{
    if from.len() == 0 || s.len() == 0 {
        s
    } else if has_prefix(s, from) {
        to + replace_spec(s.skip(from.len() as int), from, to)
    } else {
        seq![s[0]] + replace_spec(s.skip(1), from, to)
    }
}

proof fn lemma_prefix_at(s: Seq<char>, p: Seq<char>, i: int)
    requires
        0 <= i <= s.len(),
    ensures
        has_prefix(s.skip(i), p) == occurs_at(s, p, i),
{
    if has_prefix(s.skip(i), p) {
        assert(s.subrange(i, i + p.len()) =~= s.skip(i).take(p.len() as int));
    }
    if occurs_at(s, p, i) {
        assert(s.subrange(i, i + p.len()) =~= s.skip(i).take(p.len() as int));
    }
}

/// Replaces every occurrence of a non-empty pattern.
pub fn replace_all(v: &[char], from: &str, to: &str) -> (r: Vec<char>)
    requires
        from@.len() > 0,
    ensures
        r@ == replace_spec(v@, from@, to@),
{
    let fv = chars_of(from);
    let tv = chars_of(to);
    let mut out: Vec<char> = Vec::new();
    let mut i: usize = 0;
    proof {
        assert(v@.skip(0) =~= v@);
        assert(out@ + replace_spec(v@, fv@, tv@) =~= replace_spec(v@, fv@, tv@));
    }
    while i < v.len()
        invariant
            i <= v.len(),
            fv@ == from@,
            tv@ == to@,
            fv@.len() > 0,
            out@ + replace_spec(v@.skip(i as int), fv@, tv@) == replace_spec(v@, fv@, tv@),
        decreases v.len() - i,
    {
        let ghost rest = v@.skip(i as int);
        proof {
            lemma_prefix_at(v@, fv@, i as int);
        }
        if matches_at(v, &fv, i) {
            let ghost o0 = out@;
            extend_chars(&mut out, &tv);
            i = i + fv.len();
            proof {
                assert(rest.skip(fv@.len() as int) =~= v@.skip(i as int));
                assert(out@ + replace_spec(v@.skip(i as int), fv@, tv@) =~= o0 + (tv@
                    + replace_spec(rest.skip(fv@.len() as int), fv@, tv@)));
            }
        } else {
            let ghost o0 = out@;
            out.push(v[i]);
            i = i + 1;
            proof {
                assert(rest.skip(1) =~= v@.skip(i as int));
                assert(rest[0] == v@[i - 1]);
                assert(out@ + replace_spec(v@.skip(i as int), fv@, tv@) =~= o0 + (seq![rest[0]]
                    + replace_spec(rest.skip(1), fv@, tv@)));
            }
        }
    }
    proof {
        assert(v@.skip(i as int).len() == 0);
        assert(out@ + Seq::<char>::empty() =~= out@);
    }
    out
}

/// `str::trim_end_matches` with a non-empty string pattern: the suffix
/// removed as often as it ends the text.
pub open spec fn strip_suffix_all(s: Seq<char>, p: Seq<char>) -> Seq<char>
    decreases s.len(),
{
    if p.len() > 0 && has_suffix(s, p) {
        strip_suffix_all(s.take(s.len() - p.len()), p)
    } else {
        s
    }
}

pub fn trim_end_matches_str(v: &[char], p: &str) -> (r: Vec<char>)
    requires
        p@.len() > 0,
    ensures
        r@ == strip_suffix_all(v@, p@),
{
    let pv = chars_of(p);
    let mut end: usize = v.len();
    proof {
        assert(v@.take(end as int) =~= v@);
    }
    loop
        invariant
            end <= v.len(),
            pv@ == p@,
            pv@.len() > 0,
            strip_suffix_all(v@.take(end as int), p@) == strip_suffix_all(v@, p@),
        decreases end,
    {
        let cur = sub_vec(v, 0, end);
        if ends_with(&cur, &pv) {
            proof {
                assert(cur@ =~= v@.take(end as int));
                assert(v@.take(end as int).take(end - pv@.len()) =~= v@.take(end - pv@.len()));
            }
            end = end - pv.len();
        } else {
            proof {
                assert(cur@ =~= v@.take(end as int));
            }
            return cur;
        }
    }
}

} // verus!

verus! {

/// Leading whitespace removed (`str::trim_start`).
pub fn trim_start_chars(v: &[char]) -> (r: Vec<char>)
    ensures
        r@ == trim_start_spec(v@),
{
    let mut a: usize = 0;
    while a < v.len() && is_whitespace(v[a])
        invariant
            a <= v.len(),
            forall|j: int| 0 <= j < a ==> is_ws(#[trigger] v@[j]),
        decreases v.len() - a,
    {
        a = a + 1;
    }
    proof {
        lemma_trim_start_skip(v@, a as int);
        assert(v@.skip(a as int) =~= v@.subrange(a as int, v@.len() as int));
        if a < v.len() {
            assert(v@.skip(a as int)[0] == v@[a as int]);
        }
    }
    sub_vec(v, a, v.len())
}

} // verus!
