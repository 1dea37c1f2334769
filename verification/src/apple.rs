//! Apple Music rules: the quality setting, which route downloads a
//! quality, the internal download addresses, the media user token, and the
//! choice among the variants of an HLS master playlist.
use vstd::prelude::*;
use crate::text::{
    chars_of, concat, eq_str, has_prefix, norm_key, normalized_key, push_str, string_of,
    trim_chars, trim_spec,
};

verus! {

/// The quality of an Apple Music download.
#[derive(Clone, Copy, Debug, PartialEq, Eq, Structural)]
pub enum AppleMusicQuality {
    Standard,
    High,
    Lossless,
    HiRes,
}

pub open spec fn quality_text(q: AppleMusicQuality) -> Seq<char> {
    match q {
        AppleMusicQuality::Standard => "standard"@,
        AppleMusicQuality::High => "high"@,
        AppleMusicQuality::Lossless => "lossless"@,
        AppleMusicQuality::HiRes => "hires"@,
    }
}

impl AppleMusicQuality {
    pub fn as_str(self) -> (r: &'static str)
        ensures
            r@ == quality_text(self),
    {
        match self {
            AppleMusicQuality::Standard => "standard",
            AppleMusicQuality::High => "high",
            AppleMusicQuality::Lossless => "lossless",
            AppleMusicQuality::HiRes => "hires",
        }
    }
}

/// The quality a setting names; high where it names none.
pub open spec fn quality_of(v: Seq<char>) -> AppleMusicQuality {
    let k = norm_key(v);
    if k == "standard"@ || k == "std"@ || k == "128"@ {
        AppleMusicQuality::Standard
    } else if k == "lossless"@ || k == "alac"@ || k == "无损"@ {
        AppleMusicQuality::Lossless
    } else if k == "hires"@ || k == "hi-res"@ || k == "hi_res"@ || k == "高解析"@ {
        AppleMusicQuality::HiRes
    } else {
        AppleMusicQuality::High
    }
}

pub fn quality_from_str(value: &str) -> (r: AppleMusicQuality)
    ensures
        r == quality_of(value@),
{
    let k = normalized_key(value);
    if eq_str(&k, "standard") || eq_str(&k, "std") || eq_str(&k, "128") {
        AppleMusicQuality::Standard
    } else if eq_str(&k, "lossless") || eq_str(&k, "alac") || eq_str(&k, "无损") {
        AppleMusicQuality::Lossless
    } else if eq_str(&k, "hires") || eq_str(&k, "hi-res") || eq_str(&k, "hi_res") || eq_str(
        &k,
        "高解析",
    ) {
        AppleMusicQuality::HiRes
    } else {
        AppleMusicQuality::High
    }
}

/// Whether a quality is downloaded through the wrapper: when there is one,
/// for every quality but high.
pub fn should_prefer_apple_wrapper(quality: AppleMusicQuality, has_wrapper: bool) -> (r: bool)
    ensures
        r == (has_wrapper && quality != AppleMusicQuality::High),
{
    has_wrapper && match quality {
        AppleMusicQuality::Standard | AppleMusicQuality::Lossless | AppleMusicQuality::HiRes => true,
        AppleMusicQuality::High => false,
    }
}

/// The internal address of a download through the wrapper.
pub fn apple_wrapper_internal_url(host: &str, id: &str, quality: AppleMusicQuality) -> (r: String)
    ensures
        r@ == "applemusic-wrapper://"@ + host@ + "/"@ + id@ + "?quality="@ + quality_text(quality),
{
    let mut r = String::from_str("applemusic-wrapper://");
    push_str(&mut r, host);
    push_str(&mut r, "/");
    push_str(&mut r, id);
    push_str(&mut r, "?quality=");
    push_str(&mut r, quality.as_str());
    r
}

/// The internal address of a download through Widevine.
pub fn apple_widevine_internal_url(id: &str, quality: AppleMusicQuality) -> (r: String)
    ensures
        r@ == "applemusic-widevine://"@ + id@ + "?quality="@ + quality_text(quality),
{
    let mut r = String::from_str("applemusic-widevine://");
    push_str(&mut r, id);
    push_str(&mut r, "?quality=");
    push_str(&mut r, quality.as_str());
    r
}

/// The page of a song.
pub fn apple_track_url(id: &str) -> (r: String)
    ensures
        r@ == "https://music.apple.com/song/"@ + id@,
{
    concat("https://music.apple.com/song/", id)
}

/// The artwork address at a size: the template's `{w}` and `{h}` replaced
/// by the size; empty without artwork.
pub fn format_artwork_url(artwork_url: Option<&str>, size: usize) -> (r: String)
    ensures
        r@ == match artwork_url {
            Some(u) => crate::text::replace_spec(
                crate::text::replace_spec(u@, "{w}"@, crate::num::digits_of(size as nat)),
                "{h}"@,
                crate::num::digits_of(size as nat),
            ),
            None => Seq::empty(),
        },
{
    match artwork_url {
        Some(u) => {
            let mut n: Vec<char> = Vec::new();
            crate::num::push_digits(&mut n, size as u64);
            let ns = string_of(&n);
            let v = chars_of(u);
            proof {
                reveal_strlit("{w}");
                reveal_strlit("{h}");
            }
            let w = crate::text::replace_all(&v, "{w}", ns.as_str());
            let h = crate::text::replace_all(&w, "{h}", ns.as_str());
            string_of(&h)
        },
        None => String::new(),
    }
}

} // verus!

verus! {

/// The media user token of a setting that may hold a whole cookie: the
/// `media-user-token` value where a part names it, else the trimmed text.
pub open spec fn media_token_spec(raw: Seq<char>) -> Seq<char> {
    let t = trim_spec(raw);
    if t.len() == 0 {
        Seq::empty()
    } else {
        match crate::tencent::cookie_value_in(crate::tencent::split_on(t, ';'), "media-user-token"@) {
            Some(v) => v,
            None => t,
        }
    }
}

pub fn normalize_media_user_token(raw: &str) -> (r: String)
    ensures
        r@ == media_token_spec(raw@),
{
    let t = crate::text::trim_str(raw);
    if chars_of(t.as_str()).len() == 0 {
        return String::new();
    }
    match crate::tencent::cookie_value(t.as_str(), "media-user-token") {
        Some(v) => v,
        None => t,
    }
}

/// The sample rate and bit depth an ALAC audio group names in its last two
/// `-`-separated parts (0 for what does not read); none for other groups.
pub open spec fn alac_group_spec(group: Seq<char>) -> (i64, i64) {
    if !crate::text::contains_seq(group, "alac"@) {
        (0, 0)
    } else {
        let parts = crate::tencent::split_on(group, '-');
        if parts.len() < 2 {
            (0, 0)
        } else {
            (
                match crate::num::parse_i64_spec(parts[parts.len() - 2]) {
                    Some(v) => v,
                    None => 0,
                },
                match crate::num::parse_i64_spec(parts.last()) {
                    Some(v) => v,
                    None => 0,
                },
            )
        }
    }
}

fn split_char(v: &[char], c: char) -> (r: Vec<Vec<char>>)
    ensures
        crate::text::vec_views(r@) == crate::tencent::split_on(v@, c),
{
    let mut out: Vec<Vec<char>> = Vec::new();
    let mut i: usize = 0;
    proof {
        assert(v@.skip(0) =~= v@);
        assert(crate::text::vec_views(out@) + crate::tencent::split_on(v@, c) =~= crate::tencent::split_on(v@, c));
    }
    loop
        invariant_except_break
            i <= v.len(),
            crate::text::vec_views(out@) + crate::tencent::split_on(v@.skip(i as int), c)
                == crate::tencent::split_on(v@, c),
        ensures
            crate::text::vec_views(out@) == crate::tencent::split_on(v@, c),
        decreases v.len() - i,
    {
        let j = crate::music_text::find_char_from(v, c, i);
        let ghost rest = v@.skip(i as int);
        let ghost o0 = crate::text::vec_views(out@);
        proof {
            crate::music_text::lemma_find_shift(v@, c, i as int);
            crate::music_text::lemma_find_from_bounds(rest, c, 0);
        }
        let piece = crate::text::sub_vec(v, i, j);
        out.push(piece);
        proof {
            let jj = crate::music_text::find_from(rest, c, 0);
            assert(piece@ =~= rest.take(jj));
            assert(crate::text::vec_views(out@) =~= o0.push(rest.take(jj)));
        }
        if j >= v.len() {
            proof {
                let jj = crate::music_text::find_from(rest, c, 0);
                assert(crate::tencent::split_on(rest, c) == seq![rest.take(jj)]);
                assert(crate::text::vec_views(out@) =~= o0 + crate::tencent::split_on(rest, c));
            }
            break;
        }
        proof {
            let jj = crate::music_text::find_from(rest, c, 0);
            assert(rest.skip(jj + 1) =~= v@.skip(j + 1));
            assert(crate::tencent::split_on(rest, c) == seq![rest.take(jj)] + crate::tencent::split_on(rest.skip(jj + 1), c));
            assert(crate::text::vec_views(out@) + crate::tencent::split_on(v@.skip(j + 1), c) =~= o0
                + crate::tencent::split_on(rest, c));
        }
        i = j + 1;
    }
    out
}

pub fn parse_alac_group_details(group: &str) -> (r: (i64, i64))
    ensures
        r == alac_group_spec(group@),
{
    let v = chars_of(group);
    if !crate::text::contains_str(&v, "alac") {
        return (0, 0);
    }
    let parts = split_char(&v, '-');
    if parts.len() < 2 {
        return (0, 0);
    }
    proof {
        assert(crate::text::vec_views(parts@)[parts.len() - 2] == parts@[parts.len() - 2]@);
        assert(crate::text::vec_views(parts@).last() == parts@[parts.len() - 1]@);
    }
    let bit_depth = match crate::num::parse_i64(&parts[parts.len() - 1]) {
        Some(v) => v,
        None => 0,
    };
    let sample_rate = match crate::num::parse_i64(&parts[parts.len() - 2]) {
        Some(v) => v,
        None => 0,
    };
    (sample_rate, bit_depth)
}

/// A playlist entry's address: an absolute address as it is, else next to
/// the playlist (after its last `/`), else as it is.
pub open spec fn absolute_url_spec(base: Seq<char>, value: Seq<char>) -> Seq<char> {
    if has_prefix(value, "http://"@) || has_prefix(value, "https://"@) {
        value
    } else {
        match crate::text::rsplit_once_spec(base, '/') {
            Some((b, _)) => b + "/"@ + value,
            None => value,
        }
    }
}

/// An address that already starts with `http://` or `https://` is used as
/// it is; any other is put right after the last `/` of the playlist's
/// address.
pub proof fn lemma_absolute_url(base: Seq<char>, value: Seq<char>, k: int)
    ensures
        value.len() >= 8 && value.take(8) == "https://"@ ==> absolute_url_spec(base, value) == value,
        value.len() >= 7 && value.take(7) == "http://"@ ==> absolute_url_spec(base, value) == value,
        !(value.len() >= 7 && value.take(7) == "http://"@) && !(value.len() >= 8 && value.take(8)
            == "https://"@) && 0 <= k < base.len() && base[k] == '/' && (forall|j: int|
            k < j < base.len() ==> base[j] != '/') ==> absolute_url_spec(base, value) == base.take(k + 1)
            + value,
{
    reveal_strlit("https://");
    reveal_strlit("http://");
    reveal_strlit("/");
    if !(value.len() >= 7 && value.take(7) == "http://"@) && !(value.len() >= 8 && value.take(8)
        == "https://"@) && 0 <= k < base.len() && base[k] == '/' && (forall|j: int|
        k < j < base.len() ==> base[j] != '/') {
        crate::text::lemma_last_index(base, '/', k);
        assert(base.take(k) + "/"@ + value =~= base.take(k + 1) + value);
    }
}

pub fn absolute_hls_url(base_url: &str, value: &str) -> (r: String)
    ensures
        r@ == absolute_url_spec(base_url@, value@),
{
    let vv = chars_of(value);
    if crate::text::starts_with_str(&vv, "http://") || crate::text::starts_with_str(&vv, "https://") {
        return value.to_owned();
    }
    let bv = chars_of(base_url);
    match crate::text::rsplit_once(&bv, '/') {
        Some((b, _)) => {
            let mut r = string_of(&b);
            push_str(&mut r, "/");
            push_str(&mut r, value);
            r
        },
        None => value.to_owned(),
    }
}

/// A variant of an HLS master playlist.
#[derive(Clone, Debug)]
pub struct EnhancedHlsVariant {
    pub codecs: String,
    pub audio: String,
    pub avg_bw: i64,
    pub uri: String,
    pub sample_rate: i64,
    pub bit_depth: i64,
}

pub struct VariantView {
    pub codecs: Seq<char>,
    pub audio: Seq<char>,
    pub avg_bw: i64,
    pub uri: Seq<char>,
    pub sample_rate: i64,
    pub bit_depth: i64,
}

impl View for EnhancedHlsVariant {
    type V = VariantView;

    open spec fn view(&self) -> VariantView {
        VariantView {
            codecs: self.codecs@,
            audio: self.audio@,
            avg_bw: self.avg_bw,
            uri: self.uri@,
            sample_rate: self.sample_rate,
            bit_depth: self.bit_depth,
        }
    }
}

pub open spec fn variant_views(v: Seq<EnhancedHlsVariant>) -> Seq<VariantView> {
    v.map_values(|x: EnhancedHlsVariant| x@)
}

pub open spec fn is_alac_spec(v: VariantView) -> bool {
    v.codecs == "alac"@
}

pub open spec fn is_aac_spec(v: VariantView) -> bool {
    has_prefix(v.codecs, "mp4a.40"@)
}

impl EnhancedHlsVariant {
    pub fn is_alac(&self) -> (r: bool)
        ensures
            r == is_alac_spec(self@),
    {
        crate::text::str_eq(self.codecs.as_str(), "alac")
    }

    pub fn is_aac(&self) -> (r: bool)
        ensures
            r == is_aac_spec(self@),
    {
        let c = chars_of(self.codecs.as_str());
        crate::text::starts_with_str(&c, "mp4a.40")
    }

    /// A copy with the same fields.
    pub fn duplicate(&self) -> (r: Self)
        ensures
            r@ == self@,
    {
        EnhancedHlsVariant {
            codecs: self.codecs.clone(),
            audio: self.audio.clone(),
            avg_bw: self.avg_bw,
            uri: self.uri.clone(),
            sample_rate: self.sample_rate,
            bit_depth: self.bit_depth,
        }
    }
}

/// Whether a variant is a hi-res ALAC one: 24 bits or above 44.1 kHz.
pub open spec fn is_hires_spec(v: VariantView) -> bool {
    is_alac_spec(v) && (v.bit_depth >= 24 || v.sample_rate > 44_100)
}

/// Whether `x` ranks at least as high as `y` by sample rate, then
/// bandwidth.
pub open spec fn ranks_at_least(x: VariantView, y: VariantView) -> bool {
    x.sample_rate > y.sample_rate || (x.sample_rate == y.sample_rate && x.avg_bw >= y.avg_bw)
}

/// The highest ranked variant that passes, the last one among equals.
pub open spec fn best_ranked(vs: Seq<VariantView>, hires_only: bool) -> Option<VariantView>
    decreases vs.len(),
{
    if vs.len() == 0 {
        None
    } else {
        let prev = best_ranked(vs.drop_last(), hires_only);
        let x = vs.last();
        if (if hires_only {
            is_hires_spec(x)
        } else {
            is_alac_spec(x)
        }) {
            match prev {
                Some(y) => if ranks_at_least(x, y) {
                    Some(x)
                } else {
                    Some(y)
                },
                None => Some(x),
            }
        } else {
            prev
        }
    }
}

/// The distance of a bandwidth from the target.
pub open spec fn distance(bw: i64, target: i64) -> int {
    if bw - target >= 0 {
        bw - target
    } else {
        target - bw
    }
}

/// The AAC variant closest to the target bandwidth, the first one among
/// equals.
pub open spec fn closest_aac(vs: Seq<VariantView>, target: i64) -> Option<VariantView>
    decreases vs.len(),
{
    if vs.len() == 0 {
        None
    } else {
        let prev = closest_aac(vs.drop_last(), target);
        let x = vs.last();
        if is_aac_spec(x) {
            match prev {
                Some(y) => if distance(x.avg_bw, target) < distance(y.avg_bw, target) {
                    Some(x)
                } else {
                    Some(y)
                },
                None => Some(x),
            }
        } else {
            prev
        }
    }
}

pub open spec fn opt_variant(o: Option<EnhancedHlsVariant>) -> Option<VariantView> {
    match o {
        Some(v) => Some(v@),
        None => None,
    }
}

pub fn best_aac_variant(variants: &[EnhancedHlsVariant], target: i64) -> (r: Option<
    EnhancedHlsVariant,
>)
    ensures
        opt_variant(r) == closest_aac(variant_views(variants@), target),
{
    let mut best: Option<usize> = None;
    let mut i: usize = 0;
    while i < variants.len()
        invariant
            i <= variants.len(),
            match best {
                Some(b) => b < i && closest_aac(variant_views(variants@).take(i as int), target)
                    == Some(variants@[b as int]@),
                None => closest_aac(variant_views(variants@).take(i as int), target) is None,
            },
        decreases variants.len() - i,
    {
        proof {
            assert(variant_views(variants@).take(i + 1).drop_last() =~= variant_views(
                variants@,
            ).take(i as int));
            assert(variant_views(variants@).take(i + 1).last() == variants@[i as int]@);
        }
        if variants[i].is_aac() {
            match best {
                Some(b) => {
                    let dx: i128 = variants[i].avg_bw as i128 - target as i128;
                    let dy: i128 = variants[b].avg_bw as i128 - target as i128;
                    let ax = if dx >= 0 {
                        dx
                    } else {
                        -dx
                    };
                    let ay = if dy >= 0 {
                        dy
                    } else {
                        -dy
                    };
                    if ax < ay {
                        best = Some(i);
                    }
                },
                None => {
                    best = Some(i);
                },
            }
        }
        i = i + 1;
    }
    proof {
        assert(variant_views(variants@).take(variants.len() as int) =~= variant_views(variants@));
    }
    match best {
        Some(b) => Some(variants[b].duplicate()),
        None => None,
    }
}

fn best_alac(variants: &[EnhancedHlsVariant], hires_only: bool) -> (r: Option<EnhancedHlsVariant>)
    ensures
        opt_variant(r) == best_ranked(variant_views(variants@), hires_only),
{
    let mut best: Option<usize> = None;
    let mut i: usize = 0;
    while i < variants.len()
        invariant
            i <= variants.len(),
            match best {
                Some(b) => b < i && best_ranked(variant_views(variants@).take(i as int), hires_only)
                    == Some(variants@[b as int]@),
                None => best_ranked(variant_views(variants@).take(i as int), hires_only) is None,
            },
        decreases variants.len() - i,
    {
        proof {
            assert(variant_views(variants@).take(i + 1).drop_last() =~= variant_views(
                variants@,
            ).take(i as int));
            assert(variant_views(variants@).take(i + 1).last() == variants@[i as int]@);
        }
        let v = &variants[i];
        let passes = v.is_alac() && (!hires_only || v.bit_depth >= 24 || v.sample_rate > 44_100);
        if passes {
            match best {
                Some(b) => {
                    let y = &variants[b];
                    if v.sample_rate > y.sample_rate || (v.sample_rate == y.sample_rate
                        && v.avg_bw >= y.avg_bw) {
                        best = Some(i);
                    }
                },
                None => {
                    best = Some(i);
                },
            }
        }
        i = i + 1;
    }
    proof {
        assert(variant_views(variants@).take(variants.len() as int) =~= variant_views(variants@));
    }
    match best {
        Some(b) => Some(variants[b].duplicate()),
        None => None,
    }
}

/// The variant a quality downloads: hi-res takes the best hi-res ALAC
/// variant or else the best ALAC one, lossless the best ALAC one, high and
/// standard the AAC variant closest to 256 and 128 kbit/s.
pub open spec fn select_variant_spec(vs: Seq<VariantView>, q: AppleMusicQuality) -> Option<
    VariantView,
> {
    match q {
        AppleMusicQuality::HiRes => match best_ranked(vs, true) {
            Some(v) => Some(v),
            None => best_ranked(vs, false),
        },
        AppleMusicQuality::Lossless => best_ranked(vs, false),
        AppleMusicQuality::High => closest_aac(vs, 256_000),
        AppleMusicQuality::Standard => closest_aac(vs, 128_000),
    }
}

pub fn select_variant_for_quality(variants: &[EnhancedHlsVariant], quality: AppleMusicQuality) -> (r:
    Option<EnhancedHlsVariant>)
    ensures
        opt_variant(r) == select_variant_spec(variant_views(variants@), quality),
{
    match quality {
        AppleMusicQuality::HiRes => match best_alac(variants, true) {
            Some(v) => Some(v),
            None => best_alac(variants, false),
        },
        AppleMusicQuality::Lossless => best_alac(variants, false),
        AppleMusicQuality::High => best_aac_variant(variants, 256_000),
        AppleMusicQuality::Standard => best_aac_variant(variants, 128_000),
    }
}

} // verus!

verus! {

/// A character that ends a web address written in running text: one of
/// `.,!?)]}`.
pub open spec fn url_trailer(c: char) -> bool {
    c == '.' || c == ',' || c == '!' || c == '?' || c == ')' || c == ']' || c == '}'
}

/// The text without trailing address enders.
pub open spec fn strip_url_trailers(s: Seq<char>) -> Seq<char>
    decreases s.len(),
{
    if s.len() > 0 && url_trailer(s.last()) {
        strip_url_trailers(s.drop_last())
    } else {
        s
    }
}

/// The end of the run of non-whitespace characters from `k`.
pub open spec fn nonws_end(s: Seq<char>, k: int) -> int
    decreases s.len() - k,
{
    if k < 0 || k >= s.len() || crate::text::is_ws(s[k]) {
        k
    } else {
        nonws_end(s, k + 1)
    }
}

/// The length of `https://` or `http://` at `i` when a non-whitespace
/// character follows it.
pub open spec fn scheme_len_at(s: Seq<char>, i: int) -> int {
    if crate::text::occurs_at(s, "https://"@, i) && i + 8 < s.len() && !crate::text::is_ws(s[i + 8]) {
        8
    } else if crate::text::occurs_at(s, "http://"@, i) && i + 7 < s.len() && !crate::text::is_ws(
        s[i + 7],
    ) {
        7
    } else {
        0
    }
}

/// The first web address in the text from `k` on: where it starts and where
/// its run of non-whitespace ends.
pub open spec fn first_web_address(s: Seq<char>, k: int) -> Option<(int, int)>
    decreases s.len() - k,
{
    if k < 0 || k >= s.len() {
        None
    } else if scheme_len_at(s, k) > 0 {
        Some((k, nonws_end(s, k + scheme_len_at(s, k))))
    } else {
        first_web_address(s, k + 1)
    }
}

/// The address to read from a message: its first `http(s)://` word without
/// trailing punctuation, else the whole text.
pub open spec fn web_address_text(t: Seq<char>) -> Seq<char> {
    match first_web_address(t, 0) {
        Some((a, e)) => strip_url_trailers(t.subrange(a, e)),
        None => t,
    }
}

pub open spec fn all_digits_min(s: Seq<char>, n: nat) -> bool {
    s.len() >= n && forall|i: int| 0 <= i < s.len() ==> crate::text::is_digit(#[trigger] s[i])
}

/// The song id at the end of an Apple Music song path
/// `/cc/song/name/123456`: two lowercase letters, a non-empty name without
/// `/`, and at least six digits.
pub open spec fn apple_song_path_id(path: Seq<char>) -> Option<Seq<char>> {
    if path.len() < 9 || path[0] != '/' || !('a' <= path[1] <= 'z') || !('a' <= path[2] <= 'z')
        || path.subrange(3, 9) != "/song/"@ {
        None
    } else {
        let rest = path.skip(9);
        match crate::text::split_once_spec(rest, '/') {
            Some((seg, digits)) => if seg.len() >= 1 && all_digits_min(digits, 6) {
                Some(digits)
            } else {
                None
            },
            None => None,
        }
    }
}

/// Whether a host is Apple Music's, in any letter case.
pub open spec fn apple_music_host(host: Seq<char>) -> bool {
    let h = crate::text::lower_spec(host);
    h == "music.apple.com"@ || crate::text::has_suffix(h, ".music.apple.com"@)
}

/// A value of at least six digits.
pub open spec fn keep_song_id(v: Option<Seq<char>>) -> Option<Seq<char>> {
    match v {
        Some(x) => if all_digits_min(x, 6) {
            Some(x)
        } else {
            None
        },
        None => None,
    }
}

/// The Apple Music track id a message names: six or more digits; a
/// platform alias, `:` and six or more digits; or an Apple Music address
/// with the id in its `i` or `songId` query value or at the end of a song
/// path.
pub open spec fn apple_track_id_spec(text: Seq<char>) -> Option<Seq<char>> {
    let t = trim_spec(text);
    if all_digits_min(t, 6) {
        Some(t)
    } else {
        match prefixed_song_id(t) {
            Some(v) => Some(v),
            None => match crate::urlparts::parsed_url(web_address_text(t)) {
                None => None,
                Some(u) => match u.host {
                    None => None,
                    Some(h) => if !apple_music_host(h) {
                        None
                    } else {
                        let by_i = keep_song_id(
                            crate::urlparts::first_value_of(u.pairs, seq!["i"@]),
                        );
                        let by_song = keep_song_id(
                            crate::urlparts::first_value_of(u.pairs, seq!["songId"@]),
                        );
                        if by_i is Some {
                            by_i
                        } else if by_song is Some {
                            by_song
                        } else {
                            apple_song_path_id(u.path)
                        }
                    },
                },
            },
        }
    }
}

/// The id of `alias:digits`, when the alias names a platform and there are
/// at least six digits.
pub open spec fn prefixed_song_id(t: Seq<char>) -> Option<Seq<char>> {
    match crate::text::split_once_spec(t, ':') {
        Some((prefix, value)) => if crate::provider::platform_of_alias(prefix) is Some
            && all_digits_min(value, 6) {
            Some(value)
        } else {
            None
        },
        None => None,
    }
}

fn all_digits_at_least(v: &[char], n: usize) -> (r: bool)
    ensures
        r == all_digits_min(v@, n as nat),
{
    v.len() >= n && crate::text::check_all_digits(v)
}

fn is_url_trailer(c: char) -> (r: bool)
    ensures
        r == url_trailer(c),
{
    c == '.' || c == ',' || c == '!' || c == '?' || c == ')' || c == ']' || c == '}'
}

fn web_address(t: &[char]) -> (r: Vec<char>)
    ensures
        r@ == web_address_text(t@),
{
    let mut k: usize = 0;
    let https = chars_of("https://");
    let http = chars_of("http://");
    proof {
        reveal_strlit("https://");
        reveal_strlit("http://");
    }
    while k < t.len()
        invariant
            k <= t.len(),
            https@ == "https://"@,
            http@ == "http://"@,
            first_web_address(t@, k as int) == first_web_address(t@, 0),
        decreases t.len() - k,
    {
        let mut sl: usize = 0;
        if crate::text::matches_at(t, &https, k) && t.len() - k > 8 && !crate::text::is_whitespace(
            t[k + 8],
        ) {
            sl = 8;
        } else if crate::text::matches_at(t, &http, k) && t.len() - k > 7
            && !crate::text::is_whitespace(t[k + 7]) {
            sl = 7;
        }
        if sl > 0 {
            let mut e = k + sl;
            while e < t.len() && !crate::text::is_whitespace(t[e])
                invariant
                    k + sl <= e <= t.len(),
                    nonws_end(t@, e as int) == nonws_end(t@, k + sl),
                decreases t.len() - e,
            {
                e = e + 1;
            }
            let mut b = e;
            while b > k && is_url_trailer(t[b - 1])
                invariant
                    k <= b <= e,
                    e <= t.len(),
                    strip_url_trailers(t@.subrange(k as int, b as int)) == strip_url_trailers(
                        t@.subrange(k as int, e as int),
                    ),
                decreases b,
            {
                proof {
                    assert(t@.subrange(k as int, b as int).drop_last() =~= t@.subrange(
                        k as int,
                        b - 1,
                    ));
                }
                b = b - 1;
            }
            proof {
                if b > k {
                    assert(t@.subrange(k as int, b as int).last() == t@[b - 1]);
                }
            }
            return sub_vec_at(t, k, b);
        }
        k = k + 1;
    }
    proof {
        assert(t@.subrange(0, t@.len() as int) =~= t@);
    }
    sub_vec_at(t, 0, t.len())
}

fn sub_vec_at(v: &[char], a: usize, b: usize) -> (r: Vec<char>)
    requires
        a <= b <= v.len(),
    ensures
        r@ == v@.subrange(a as int, b as int),
{
    crate::text::sub_vec(v, a, b)
}

fn apple_song_path(path: &[char]) -> (r: Option<Vec<char>>)
    ensures
        match apple_song_path_id(path@) {
            Some(d) => r matches Some(x) && x@ == d,
            None => r is None,
        },
{
    if path.len() < 9 || path[0] != '/' || !('a' <= path[1] && path[1] <= 'z') || !('a' <= path[2]
        && path[2] <= 'z') {
        return None;
    }
    let song = chars_of("/song/");
    proof {
        reveal_strlit("/song/");
    }
    if !crate::text::matches_at(path, &song, 3) {
        proof {
            assert(path@.subrange(3, 9) != "/song/"@);
        }
        return None;
    }
    let rest = sub_vec_at(path, 9, path.len());
    proof {
        assert(rest@ =~= path@.skip(9));
    }
    match crate::text::split_once(&rest, '/') {
        Some((seg, digits)) => {
            if seg.len() >= 1 && all_digits_at_least(&digits, 6) {
                Some(digits)
            } else {
                None
            }
        },
        None => None,
    }
}

fn keep_id(v: Option<String>) -> (r: Option<String>)
    ensures
        crate::urlparts::opt_str_view(r) == keep_song_id(crate::urlparts::opt_str_view(v)),
{
    match v {
        Some(x) => {
            if all_digits_at_least(&chars_of(x.as_str()), 6) {
                Some(x)
            } else {
                None
            }
        },
        None => None,
    }
}

pub fn parse_apple_track_id(text: &str) -> (r: Option<String>)
    ensures
        crate::urlparts::opt_str_view(r) == apple_track_id_spec(text@),
{
    let t = trim_chars(&chars_of(text));
    if all_digits_at_least(&t, 6) {
        return Some(string_of(&t));
    }
    match crate::text::split_once(&t, ':') {
        Some((prefix, value)) => {
            let p = string_of(&prefix);
            if crate::provider::MusicPlatform::from_alias(p.as_str()).is_some()
                && all_digits_at_least(&value, 6) {
                return Some(string_of(&value));
            }
        },
        None => {},
    }
    let url_text = string_of(&web_address(&t));
    let url = match crate::urlparts::parse_url(url_text.as_str()) {
        Some(u) => u,
        None => return None,
    };
    let host = match &url.host {
        Some(h) => crate::text::to_ascii_lowercase(&chars_of(h.as_str())),
        None => return None,
    };
    if !(crate::text::eq_str(&host, "music.apple.com") || crate::text::ends_with_str(
        &host,
        ".music.apple.com",
    )) {
        return None;
    }
    let i_keys: [&str; 1] = ["i"];
    let by_i = keep_id(crate::urlparts::first_value(&url.pairs, &i_keys));
    proof {
        assert(crate::urlparts::str_views(i_keys@) =~= seq!["i"@]);
    }
    if by_i.is_some() {
        return by_i;
    }
    let song_keys: [&str; 1] = ["songId"];
    let by_song = keep_id(crate::urlparts::first_value(&url.pairs, &song_keys));
    proof {
        assert(crate::urlparts::str_views(song_keys@) =~= seq!["songId"@]);
    }
    if by_song.is_some() {
        return by_song;
    }
    match apple_song_path(&chars_of(url.path.as_str())) {
        Some(d) => Some(string_of(&d)),
        None => None,
    }
}

} // verus!
