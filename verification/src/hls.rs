//! HLS playlists of the Apple Music streams: the variants of a master
//! playlist with their codecs, audio group and bandwidth, and the segment
//! keys and media address of a media playlist.
use vstd::prelude::*;
use vstd::string::StrSliceExecFns;
use base64::Engine;
use crate::text::{chars_of, string_of, sub_vec, trim_chars, trim_spec, occurs_at, has_prefix, matches_at};
use crate::music_text::{find_from, find_char_from, split_lines, lemma_find_shift, lemma_find_from_bounds};
use crate::apple::{EnhancedHlsVariant, VariantView, variant_views, alac_group_spec, parse_alac_group_details};
use crate::error::BotError;

verus! {

/// The lines of a playlist, each trimmed. (`str::lines` would also drop a
/// last empty line; the parsers skip empty lines either way.)
pub open spec fn hls_lines(s: Seq<char>) -> Seq<Seq<char>> {
    split_lines(s).map_values(|l: Seq<char>| trim_spec(l))
}

pub fn trimmed_lines(content: &str) -> (r: Vec<Vec<char>>)
    ensures
        crate::text::vec_views(r@) == hls_lines(content@),
{
    let v = chars_of(content);
    let mut out: Vec<Vec<char>> = Vec::new();
    let mut i: usize = 0;
    proof {
        assert(v@.skip(0) =~= v@);
        assert(crate::text::vec_views(out@) + hls_lines(v@) =~= hls_lines(v@));
    }
    loop
        invariant_except_break
            i <= v.len(),
            v@ == content@,
            crate::text::vec_views(out@) + hls_lines(v@.skip(i as int)) == hls_lines(v@),
        ensures
            crate::text::vec_views(out@) == hls_lines(v@),
            v@ == content@,
        decreases v.len() - i,
    {
        let j = find_char_from(&v, '\n', i);
        let line = sub_vec(&v, i, j);
        let t = trim_chars(&line);
        let ghost rest = v@.skip(i as int);
        let ghost o0 = crate::text::vec_views(out@);
        proof {
            lemma_find_shift(v@, '\n', i as int);
            lemma_find_from_bounds(rest, '\n', 0);
            let jj = find_from(rest, '\n', 0);
            assert(line@ =~= rest.take(jj));
        }
        out.push(t);
        proof {
            let jj = find_from(rest, '\n', 0);
            assert(crate::text::vec_views(out@) =~= o0.push(trim_spec(rest.take(jj))));
        }
        if j >= v.len() {
            proof {
                let jj = find_from(rest, '\n', 0);
                assert(split_lines(rest) == seq![rest.take(jj)]);
                assert(hls_lines(rest) =~= seq![trim_spec(rest.take(jj))]);
            }
            break;
        }
        proof {
            let jj = find_from(rest, '\n', 0);
            assert(rest.skip(jj + 1) =~= v@.skip(j + 1));
            assert(split_lines(rest) == seq![rest.take(jj)] + split_lines(rest.skip(jj + 1)));
            assert(hls_lines(rest) =~= seq![trim_spec(rest.take(jj))] + hls_lines(rest.skip(jj + 1)));
            assert(crate::text::vec_views(out@) + hls_lines(v@.skip(j + 1)) =~= o0 + hls_lines(rest));
        }
        i = j + 1;
    }
    out
}

/// The first position from `k` on where `p` occurs in `s`, or the length
/// of `s`.
pub open spec fn find_seq_from(s: Seq<char>, p: Seq<char>, k: int) -> int
    decreases s.len() - k,
{
    if k < 0 || k >= s.len() || k + p.len() > s.len() {
        s.len() as int
    } else if occurs_at(s, p, k) {
        k
    } else {
        find_seq_from(s, p, k + 1)
    }
}

pub proof fn lemma_find_seq_from_bounds(s: Seq<char>, p: Seq<char>, k: int)
    requires
        0 <= k,
    ensures
        find_seq_from(s, p, k) == s.len() || (k <= find_seq_from(s, p, k) && occurs_at(
            s,
            p,
            find_seq_from(s, p, k),
        ) && find_seq_from(s, p, k) < s.len()),
    decreases s.len() - k,
{
    if k < s.len() && k + p.len() <= s.len() && !occurs_at(s, p, k) {
        lemma_find_seq_from_bounds(s, p, k + 1);
    }
}

pub fn find_seq_from_exec(s: &[char], p: &[char], k: usize) -> (r: usize)
    requires
        k <= s.len(),
    ensures
        r == find_seq_from(s@, p@, k as int),
{
    let mut i = k;
    loop
        invariant
            k <= i <= s.len(),
            find_seq_from(s@, p@, i as int) == find_seq_from(s@, p@, k as int),
        decreases s.len() - i,
    {
        if i >= s.len() || p.len() > s.len() - i {
            return s.len();
        }
        if matches_at(s, p, i) {
            return i;
        }
        i = i + 1;
    }
}

/// The value of the first `attr="…"` in a line: the text after the marker
/// up to the next `"`; none without the marker or the closing quote.
pub open spec fn quoted_attr_spec(line: Seq<char>, attr: Seq<char>) -> Option<Seq<char>> {
    let m = attr + "=\""@;
    let i = find_seq_from(line, m, 0);
    if i >= line.len() {
        None
    } else {
        let st = i + m.len();
        let j = find_from(line, '"', st);
        if j >= line.len() {
            None
        } else {
            Some(line.subrange(st, j))
        }
    }
}

fn quoted_attr_chars(line: &[char], attr: &str) -> (r: Option<Vec<char>>)
    ensures
        match quoted_attr_spec(line@, attr@) {
            Some(v) => r matches Some(x) && x@ == v,
            None => r is None,
        },
{
    let mut m = chars_of(attr);
    m.push('=');
    m.push('"');
    proof {
        reveal_strlit("=\"");
        assert(m@ =~= attr@ + "=\""@);
    }
    let i = find_seq_from_exec(line, &m, 0);
    if i >= line.len() {
        return None;
    }
    proof {
        lemma_find_seq_from_bounds(line@, m@, 0);
    }
    let st = i + m.len();
    let j = find_char_from(line, '"', st);
    if j >= line.len() {
        return None;
    }
    Some(sub_vec(line, st, j))
}

/// The value of the first `attr="…"` of a playlist line.
pub fn extract_quoted_attr(line: &str, attr: &str) -> (r: Option<String>)
    ensures
        match quoted_attr_spec(line@, attr@) {
            Some(v) => r matches Some(x) && x@ == v,
            None => r is None,
        },
{
    let v = chars_of(line);
    match quoted_attr_chars(&v, attr) {
        Some(x) => Some(string_of(&x)),
        None => None,
    }
}

/// The end of the run of digits from `k`.
pub open spec fn digit_run_end(s: Seq<char>, k: int) -> int
    decreases s.len() - k,
{
    if k < 0 || k >= s.len() || !crate::text::is_digit(s[k]) {
        k
    } else {
        digit_run_end(s, k + 1)
    }
}

/// The first `key` from `k` on that a digit follows, and, when `comma`,
/// that stands at the start or after a comma.
pub open spec fn numbered_key_from(s: Seq<char>, key: Seq<char>, comma: bool, k: int) -> Option<int>
    decreases s.len() - k,
{
    if k < 0 || k + key.len() >= s.len() {
        None
    } else if occurs_at(s, key, k) && crate::text::is_digit(s[k + key.len()]) && (!comma || k == 0
        || s[k - 1] == ',') {
        Some(k)
    } else {
        numbered_key_from(s, key, comma, k + 1)
    }
}

/// The number after `key` at `i`, 0 when it does not fit an `i64`.
pub open spec fn number_after(s: Seq<char>, key: Seq<char>, i: int) -> i64 {
    let d = i + key.len();
    match crate::num::parse_i64_spec(s.subrange(d, digit_run_end(s, d))) {
        Some(v) => v,
        None => 0,
    }
}

/// The bandwidth of a stream: the digits after the first
/// `AVERAGE-BANDWIDTH=` that has any, else after the first `BANDWIDTH=`
/// at the start or after a comma that has any; 0 without either or when
/// the number does not fit.
pub open spec fn bandwidth_spec(attrs: Seq<char>) -> i64 {
    match numbered_key_from(attrs, "AVERAGE-BANDWIDTH="@, false, 0) {
        Some(i) => number_after(attrs, "AVERAGE-BANDWIDTH="@, i),
        None => match numbered_key_from(attrs, "BANDWIDTH="@, true, 0) {
            Some(i) => number_after(attrs, "BANDWIDTH="@, i),
            None => 0,
        },
    }
}

proof fn lemma_numbered_key_bound(s: Seq<char>, key: Seq<char>, comma: bool, k: int)
    ensures
        numbered_key_from(s, key, comma, k) matches Some(i) ==> 0 <= i && i + key.len() < s.len(),
    decreases s.len() - k,
{
    if k >= 0 && k + key.len() < s.len() {
        lemma_numbered_key_bound(s, key, comma, k + 1);
    }
}

fn digit_run_end_exec(s: &[char], k: usize) -> (r: usize)
    requires
        k <= s.len(),
    ensures
        r == digit_run_end(s@, k as int),
        k <= r <= s.len(),
{
    let mut i = k;
    while i < s.len() && crate::text::is_ascii_digit(s[i])
        invariant
            k <= i <= s.len(),
            digit_run_end(s@, i as int) == digit_run_end(s@, k as int),
        decreases s.len() - i,
    {
        i = i + 1;
    }
    i
}

fn numbered_key_exec(s: &[char], key: &[char], comma: bool) -> (r: Option<usize>)
    ensures
        match numbered_key_from(s@, key@, comma, 0) {
            Some(i) => r == Some(i as usize),
            None => r is None,
        },
{
    let mut k: usize = 0;
    loop
        invariant
            numbered_key_from(s@, key@, comma, k as int) == numbered_key_from(s@, key@, comma, 0),
        decreases s.len() - k,
    {
        if k >= s.len() || key.len() >= s.len() - k {
            return None;
        }
        if matches_at(s, key, k) && crate::text::is_ascii_digit(s[k + key.len()]) && (!comma || k
            == 0 || s[k - 1] == ',') {
            return Some(k);
        }
        k = k + 1;
    }
}

fn number_after_exec(s: &[char], key_len: usize, i: usize) -> (r: i64)
    requires
        i + key_len <= s.len(),
    ensures
        forall|key: Seq<char>| key.len() == key_len ==> r == number_after(s@, key, i as int),
{
    let d = i + key_len;
    let e = digit_run_end_exec(s, d);
    let run = sub_vec(s, d, e);
    match crate::num::parse_i64(&run) {
        Some(v) => v,
        None => 0,
    }
}

fn bandwidth_exec(attrs: &[char]) -> (r: i64)
    ensures
        r == bandwidth_spec(attrs@),
{
    let avg = chars_of("AVERAGE-BANDWIDTH=");
    proof {
        lemma_numbered_key_bound(attrs@, avg@, false, 0);
    }
    match numbered_key_exec(attrs, &avg, false) {
        Some(i) => {
            return number_after_exec(attrs, avg.len(), i);
        },
        None => {},
    }
    let bw = chars_of("BANDWIDTH=");
    proof {
        lemma_numbered_key_bound(attrs@, bw@, true, 0);
    }
    match numbered_key_exec(attrs, &bw, true) {
        Some(i) => number_after_exec(attrs, bw.len(), i),
        None => 0,
    }
}

/// The first line from `j` on that is neither empty nor a tag, and the
/// index after it; empty and the number of lines when there is none.
pub open spec fn next_uri(lines: Seq<Seq<char>>, j: int) -> (Seq<char>, int)
    decreases lines.len() - j,
{
    if j < 0 || j >= lines.len() {
        (Seq::empty(), lines.len() as int)
    } else if lines[j].len() == 0 || lines[j][0] == '#' {
        next_uri(lines, j + 1)
    } else {
        (lines[j], j + 1)
    }
}

pub proof fn lemma_next_uri(lines: Seq<Seq<char>>, j: int)
    requires
        0 <= j,
    ensures
        next_uri(lines, j).1 > j || (j >= lines.len() && next_uri(lines, j).1 == lines.len()),
        next_uri(lines, j).1 <= lines.len() || j > lines.len(),
        next_uri(lines, j).0.len() > 0 || next_uri(lines, j).1 == lines.len(),
    decreases lines.len() - j,
{
    if j < lines.len() && (lines[j].len() == 0 || lines[j][0] == '#') {
        lemma_next_uri(lines, j + 1);
    }
}

/// The value of a quoted attribute, empty when it is missing.
pub open spec fn quoted_or_empty(attrs: Seq<char>, attr: Seq<char>) -> Seq<char> {
    match quoted_attr_spec(attrs, attr) {
        Some(v) => v,
        None => Seq::empty(),
    }
}

/// The variant a stream line's attributes and address describe: its codecs
/// and audio group, its bandwidth, and the sample rate and bit depth that
/// an ALAC audio group names.
pub open spec fn variant_of(attrs: Seq<char>, uri: Seq<char>) -> VariantView {
    let audio = quoted_or_empty(attrs, "AUDIO"@);
    VariantView {
        codecs: quoted_or_empty(attrs, "CODECS"@),
        audio,
        avg_bw: bandwidth_spec(attrs),
        uri,
        sample_rate: alac_group_spec(audio).0,
        bit_depth: alac_group_spec(audio).1,
    }
}

/// The variants of a master playlist from line `i` on, in playlist order:
/// each `#EXT-X-STREAM-INF:` line with the next line that is neither empty
/// nor a tag as its address; a stream line without one gives no variant.
pub open spec fn master_from(lines: Seq<Seq<char>>, i: int) -> Seq<VariantView>
    decreases lines.len() - i,
{
    if i < 0 || i >= lines.len() {
        Seq::empty()
    } else if has_prefix(lines[i], "#EXT-X-STREAM-INF:"@) {
        let (uri, next) = next_uri(lines, i + 1);
        proof {
            lemma_next_uri(lines, i + 1);
        }
        (if uri.len() > 0 {
            seq![variant_of(lines[i].skip(18), uri)]
        } else {
            Seq::empty()
        }) + master_from(lines, next)
    } else {
        master_from(lines, i + 1)
    }
}

/// A variant put into a list sorted by bandwidth, highest first, after
/// every variant of at least its bandwidth.
pub open spec fn insert_by_bw(x: VariantView, s: Seq<VariantView>) -> Seq<VariantView>
    decreases s.len(),
{
    if s.len() == 0 {
        seq![x]
    } else if s[0].avg_bw >= x.avg_bw {
        seq![s[0]] + insert_by_bw(x, s.drop_first())
    } else {
        seq![x] + s
    }
}

/// The variants sorted by bandwidth, highest first; variants of equal
/// bandwidth keep their order (a stable sort).
pub open spec fn sort_by_bw(s: Seq<VariantView>) -> Seq<VariantView>
    decreases s.len(),
{
    if s.len() == 0 {
        s
    } else {
        insert_by_bw(s.last(), sort_by_bw(s.drop_last()))
    }
}

/// The variants of a master playlist sorted by bandwidth, or an error when
/// it has none.
pub open spec fn master_spec(content: Seq<char>) -> Result<Seq<VariantView>, Seq<char>> {
    let vs = master_from(hls_lines(content), 0);
    if vs.len() == 0 {
        Err("Apple Music enhancedHls 没有 stream variant"@)
    } else {
        Ok(sort_by_bw(vs))
    }
}

/// The place where `insert_by_bw` puts `x`: before the first variant of
/// lower bandwidth.
proof fn lemma_insert_at(x: VariantView, s: Seq<VariantView>, k: int)
    requires
        0 <= k <= s.len(),
        forall|j: int| 0 <= j < k ==> #[trigger] s[j].avg_bw >= x.avg_bw,
        k == s.len() || s[k].avg_bw < x.avg_bw,
    ensures
        insert_by_bw(x, s) == s.take(k) + seq![x] + s.skip(k),
    decreases s.len(),
{
    if s.len() == 0 {
        assert(s.take(k) + seq![x] + s.skip(k) =~= seq![x]);
    } else if k == 0 {
        assert(s.take(0) + seq![x] + s.skip(0) =~= seq![x] + s);
    } else {
        let t = s.drop_first();
        assert forall|j: int| 0 <= j < k - 1 implies #[trigger] t[j].avg_bw >= x.avg_bw by {
            assert(t[j] == s[j + 1]);
        }
        lemma_insert_at(x, t, k - 1);
        assert(seq![s[0]] + (t.take(k - 1) + seq![x] + t.skip(k - 1)) =~= s.take(k) + seq![x]
            + s.skip(k));
    }
}

fn insert_variant(sorted: &mut Vec<EnhancedHlsVariant>, v: EnhancedHlsVariant)
    ensures
        variant_views(final(sorted)@) == insert_by_bw(v@, variant_views(old(sorted)@)),
{
    let mut k: usize = 0;
    while k < sorted.len() && sorted[k].avg_bw >= v.avg_bw
        invariant
            k <= sorted.len(),
            sorted@ == old(sorted)@,
            forall|j: int| 0 <= j < k ==> #[trigger] sorted@[j].avg_bw >= v.avg_bw,
        decreases sorted.len() - k,
    {
        k = k + 1;
    }
    let ghost vs = variant_views(old(sorted)@);
    proof {
        assert forall|j: int| 0 <= j < k implies #[trigger] vs[j].avg_bw >= v@.avg_bw by {
            assert(vs[j] == sorted@[j]@);
        }
        if k < sorted.len() {
            assert(vs[k as int] == sorted@[k as int]@);
        }
        lemma_insert_at(v@, vs, k as int);
    }
    let ghost x = v@;
    sorted.insert(k, v);
    proof {
        assert(variant_views(sorted@) =~= vs.take(k as int) + seq![x] + vs.skip(k as int));
    }
}

fn stream_variant(line: &[char], uri: Vec<char>) -> (r: EnhancedHlsVariant)
    requires
        line@.len() >= 18,
    ensures
        r@ == variant_of(line@.skip(18), uri@),
{
    let attrs = sub_vec(line, 18, line.len());
    proof {
        assert(attrs@ =~= line@.skip(18));
    }
    let codecs = match quoted_attr_chars(&attrs, "CODECS") {
        Some(c) => string_of(&c),
        None => String::new(),
    };
    let audio = match quoted_attr_chars(&attrs, "AUDIO") {
        Some(c) => string_of(&c),
        None => String::new(),
    };
    let avg_bw = bandwidth_exec(&attrs);
    let (sample_rate, bit_depth) = parse_alac_group_details(audio.as_str());
    EnhancedHlsVariant { codecs, audio, avg_bw, uri: string_of(&uri), sample_rate, bit_depth }
}

proof fn lemma_sort_step(s: Seq<VariantView>, x: VariantView)
    ensures
        sort_by_bw(s.push(x)) == insert_by_bw(x, sort_by_bw(s)),
{
    assert(s.push(x).drop_last() =~= s);
}

pub fn parse_enhanced_hls_master(content: &str) -> (r: Result<Vec<EnhancedHlsVariant>, BotError>)
    ensures
        match master_spec(content@) {
            Ok(vs) => r matches Ok(v) && variant_views(v@) == vs,
            Err(m) => r matches Err(BotError::Custom(e)) && e@ == m,
        },
{
    let lines = trimmed_lines(content);
    let ghost ls = crate::text::vec_views(lines@);
    let mut variants: Vec<EnhancedHlsVariant> = Vec::new();
    let mut i: usize = 0;
    proof {
        assert(variant_views(variants@) + master_from(ls, 0) =~= master_from(ls, 0));
    }
    while i < lines.len()
        invariant
            ls == crate::text::vec_views(lines@),
            ls == hls_lines(content@),
            i <= lines.len(),
            variant_views(variants@) + master_from(ls, i as int) == master_from(ls, 0),
        decreases lines.len() - i,
    {
        let ghost i0 = i as int;
        let ghost v0 = variant_views(variants@);
        proof {
            assert(ls[i0] == lines@[i0]@);
        }
        if crate::text::starts_with_str(&lines[i], "#EXT-X-STREAM-INF:") {
            proof {
                reveal_strlit("#EXT-X-STREAM-INF:");
                lemma_next_uri(ls, i0 + 1);
            }
            let line_index = i;
            i = i + 1;
            let mut uri: Vec<char> = Vec::new();
            while i < lines.len()
                invariant_except_break
                    uri@.len() == 0,
                    next_uri(ls, i as int) == next_uri(ls, line_index + 1),
                invariant
                    ls == crate::text::vec_views(lines@),
                    line_index < i <= lines.len(),
                ensures
                    next_uri(ls, line_index + 1) == (uri@, i as int),
                decreases lines.len() - i,
            {
                let j = i;
                i = i + 1;
                proof {
                    assert(ls[j as int] == lines@[j as int]@);
                }
                if lines[j].len() == 0 || lines[j][0] == '#' {
                    continue;
                }
                uri = lines[j].clone();
                proof {
                    assert(uri@ == lines@[j as int]@);
                }
                break;
            }
            proof {
                assert(next_uri(ls, line_index + 1) == (uri@, i as int));
            }
            if uri.len() > 0 {
                let v = stream_variant(&lines[line_index], uri);
                variants.push(v);
                proof {
                    assert(variant_views(variants@) =~= v0.push(v@));
                    assert(v0.push(v@) + master_from(ls, i as int) =~= v0 + (seq![v@] + master_from(
                        ls,
                        i as int,
                    )));
                }
            } else {
                proof {
                    assert(Seq::<VariantView>::empty() + master_from(ls, i as int) =~= master_from(
                        ls,
                        i as int,
                    ));
                }
            }
        } else {
            proof {
                reveal_strlit("#EXT-X-STREAM-INF:");
            }
            i = i + 1;
        }
    }
    proof {
        assert(master_from(ls, i as int) =~= Seq::<VariantView>::empty());
        assert(variant_views(variants@) =~= master_from(ls, 0));
    }
    if variants.len() == 0 {
        return Err(BotError::Custom(String::from_str("Apple Music enhancedHls 没有 stream variant")));
    }
    let mut sorted: Vec<EnhancedHlsVariant> = Vec::new();
    let n = variants.len();
    let ghost all = variant_views(variants@);
    proof {
        assert(all.take(0) =~= Seq::<VariantView>::empty());
    }
    let mut k: usize = 0;
    while k < n
        invariant
            n == all.len(),
            n == variants@.len(),
            all == variant_views(variants@),
            k <= n,
            variant_views(sorted@) == sort_by_bw(all.take(k as int)),
        decreases n - k,
    {
        let v = variants[k].duplicate();
        proof {
            assert(v@ == all[k as int]);
            assert(all.take(k + 1) =~= all.take(k as int).push(all[k as int]));
            lemma_sort_step(all.take(k as int), all[k as int]);
        }
        insert_variant(&mut sorted, v);
        k = k + 1;
    }
    proof {
        assert(all.take(n as int) =~= all);
    }
    Ok(sorted)
}

/// Whether a `URI="skd://…"` with a non-empty value and a closing quote
/// starts at `p`.
pub open spec fn key_uri_at(line: Seq<char>, p: int) -> bool {
    &&& occurs_at(line, "URI=\"skd://"@, p)
    &&& find_from(line, '"', p + 11) < line.len()
    &&& find_from(line, '"', p + 11) > p + 11
}

/// The last position in `lo..hi` where such a key address starts.
pub open spec fn last_key_uri(line: Seq<char>, lo: int, hi: int) -> Option<int>
    decreases hi - lo,
{
    if hi <= lo {
        None
    } else if key_uri_at(line, hi - 1) {
        Some(hi - 1)
    } else {
        last_key_uri(line, lo, hi - 1)
    }
}

/// The `skd://` key address of an `#EXT-X-KEY:` line: the last one after
/// the tag (the tag's attributes are matched greedily up to it); none when
/// the line has no such tag or address.
pub open spec fn media_key_spec(line: Seq<char>) -> Option<Seq<char>> {
    let s0 = find_seq_from(line, "#EXT-X-KEY:"@, 0);
    if s0 >= line.len() {
        None
    } else {
        match last_key_uri(line, s0 + 11, line.len() as int) {
            None => None,
            Some(p) => Some(line.subrange(p + 5, find_from(line, '"', p + 11))),
        }
    }
}

/// Whether a `URI="…"` with a non-empty value and a closing quote starts
/// at `p`.
pub open spec fn map_uri_at(line: Seq<char>, p: int) -> bool {
    &&& occurs_at(line, "URI=\""@, p)
    &&& find_from(line, '"', p + 5) < line.len()
    &&& find_from(line, '"', p + 5) > p + 5
}

/// The first position from `k` on where such an address starts.
pub open spec fn first_map_uri(line: Seq<char>, k: int) -> Option<int>
    decreases line.len() - k,
{
    if k < 0 || k >= line.len() {
        None
    } else if map_uri_at(line, k) {
        Some(k)
    } else {
        first_map_uri(line, k + 1)
    }
}

/// The value of the first non-empty `URI="…"` of a line.
pub open spec fn map_uri_spec(line: Seq<char>) -> Option<Seq<char>> {
    match first_map_uri(line, 0) {
        None => None,
        Some(p) => Some(line.subrange(p + 5, find_from(line, '"', p + 5))),
    }
}

/// The media name and the key of each segment, from line `i` on, with the
/// key and name found so far: a key line sets the key when it names an
/// `skd://` address, a map line the name when it has an address, other tags
/// and empty lines are skipped, and each segment line takes the current key
/// (and is the name when none is set yet).
pub open spec fn media_from(
    lines: Seq<Seq<char>>,
    i: int,
    key: Seq<char>,
    name: Seq<char>,
    keys: Seq<Seq<char>>,
) -> (Seq<char>, Seq<Seq<char>>)
    decreases lines.len() - i,
{
    if i < 0 || i >= lines.len() {
        (name, keys)
    } else {
        let line = lines[i];
        if line.len() == 0 {
            media_from(lines, i + 1, key, name, keys)
        } else if has_prefix(line, "#EXT-X-KEY"@) {
            let k = match media_key_spec(line) {
                Some(k) => k,
                None => key,
            };
            media_from(lines, i + 1, k, name, keys)
        } else if has_prefix(line, "#EXT-X-MAP"@) {
            let n = match map_uri_spec(line) {
                Some(n) => n,
                None => name,
            };
            media_from(lines, i + 1, key, n, keys)
        } else if line[0] == '#' {
            media_from(lines, i + 1, key, name, keys)
        } else {
            let n = if name.len() == 0 {
                line
            } else {
                name
            };
            media_from(lines, i + 1, key, n, keys.push(key))
        }
    }
}

/// The media file of a media playlist and the key of each segment.
#[derive(Clone, Debug)]
pub struct EnhancedHlsMedia {
    pub mp4_url: String,
    pub seg_keys: Vec<String>,
}

/// The media address, beside the playlist's, and the segment keys; an
/// error when there is no media name or no segment.
pub open spec fn media_spec(media_url: Seq<char>, content: Seq<char>) -> Result<
    (Seq<char>, Seq<Seq<char>>),
    Seq<char>,
> {
    let (name, keys) = media_from(hls_lines(content), 0, Seq::empty(), Seq::empty(), Seq::empty());
    if name.len() == 0 {
        Err("Apple Music media playlist 没有 mp4 segment"@)
    } else if keys.len() == 0 {
        Err("Apple Music media playlist 没有 segment key"@)
    } else {
        Ok((crate::apple::absolute_url_spec(media_url, name), keys))
    }
}

pub open spec fn string_views(v: Seq<String>) -> Seq<Seq<char>> {
    v.map_values(|s: String| s@)
}

fn media_key_exec(line: &[char]) -> (r: Option<Vec<char>>)
    ensures
        match media_key_spec(line@) {
            Some(k) => r matches Some(x) && x@ == k,
            None => r is None,
        },
{
    let tag = chars_of("#EXT-X-KEY:");
    let marker = chars_of("URI=\"skd://");
    proof {
        reveal_strlit("#EXT-X-KEY:");
        reveal_strlit("URI=\"skd://");
    }
    assert(marker@.len() == 11);
    let s0 = find_seq_from_exec(line, &tag, 0);
    if s0 >= line.len() {
        return None;
    }
    proof {
        lemma_find_seq_from_bounds(line@, tag@, 0);
    }
    let lo = s0 + 11;
    let mut hi = line.len();
    loop
        invariant
            lo <= line.len() + 11,
            hi <= line.len(),
            marker@ == "URI=\"skd://"@,
            marker@.len() == 11,
            lo == s0 + 11,
            s0 < line@.len(),
            s0 == find_seq_from(line@, "#EXT-X-KEY:"@, 0),
            last_key_uri(line@, lo as int, hi as int) == last_key_uri(line@, lo as int, line@.len() as int),
        decreases hi,
    {
        if hi <= lo {
            return None;
        }
        let p = hi - 1;
        if matches_at(line, &marker, p) {
            let q = find_char_from(line, '"', p + 11);
            if q < line.len() && q > p + 11 {
                return Some(sub_vec(line, p + 5, q));
            }
        }
        hi = p;
    }
}

fn map_uri_exec(line: &[char]) -> (r: Option<Vec<char>>)
    ensures
        match map_uri_spec(line@) {
            Some(n) => r matches Some(x) && x@ == n,
            None => r is None,
        },
{
    let marker = chars_of("URI=\"");
    proof {
        reveal_strlit("URI=\"");
    }
    assert(marker@.len() == 5);
    let mut k: usize = 0;
    loop
        invariant
            marker@ == "URI=\""@,
            marker@.len() == 5,
            first_map_uri(line@, k as int) == first_map_uri(line@, 0),
        decreases line.len() - k,
    {
        if k >= line.len() {
            return None;
        }
        if matches_at(line, &marker, k) {
            let q = find_char_from(line, '"', k + 5);
            if q < line.len() && q > k + 5 {
                return Some(sub_vec(line, k + 5, q));
            }
        }
        k = k + 1;
    }
}

pub fn parse_enhanced_hls_media(media_url: &str, content: &str) -> (r: Result<EnhancedHlsMedia, BotError>)
    ensures
        match media_spec(media_url@, content@) {
            Ok((url, keys)) => r matches Ok(m) && m.mp4_url@ == url && string_views(m.seg_keys@)
                == keys,
            Err(e) => r matches Err(BotError::Custom(t)) && t@ == e,
        },
{
    let lines = trimmed_lines(content);
    let ghost ls = crate::text::vec_views(lines@);
    let mut current_key: Vec<char> = Vec::new();
    let mut mp4_name: Vec<char> = Vec::new();
    let mut seg_keys: Vec<String> = Vec::new();
    let mut i: usize = 0;
    proof {
        reveal_strlit("#EXT-X-KEY");
        reveal_strlit("#EXT-X-MAP");
        assert(string_views(seg_keys@) =~= Seq::<Seq<char>>::empty());
        assert(current_key@ =~= Seq::<char>::empty());
        assert(mp4_name@ =~= Seq::<char>::empty());
    }
    while i < lines.len()
        invariant
            ls == crate::text::vec_views(lines@),
            ls == hls_lines(content@),
            i <= lines.len(),
            media_from(ls, i as int, current_key@, mp4_name@, string_views(seg_keys@)) == media_from(
                ls,
                0,
                Seq::empty(),
                Seq::empty(),
                Seq::empty(),
            ),
        decreases lines.len() - i,
    {
        let line = &lines[i];
        proof {
            assert(ls[i as int] == line@);
        }
        if line.len() == 0 {
            i = i + 1;
            continue;
        }
        if crate::text::starts_with_str(line, "#EXT-X-KEY") {
            match media_key_exec(line) {
                Some(k) => {
                    current_key = k;
                },
                None => {},
            }
            i = i + 1;
            continue;
        }
        if crate::text::starts_with_str(line, "#EXT-X-MAP") {
            match map_uri_exec(line) {
                Some(n) => {
                    mp4_name = n;
                },
                None => {},
            }
            i = i + 1;
            continue;
        }
        if line[0] == '#' {
            i = i + 1;
            continue;
        }
        if mp4_name.len() == 0 {
            mp4_name = line.clone();
        }
        let ghost k0 = string_views(seg_keys@);
        seg_keys.push(string_of(&current_key));
        proof {
            assert(string_views(seg_keys@) =~= k0.push(current_key@));
        }
        i = i + 1;
    }
    if mp4_name.len() == 0 {
        return Err(BotError::Custom(String::from_str("Apple Music media playlist 没有 mp4 segment")));
    }
    if seg_keys.len() == 0 {
        return Err(BotError::Custom(String::from_str("Apple Music media playlist 没有 segment key")));
    }
    let name = string_of(&mp4_name);
    Ok(EnhancedHlsMedia { mp4_url: crate::apple::absolute_hls_url(media_url, name.as_str()), seg_keys })
}

/// What the standard base64 engine (alphabet `A–Z a–z 0–9 + /`, padding
/// required) decodes the bytes of a text to, or the text of its error.
pub uninterp spec fn base64_decoded(text: Seq<char>) -> Result<Seq<u8>, Seq<char>>;

/// `base64::engine::general_purpose::STANDARD.decode` on the text's bytes;
/// an error is given by its message. The result depends on the text
/// alone.
#[verifier::external_body]
pub(crate) fn base64_decode(text: &str) -> (r: Result<Vec<u8>, String>)
    ensures
        match r {
            Ok(v) => base64_decoded(text@) == Ok::<Seq<u8>, Seq<char>>(v@),
            Err(e) => base64_decoded(text@) == Err::<Seq<u8>, Seq<char>>(e@),
        },
{
    match base64::engine::general_purpose::STANDARD.decode(text.as_bytes()) {
        Ok(v) => Ok(v),
        Err(e) => Err(e.to_string()),
    }
}

/// The media file and content key of a Widevine playlist.
#[derive(Clone, Debug, PartialEq, Eq)]
pub struct WidevineHlsMedia {
    pub mp4_url: String,
    pub kid_b64: String,
    pub kid: [u8; 16],
    pub uri_prefix: String,
}

/// Whether a line names a media file: not a tag, not empty, and ending in
/// `.mp4`, `.m4a` or `.m4s`.
pub open spec fn media_file_line(line: Seq<char>) -> bool {
    &&& line.len() > 0
    &&& line[0] != '#'
    &&& (crate::text::has_suffix(line, ".mp4"@) || crate::text::has_suffix(line, ".m4a"@)
        || crate::text::has_suffix(line, ".m4s"@))
}

/// The media address, key text and key address prefix read from line `i`
/// on: a key line's `URI` splits at its first comma into prefix and key, a
/// map line's `URI` (beside the playlist) is the media address, and a media
/// file line is it while none is set.
pub open spec fn widevine_from(
    lines: Seq<Seq<char>>,
    i: int,
    base: Seq<char>,
    url: Seq<char>,
    kid: Seq<char>,
    prefix: Seq<char>,
) -> (Seq<char>, Seq<char>, Seq<char>)
    decreases lines.len() - i,
{
    if i < 0 || i >= lines.len() {
        (url, kid, prefix)
    } else {
        let line = lines[i];
        let (kid1, prefix1) = if crate::text::contains_seq(line, "#EXT-X-KEY"@) {
            match quoted_attr_spec(line, "URI"@) {
                Some(uri) => match crate::text::split_once_spec(uri, ',') {
                    Some((p, k)) => (k, p),
                    None => (kid, prefix),
                },
                None => (kid, prefix),
            }
        } else {
            (kid, prefix)
        };
        let url1 = if crate::text::contains_seq(line, "#EXT-X-MAP"@) {
            match quoted_attr_spec(line, "URI"@) {
                Some(uri) => crate::apple::absolute_url_spec(base, uri),
                None => url,
            }
        } else {
            url
        };
        let url2 = if media_file_line(line) && url1.len() == 0 {
            crate::apple::absolute_url_spec(base, line)
        } else {
            url1
        };
        widevine_from(lines, i + 1, base, url2, kid1, prefix1)
    }
}

/// The Widevine media of a playlist: its media address, the key text and
/// the 16 bytes it decodes to, and the key address prefix; an error without
/// a media address, when the key does not decode, or when it is not 16
/// bytes.
pub open spec fn widevine_spec(m3u8_url: Seq<char>, content: Seq<char>) -> Result<
    (Seq<char>, Seq<char>, Seq<u8>, Seq<char>),
    Seq<char>,
> {
    let (url, kid, prefix) = widevine_from(
        hls_lines(content),
        0,
        m3u8_url,
        Seq::empty(),
        Seq::empty(),
        Seq::empty(),
    );
    if url.len() == 0 {
        Err("Apple Music Widevine playlist 缺少 MP4 URL"@)
    } else {
        match base64_decoded(kid) {
            Err(e) => Err("Apple Music Widevine KID 解码失败："@ + e),
            Ok(bytes) => if bytes.len() != 16 {
                Err("Apple Music Widevine KID 长度错误"@)
            } else {
                Ok((url, kid, bytes, prefix))
            },
        }
    }
}

pub fn parse_widevine_hls(m3u8_url: &str, content: &str) -> (r: Result<WidevineHlsMedia, BotError>)
    ensures
        match widevine_spec(m3u8_url@, content@) {
            Ok((url, kid, bytes, prefix)) => r matches Ok(m) && m.mp4_url@ == url && m.kid_b64@ == kid
                && m.kid@ == bytes && m.uri_prefix@ == prefix,
            Err(e) => r matches Err(BotError::Custom(t)) && t@ == e,
        },
{
    let lines = trimmed_lines(content);
    let ghost ls = crate::text::vec_views(lines@);
    let mut mp4_url = String::new();
    let mut kid_b64: Vec<char> = Vec::new();
    let mut uri_prefix: Vec<char> = Vec::new();
    let mut i: usize = 0;
    proof {
        assert(kid_b64@ =~= Seq::<char>::empty());
        assert(uri_prefix@ =~= Seq::<char>::empty());
    }
    while i < lines.len()
        invariant
            ls == crate::text::vec_views(lines@),
            ls == hls_lines(content@),
            i <= lines.len(),
            widevine_from(ls, i as int, m3u8_url@, mp4_url@, kid_b64@, uri_prefix@) == widevine_from(
                ls,
                0,
                m3u8_url@,
                Seq::empty(),
                Seq::empty(),
                Seq::empty(),
            ),
        decreases lines.len() - i,
    {
        let line = &lines[i];
        proof {
            assert(ls[i as int] == line@);
        }
        if crate::text::contains_str(line, "#EXT-X-KEY") {
            match quoted_attr_chars(line, "URI") {
                Some(uri) => match crate::text::split_once(&uri, ',') {
                    Some((p, k)) => {
                        uri_prefix = p;
                        kid_b64 = k;
                    },
                    None => {},
                },
                None => {},
            }
        }
        if crate::text::contains_str(line, "#EXT-X-MAP") {
            match quoted_attr_chars(line, "URI") {
                Some(uri) => {
                    let u = string_of(&uri);
                    mp4_url = crate::apple::absolute_hls_url(m3u8_url, u.as_str());
                },
                None => {},
            }
        }
        if line.len() > 0 && line[0] != '#' && (crate::text::ends_with_str(line, ".mp4")
            || crate::text::ends_with_str(line, ".m4a") || crate::text::ends_with_str(line, ".m4s"))
            && mp4_url.as_str().unicode_len() == 0 {
            let l = string_of(line);
            mp4_url = crate::apple::absolute_hls_url(m3u8_url, l.as_str());
        }
        i = i + 1;
    }
    if mp4_url.as_str().unicode_len() == 0 {
        return Err(BotError::Custom(String::from_str("Apple Music Widevine playlist 缺少 MP4 URL")));
    }
    let kid_text = string_of(&kid_b64);
    let kid_vec = match base64_decode(kid_text.as_str()) {
        Ok(v) => v,
        Err(e) => {
            let mut m = String::from_str("Apple Music Widevine KID 解码失败：");
            crate::text::push_str(&mut m, e.as_str());
            return Err(BotError::Custom(m));
        },
    };
    if kid_vec.len() != 16 {
        return Err(BotError::Custom(String::from_str("Apple Music Widevine KID 长度错误")));
    }
    let mut kid = [0u8; 16];
    let mut j: usize = 0;
    while j < 16
        invariant
            j <= 16,
            kid_vec@.len() == 16,
            forall|t: int| 0 <= t < j ==> kid@[t] == kid_vec@[t],
        decreases 16 - j,
    {
        kid.set(j, kid_vec[j]);
        j = j + 1;
    }
    proof {
        assert(kid@ =~= kid_vec@);
    }
    Ok(WidevineHlsMedia { mp4_url, kid_b64: kid_text, kid, uri_prefix: string_of(&uri_prefix) })
}

} // verus!
