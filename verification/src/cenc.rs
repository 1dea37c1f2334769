//! Common-encryption (`cenc`) samples of a fragmented MP4 decrypted with
//! AES-128 in counter mode: the IV of each sample, the protected ranges of
//! its subsamples, and the samples of a track run in place.
use vstd::prelude::*;
use ctr::cipher::{KeyIvInit, StreamCipher};
use crate::error::BotError;
use crate::mp4::{custom, TrunSampleInfo};
use crate::num::{int_text, push_i64};
use crate::text::{extend_str, str_eq, string_of, views};

verus! {

/// What AES-128 in counter mode (128-bit big-endian counter) gives for the
/// data under a 16-byte key and IV: the data XOR-ed with the keystream.
pub uninterp spec fn aes128_ctr_xor(key: Seq<u8>, iv: Seq<u8>, data: Seq<u8>) -> Seq<u8>;

/// `ctr::Ctr128BE::<aes::Aes128>::new_from_slices` then `apply_keystream`
/// over a copy of the data: the data XOR-ed with the keystream (as long as
/// the data, the keystream being applied in place), or the text of the
/// `InvalidLength` error (`Invalid Length`) for a key or IV that is not 16
/// bytes.
#[verifier::external_body]
fn aes128_ctr_apply(key: &[u8], iv: &[u8], data: &[u8]) -> (r: Result<Vec<u8>, String>)
    ensures
        match r {
            Ok(v) => key@.len() == 16 && iv@.len() == 16 && v@ == aes128_ctr_xor(key@, iv@, data@)
                && v@.len() == data@.len(),
            Err(e) => !(key@.len() == 16 && iv@.len() == 16) && e@ == "Invalid Length"@,
        },
{
    match ctr::Ctr128BE::<aes::Aes128>::new_from_slices(key, iv) {
        Ok(mut cipher) => {
            let mut buf = data.to_vec();
            cipher.apply_keystream(&mut buf);
            Ok(buf)
        },
        Err(e) => Err(e.to_string()),
    }
}

/// An error whose text is the prefix followed by the detail.
pub fn custom_with(prefix: &str, detail: &String) -> (e: BotError)
    ensures
        e matches BotError::Custom(m) && m@ == prefix@ + detail@,
{
    let mut m = String::from_str(prefix);
    crate::text::push_str(&mut m, detail.as_str());
    BotError::Custom(m)
}

/// A subsample: clear bytes, then protected bytes.
#[derive(Clone, Copy, Debug, PartialEq, Eq)]
pub struct Subsample {
    pub clear: u32,
    pub protected: u32,
}

pub open spec fn subsample_views(s: Seq<Subsample>) -> Seq<(u32, u32)> {
    s.map_values(|x: Subsample| (x.clear, x.protected))
}

/// The protected ranges of a sample of `len` bytes from `pos`: each
/// subsample's clear bytes skipped, its protected bytes taken; nothing
/// when a protected range ends past the sample.
pub open spec fn protected_ranges(subs: Seq<(u32, u32)>, pos: int, len: int) -> Option<Seq<(int, int)>>
    decreases subs.len(),
{
    if subs.len() == 0 {
        Some(Seq::empty())
    } else {
        let a = pos + subs[0].0;
        let b = a + subs[0].1;
        if b > len {
            None
        } else {
            match protected_ranges(subs.drop_first(), b, len) {
                Some(rest) => Some(seq![(a, b)] + rest),
                None => None,
            }
        }
    }
}

/// The bytes of the ranges, joined.
pub open spec fn gather(s: Seq<u8>, ranges: Seq<(int, int)>) -> Seq<u8>
    decreases ranges.len(),
{
    if ranges.len() == 0 {
        Seq::empty()
    } else {
        s.subrange(ranges[0].0, ranges[0].1) + gather(s, ranges.drop_first())
    }
}

/// The sample from `p` with each range replaced by the next bytes of `x`.
pub open spec fn weave(s: Seq<u8>, ranges: Seq<(int, int)>, x: Seq<u8>, p: int) -> Seq<u8>
    decreases ranges.len(),
{
    if ranges.len() == 0 {
        s.subrange(p, s.len() as int)
    } else {
        let (a, b) = ranges[0];
        s.subrange(p, a) + x.take(b - a) + weave(s, ranges.drop_first(), x.skip(b - a), b)
    }
}

/// The ranges run forward from `p` and stay within the sample.
pub open spec fn ranges_ok(ranges: Seq<(int, int)>, p: int, len: int) -> bool
    decreases ranges.len(),
{
    if ranges.len() == 0 {
        0 <= p <= len
    } else {
        0 <= p <= ranges[0].0 <= ranges[0].1 <= len && ranges_ok(ranges.drop_first(), ranges[0].1, len)
    }
}

proof fn lemma_ranges_ok(subs: Seq<(u32, u32)>, pos: int, len: int)
    requires
        0 <= pos <= len,
        protected_ranges(subs, pos, len) is Some,
    ensures
        ranges_ok(protected_ranges(subs, pos, len).unwrap(), pos, len),
    decreases subs.len(),
{
    if subs.len() > 0 {
        let b = pos + subs[0].0 + subs[0].1;
        lemma_ranges_ok(subs.drop_first(), b, len);
        assert((seq![(pos + subs[0].0, b)] + protected_ranges(subs.drop_first(), b, len).unwrap()).drop_first()
            =~= protected_ranges(subs.drop_first(), b, len).unwrap());
    }
}

proof fn lemma_gather_len(s: Seq<u8>, ranges: Seq<(int, int)>, p: int)
    requires
        ranges_ok(ranges, p, s.len() as int),
    ensures
        gather(s, ranges).len() <= s.len() - p,
    decreases ranges.len(),
{
    if ranges.len() > 0 {
        lemma_gather_len(s, ranges.drop_first(), ranges[0].1);
    }
}

proof fn lemma_weave_len(s: Seq<u8>, ranges: Seq<(int, int)>, x: Seq<u8>, p: int)
    requires
        ranges_ok(ranges, p, s.len() as int),
        x.len() == gather(s, ranges).len(),
    ensures
        weave(s, ranges, x, p).len() == s.len() - p,
    decreases ranges.len(),
{
    if ranges.len() > 0 {
        let (a, b) = ranges[0];
        lemma_weave_len(s, ranges.drop_first(), x.skip(b - a), b);
    }
}

/// A sample decrypted: refused for a key that is not 16 bytes; the whole
/// sample through the keystream without subsamples; else its protected
/// ranges (refused when one ends past the sample) through one keystream
/// that runs on from range to range, the clear bytes kept.
pub open spec fn cenc_sample_spec(sample: Seq<u8>, subs: Seq<(u32, u32)>, key: Seq<u8>, iv: Seq<u8>) -> Result<
    Seq<u8>,
    Seq<char>,
> {
    if !(key.len() == 16 && iv.len() == 16) {
        Err("Apple Music Widevine AES-CTR 初始化失败："@ + "Invalid Length"@)
    } else if subs.len() == 0 {
        Ok(aes128_ctr_xor(key, iv, sample))
    } else {
        match protected_ranges(subs, 0, sample.len() as int) {
            None => Err("MP4 subsample protected range 超出 sample"@),
            Some(rs) => Ok(weave(sample, rs, aes128_ctr_xor(key, iv, gather(sample, rs)), 0)),
        }
    }
}

pub(crate) fn range_bytes(v: &[u8], a: usize, b: usize, out: &mut Vec<u8>)
    requires
        a <= b <= v@.len(),
    ensures
        final(out)@ == old(out)@ + v@.subrange(a as int, b as int),
{
    let mut i = a;
    while i < b
        invariant
            a <= i <= b,
            b <= v@.len(),
            out@ == old(out)@ + v@.subrange(a as int, i as int),
        decreases b - i,
    {
        out.push(v[i]);
        i = i + 1;
        proof {
            assert(out@ =~= old(out)@ + v@.subrange(a as int, i as int));
        }
    }
}

/// The protected ranges of a sample, found by walking its subsamples in
/// order.
fn ranges_of(len: usize, subsamples: &[Subsample]) -> (r: Option<Vec<(usize, usize)>>)
    ensures
        match protected_ranges(subsample_views(subsamples@), 0, len as int) {
            Some(rs) => r matches Some(v) && v@.map_values(|x: (usize, usize)| (x.0 as int, x.1 as int)) == rs,
            None => r is None,
        },
{
    let ghost subs = subsample_views(subsamples@);
    let mut out: Vec<(usize, usize)> = Vec::new();
    let mut pos: usize = 0;
    let mut i: usize = 0;
    proof {
        assert(subs.skip(0) =~= subs);
    }
    while i < subsamples.len()
        invariant
            i <= subsamples.len(),
            pos <= len,
            subs == subsample_views(subsamples@),
            protected_ranges(subs, 0, len as int) == match protected_ranges(subs.skip(i as int), pos as int, len as int) {
                Some(rest) => Some(out@.map_values(|x: (usize, usize)| (x.0 as int, x.1 as int)) + rest),
                None => None,
            },
        decreases subsamples.len() - i,
    {
        let ghost o0 = out@.map_values(|x: (usize, usize)| (x.0 as int, x.1 as int));
        proof {
            assert(subs.skip(i as int)[0] == (subsamples@[i as int].clear, subsamples@[i as int].protected));
            assert(subs.skip(i as int).drop_first() =~= subs.skip(i + 1));
        }
        let c = subsamples[i].clear as usize;
        let p = subsamples[i].protected as usize;
        if c > len - pos || p > len - pos - c {
            return None;
        }
        let a = pos + c;
        let b = a + p;
        out.push((a, b));
        proof {
            assert(out@.map_values(|x: (usize, usize)| (x.0 as int, x.1 as int)) =~= o0.push((a as int, b as int)));
            match protected_ranges(subs.skip(i + 1), b as int, len as int) {
                Some(rest) => {
                    assert(o0 + (seq![(a as int, b as int)] + rest) =~= o0.push((a as int, b as int)) + rest);
                },
                None => {},
            }
        }
        pos = b;
        i = i + 1;
    }
    proof {
        assert(subs.skip(i as int) =~= Seq::<(u32, u32)>::empty());
        assert(out@.map_values(|x: (usize, usize)| (x.0 as int, x.1 as int)) + Seq::<(int, int)>::empty()
            =~= out@.map_values(|x: (usize, usize)| (x.0 as int, x.1 as int)));
    }
    Some(out)
}

pub fn decrypt_cenc_sample(sample: &[u8], subsamples: &[Subsample], key: &[u8], iv: &[u8; 16]) -> (r:
    Result<Vec<u8>, BotError>)
    ensures
        match cenc_sample_spec(sample@, subsample_views(subsamples@), key@, iv@) {
            Ok(v) => r matches Ok(x) && x@ == v,
            Err(m) => r matches Err(BotError::Custom(e)) && e@ == m,
        },
        r matches Ok(x) ==> x@.len() == sample@.len(),
{
    let ivs = iv.as_slice();
    if key.len() != 16 {
        let e = aes128_ctr_apply(key, ivs, sample);
        let mut m = String::from_str("Apple Music Widevine AES-CTR 初始化失败：");
        match e {
            Err(t) => {
                crate::text::push_str(&mut m, t.as_str());
            },
            Ok(_) => {},
        }
        return Err(BotError::Custom(m));
    }
    if subsamples.len() == 0 {
        return match aes128_ctr_apply(key, ivs, sample) {
            Ok(v) => Ok(v),
            Err(_) => Err(custom("Apple Music Widevine AES-CTR 初始化失败：Invalid Length")),
        };
    }
    let ranges = match ranges_of(sample.len(), subsamples) {
        Some(r) => r,
        None => {
            return Err(custom("MP4 subsample protected range 超出 sample"));
        },
    };
    let ghost rs = ranges@.map_values(|x: (usize, usize)| (x.0 as int, x.1 as int));
    proof {
        lemma_ranges_ok(subsample_views(subsamples@), 0, sample@.len() as int);
    }
    let mut joined: Vec<u8> = Vec::new();
    let mut k: usize = 0;
    let ghost mut q: int = 0;
    proof {
        assert(rs.skip(0) =~= rs);
        assert(joined@ + gather(sample@, rs) =~= gather(sample@, rs));
    }
    while k < ranges.len()
        invariant
            k <= ranges.len(),
            rs == ranges@.map_values(|x: (usize, usize)| (x.0 as int, x.1 as int)),
            ranges_ok(rs, 0, sample@.len() as int),
            ranges_ok(rs.skip(k as int), q, sample@.len() as int),
            gather(sample@, rs) == joined@ + gather(sample@, rs.skip(k as int)),
        decreases ranges.len() - k,
    {
        let (a, b) = ranges[k];
        proof {
            assert(rs.skip(k as int)[0] == (a as int, b as int));
            assert(rs.skip(k as int).drop_first() =~= rs.skip(k + 1));
        }
        let ghost j0 = joined@;
        range_bytes(sample, a, b, &mut joined);
        proof {
            assert(j0 + (sample@.subrange(a as int, b as int) + gather(sample@, rs.skip(k + 1)))
                =~= joined@ + gather(sample@, rs.skip(k + 1)));
            q = b as int;
        }
        k = k + 1;
    }
    proof {
        assert(rs.skip(k as int) =~= Seq::<(int, int)>::empty());
        assert(joined@ + Seq::<u8>::empty() =~= joined@);
    }
    let xs = match aes128_ctr_apply(key, ivs, &joined) {
        Ok(v) => v,
        Err(_) => {
            return Err(custom("Apple Music Widevine AES-CTR 初始化失败：Invalid Length"));
        },
    };
    let xl = xs.len();
    let mut out: Vec<u8> = Vec::new();
    let mut p: usize = 0;
    let mut off: usize = 0;
    let mut i: usize = 0;
    proof {
        assert(rs.skip(0) =~= rs);
        assert(xs@.skip(0) =~= xs@);
    }
    while i < ranges.len()
        invariant
            i <= ranges.len(),
            rs == ranges@.map_values(|x: (usize, usize)| (x.0 as int, x.1 as int)),
            ranges_ok(rs.skip(i as int), p as int, sample@.len() as int),
            off <= xs@.len(),
            xs@.len() == xl,
            xs@.len() == gather(sample@, rs).len(),
            gather(sample@, rs.skip(i as int)).len() == xs@.len() - off,
            weave(sample@, rs, xs@, 0) == out@ + weave(sample@, rs.skip(i as int), xs@.skip(off as int), p as int),
        decreases ranges.len() - i,
    {
        let (a, b) = ranges[i];
        proof {
            assert(rs.skip(i as int)[0] == (a as int, b as int));
            assert(rs.skip(i as int).drop_first() =~= rs.skip(i + 1));
        }
        let ghost o0 = out@;
        proof {
            assert(gather(sample@, rs.skip(i as int)).len() == (b - a) + gather(sample@, rs.skip(i + 1)).len());
        }
        range_bytes(sample, p, a, &mut out);
        range_bytes(&xs, off, off + (b - a), &mut out);
        proof {
            let xr = xs@.skip(off as int);
            assert(xr.take(b - a) =~= xs@.subrange(off as int, off + (b - a)));
            assert(xr.skip(b - a) =~= xs@.skip(off + (b - a)));
            assert(o0 + (sample@.subrange(p as int, a as int) + xr.take(b - a) + weave(sample@, rs.skip(i + 1), xr.skip(b - a), b as int))
                =~= out@ + weave(sample@, rs.skip(i + 1), xs@.skip(off + (b - a)), b as int));
        }
        off = off + (b - a);
        p = b;
        i = i + 1;
    }
    range_bytes(sample, p, sample.len(), &mut out);
    proof {
        assert(rs.skip(i as int) =~= Seq::<(int, int)>::empty());
        lemma_weave_len(sample@, rs, xs@, 0);
    }
    Ok(out)
}


/// The encryption defaults of a track (its `tenc` box).
#[derive(Clone, Debug, Default)]
pub struct TencInfo {
    pub default_per_sample_iv_size: u8,
    pub default_constant_iv: Option<Vec<u8>>,
    pub default_crypt_byte_block: u8,
    pub default_skip_byte_block: u8,
}

/// The encryption of one sample (an entry of a `senc` box).
#[derive(Clone, Debug, Default)]
pub struct SencSample {
    pub iv: Vec<u8>,
    pub subsamples: Vec<Subsample>,
}

/// A sample's encryption as plain values: its IV and its subsamples.
pub open spec fn senc_view(s: SencSample) -> (Seq<u8>, Seq<(u32, u32)>) {
    (s.iv@, subsample_views(s.subsamples@))
}

/// The encryption defaults as plain values: the per-sample IV size, the
/// constant IV, the encrypted and skipped block counts of the pattern.
pub open spec fn tenc_view(t: TencInfo) -> (u8, Option<Seq<u8>>, u8, u8) {
    (
        t.default_per_sample_iv_size,
        opt_bytes(t.default_constant_iv),
        t.default_crypt_byte_block,
        t.default_skip_byte_block,
    )
}

pub open spec fn opt_bytes(o: Option<Vec<u8>>) -> Option<Seq<u8>> {
    match o {
        Some(v) => Some(v@),
        None => None,
    }
}

/// The IV of a sample: its own when it has one, else the track's constant
/// IV; eight bytes are padded with zeros to sixteen; any other length, or
/// no IV, is refused.
pub open spec fn iv_spec(sample: Option<(Seq<u8>, Seq<(u32, u32)>)>, tenc: (u8, Option<Seq<u8>>, u8, u8)) -> Result<Seq<u8>, Seq<char>> {
    let chosen = match sample {
        Some(s) => if s.0.len() > 0 {
            Some(s.0)
        } else {
            tenc.1
        },
        None => tenc.1,
    };
    match chosen {
        None => Err("Apple Music Widevine sample IV 缺失"@),
        Some(v) => if v.len() == 8 {
            Ok(v + seq![0u8, 0, 0, 0, 0, 0, 0, 0])
        } else if v.len() == 16 {
            Ok(v)
        } else {
            Err("Apple Music Widevine sample IV 长度错误："@ + int_text(v.len() as int))
        },
    }
}

pub fn cenc_sample_iv(sample: Option<&SencSample>, tenc: &TencInfo) -> (r: Result<[u8; 16], BotError>)
    ensures
        match iv_spec(
            match sample {
                Some(s) => Some(senc_view(*s)),
                None => None,
            },
            tenc_view(*tenc),
        ) {
            Ok(v) => r matches Ok(x) && x@ == v,
            Err(m) => r matches Err(BotError::Custom(e)) && e@ == m,
        },
{
    let own: Option<&Vec<u8>> = match sample {
        Some(s) => if s.iv.len() > 0 {
            Some(&s.iv)
        } else {
            None
        },
        None => None,
    };
    let iv: &Vec<u8> = match own {
        Some(v) => v,
        None => match &tenc.default_constant_iv {
            Some(v) => v,
            None => {
                return Err(custom("Apple Music Widevine sample IV 缺失"));
            },
        },
    };
    proof {
        let chosen = match sample {
            Some(s) => if s.iv@.len() > 0 {
                Some(s.iv@)
            } else {
                opt_bytes(tenc.default_constant_iv)
            },
            None => opt_bytes(tenc.default_constant_iv),
        };
        assert(chosen == Some(iv@));
    }
    let mut out = [0u8; 16];
    assert(forall|j: int| 0 <= j < 16 ==> out@[j] == 0);
    if iv.len() == 8 {
        let mut i: usize = 0;
        while i < 8
            invariant
                i <= 8,
                iv@.len() == 8,
                forall|j: int| 0 <= j < i ==> out@[j] == iv@[j],
                forall|j: int| 8 <= j < 16 ==> out@[j] == 0,
            decreases 8 - i,
        {
            out.set(i, iv[i]);
            i = i + 1;
        }
        proof {
            assert(out@ =~= iv@ + seq![0u8, 0, 0, 0, 0, 0, 0, 0]);
        }
        Ok(out)
    } else if iv.len() == 16 {
        let mut i: usize = 0;
        while i < 16
            invariant
                i <= 16,
                iv@.len() == 16,
                forall|j: int| 0 <= j < i ==> out@[j] == iv@[j],
            decreases 16 - i,
        {
            out.set(i, iv[i]);
            i = i + 1;
        }
        proof {
            assert(out@ =~= iv@);
        }
        Ok(out)
    } else {
        let mut m: Vec<char> = crate::text::chars_of("Apple Music Widevine sample IV 长度错误：");
        crate::num::push_digits(&mut m, iv.len() as u64);
        Err(BotError::Custom(string_of(&m)))
    }
}

/// The encryption of the `k`-th sample, when the `senc` box lists it.
pub open spec fn senc_at(senc: Option<Seq<(Seq<u8>, Seq<(u32, u32)>)>>, k: int) -> Option<(Seq<u8>, Seq<(u32, u32)>)> {
    match senc {
        Some(v) => if 0 <= k < v.len() {
            Some(v[k])
        } else {
            None
        },
        None => None,
    }
}

pub open spec fn subs_of(s: Option<(Seq<u8>, Seq<(u32, u32)>)>) -> Seq<(u32, u32)> {
    match s {
        Some(x) => x.1,
        None => Seq::empty(),
    }
}

/// The samples of a run decrypted in place, one after another from `pos`:
/// refused when a sample ends past the data, or when its IV or its
/// decryption is refused.
pub open spec fn samples_spec(
    data: Seq<u8>,
    pos: int,
    samples: Seq<TrunSampleInfo>,
    senc: Option<Seq<(Seq<u8>, Seq<(u32, u32)>)>>,
    tenc: (u8, Option<Seq<u8>>, u8, u8),
    key: Seq<u8>,
    k: int,
) -> Result<Seq<u8>, Seq<char>>
    decreases samples.len() - k,
{
    if k < 0 || k >= samples.len() {
        Ok(data)
    } else {
        let end = pos + samples[k].size;
        if end > data.len() || pos < 0 {
            Err("MP4 sample 超出文件范围"@)
        } else {
            match iv_spec(senc_at(senc, k), tenc) {
                Err(m) => Err(m),
                Ok(iv) => match cenc_sample_spec(data.subrange(pos, end), subs_of(senc_at(senc, k)), key, iv) {
                    Err(m) => Err(m),
                    Ok(dec) => samples_spec(
                        data.take(pos) + dec + data.skip(end),
                        end,
                        samples,
                        senc,
                        tenc,
                        key,
                        k + 1,
                    ),
                },
            }
        }
    }
}

pub open spec fn senc_views(v: Seq<SencSample>) -> Seq<(Seq<u8>, Seq<(u32, u32)>)> {
    v.map_values(|s: SencSample| senc_view(s))
}

pub open spec fn opt_senc(senc: Option<&Vec<SencSample>>) -> Option<Seq<(Seq<u8>, Seq<(u32, u32)>)>> {
    match senc {
        Some(v) => Some(senc_views(v@)),
        None => None,
    }
}

pub fn decrypt_cenc_samples(
    data: &mut Vec<u8>,
    sample_start: usize,
    samples: &[TrunSampleInfo],
    senc: Option<&Vec<SencSample>>,
    tenc: &TencInfo,
    key: &[u8],
) -> (r: Result<(), BotError>)
    ensures
        match samples_spec(old(data)@, sample_start as int, samples@, opt_senc(senc), tenc_view(*tenc), key@, 0) {
            Ok(d) => r is Ok && final(data)@ == d,
            Err(m) => r matches Err(BotError::Custom(e)) && e@ == m,
        },
        final(data)@.len() == old(data)@.len(),
{
    let ghost goal = samples_spec(old(data)@, sample_start as int, samples@, opt_senc(senc), tenc_view(*tenc), key@, 0);
    let mut pos = sample_start;
    let mut k: usize = 0;
    while k < samples.len()
        invariant
            k <= samples.len(),
            goal == samples_spec(old(data)@, sample_start as int, samples@, opt_senc(senc), tenc_view(*tenc), key@, 0),
            goal == samples_spec(data@, pos as int, samples@, opt_senc(senc), tenc_view(*tenc), key@, k as int),
            data@.len() == old(data)@.len(),
        decreases samples.len() - k,
    {
        let size = samples[k].size as usize;
        if size > data.len() || pos > data.len() - size {
            proof {
                assert(pos + samples@[k as int].size > data@.len());
                assert(samples_spec(data@, pos as int, samples@, opt_senc(senc), tenc_view(*tenc), key@, k as int)
                    == Err::<Seq<u8>, Seq<char>>("MP4 sample 超出文件范围"@));
            }
            return Err(custom("MP4 sample 超出文件范围"));
        }
        let end = pos + size;
        let entry: Option<&SencSample> = match senc {
            Some(v) => if k < v.len() {
                Some(&v[k])
            } else {
                None
            },
            None => None,
        };
        proof {
            assert(senc_at(opt_senc(senc), k as int) == match entry {
                Some(e) => Some(senc_view(*e)),
                None => None::<(Seq<u8>, Seq<(u32, u32)>)>,
            });
        }
        let iv = match cenc_sample_iv(entry, tenc) {
            Err(e) => {
                return Err(e);
            },
            Ok(iv) => iv,
        };
        let empty: Vec<Subsample> = Vec::new();
        let subs: &Vec<Subsample> = match entry {
            Some(e) => &e.subsamples,
            None => &empty,
        };
        proof {
            assert(subsample_views(subs@) =~= subs_of(senc_at(opt_senc(senc), k as int)));
        }
        let mut piece: Vec<u8> = Vec::new();
        range_bytes(data.as_slice(), pos, end, &mut piece);
        proof {
            assert(piece@ =~= data@.subrange(pos as int, end as int));
        }
        let dec = match decrypt_cenc_sample(&piece, subs.as_slice(), key, &iv) {
            Err(e) => {
                return Err(e);
            },
            Ok(d) => d,
        };
        let ghost d0 = data@;
        let mut j: usize = 0;
        while j < dec.len()
            invariant
                j <= dec.len(),
                dec@.len() == end - pos,
                end <= d0.len(),
                data@.len() == d0.len(),
                forall|t: int| 0 <= t < pos ==> data@[t] == d0[t],
                forall|t: int| pos + j <= t < d0.len() ==> data@[t] == d0[t],
                forall|t: int| 0 <= t < j ==> data@[pos + t] == dec@[t],
            decreases dec.len() - j,
        {
            data.set(pos + j, dec[j]);
            j = j + 1;
        }
        proof {
            assert(data@ =~= d0.take(pos as int) + dec@ + d0.skip(end as int));
        }
        pos = end;
        k = k + 1;
    }
    Ok(())
}


/// The ranges of a pattern-encrypted region of `size` bytes from `pos`:
/// `crypt` encrypted bytes, then `skip` clear ones, while a whole
/// encrypted block remains; the walk stops where fewer than `skip` bytes
/// follow a block.
pub open spec fn pattern_from(size: int, crypt: int, skip: int, pos: int) -> Seq<(int, int)>
    decreases size - pos,
{
    let room = if size > pos {
        size - pos
    } else {
        0
    };
    if skip <= 0 || crypt < 0 || pos < 0 || room < crypt {
        Seq::empty()
    } else {
        let p2 = pos + crypt;
        let room2 = if size > p2 {
            size - p2
        } else {
            0
        };
        if room2 < skip {
            seq![(pos, p2)]
        } else {
            seq![(pos, p2)] + pattern_from(size, crypt, skip, p2 + skip)
        }
    }
}

pub open spec fn shifted(rs: Seq<(int, int)>, start: int) -> Seq<(int, int)> {
    rs.map_values(|r: (int, int)| (r.0 + start, r.1 + start))
}

pub open spec fn ranges_total(rs: Seq<(int, int)>) -> int
    decreases rs.len(),
{
    if rs.len() == 0 {
        0
    } else {
        (rs[0].1 - rs[0].0) + ranges_total(rs.drop_first())
    }
}

/// Bytes of the data handed to the decryptor: the payload (the ranges'
/// bytes joined) and the ranges it came from.
#[derive(Clone, Debug)]
pub struct DecryptJob {
    pub payload: Vec<u8>,
    pub ranges: Vec<(usize, usize)>,
}

pub open spec fn job_view(j: DecryptJob) -> (Seq<u8>, Seq<(int, int)>) {
    (j.payload@, j.ranges@.map_values(|x: (usize, usize)| (x.0 as int, x.1 as int)))
}

/// The decryption job of a region of `size` bytes at `start`: without a
/// skip pattern, its whole 16-byte blocks; else its pattern ranges; none
/// when that leaves nothing; refused when a range ends past the data.
pub open spec fn raw_job_spec(data: Seq<u8>, start: int, size: int, crypt_blocks: u8, skip_blocks: u8) -> Result<
    Option<(Seq<u8>, Seq<(int, int)>)>,
    Seq<char>,
> {
    let crypt = crypt_blocks * 16;
    let skip = skip_blocks * 16;
    if skip == 0 {
        let len = size - size % 16;
        if len == 0 {
            Ok(None)
        } else if start + len > data.len() {
            Err("MP4 decrypt range 超出文件范围"@)
        } else {
            Ok(Some((data.subrange(start, start + len), seq![(start, start + len)])))
        }
    } else if size < crypt {
        Ok(None)
    } else {
        let rs = shifted(pattern_from(size, crypt, skip, 0), start);
        if ranges_total(rs) == 0 {
            Ok(None)
        } else if exists|i: int| 0 <= i < rs.len() && #[trigger] rs[i].1 > data.len() {
            Err("MP4 decrypt range 超出文件范围"@)
        } else {
            Ok(Some((gather(data, rs), rs)))
        }
    }
}

pub fn collect_wrapper_decrypt_raw_job(data: &[u8], start: usize, size: usize, tenc: &TencInfo) -> (r:
    Result<Option<DecryptJob>, BotError>)
    requires
        start + size <= usize::MAX,
    ensures
        match raw_job_spec(data@, start as int, size as int, tenc.default_crypt_byte_block, tenc.default_skip_byte_block) {
            Ok(None) => r matches Ok(None),
            Ok(Some(v)) => r matches Ok(Some(j)) && job_view(j) == v,
            Err(m) => r matches Err(BotError::Custom(e)) && e@ == m,
        },
{
    let crypt: usize = tenc.default_crypt_byte_block as usize * 16;
    let skip: usize = tenc.default_skip_byte_block as usize * 16;
    if skip == 0 {
        let len = size - size % 16;
        if len == 0 {
            return Ok(None);
        }
        if start + len > data.len() {
            return Err(custom("MP4 decrypt range 超出文件范围"));
        }
        let mut payload: Vec<u8> = Vec::new();
        range_bytes(data, start, start + len, &mut payload);
        let mut ranges: Vec<(usize, usize)> = Vec::new();
        ranges.push((start, start + len));
        let j = DecryptJob { payload, ranges };
        proof {
            assert(job_view(j).0 =~= data@.subrange(start as int, start + len));
            assert(job_view(j).1 =~= seq![(start as int, start + len)]);
        }
        return Ok(Some(j));
    }
    if size < crypt {
        return Ok(None);
    }
    let ghost full = pattern_from(size as int, crypt as int, skip as int, 0);
    let mut ranges: Vec<(usize, usize)> = Vec::new();
    let mut pos: usize = 0;
    let mut total: usize = 0;
    let mut done = false;
    while !done
        invariant
            start + size <= usize::MAX,
            skip > 0,
            pos <= size,
            total <= pos,
            full == pattern_from(size as int, crypt as int, skip as int, 0),
            done ==> full == ranges@.map_values(|x: (usize, usize)| (x.0 as int - start, x.1 as int - start)),
            !done ==> full == ranges@.map_values(|x: (usize, usize)| (x.0 as int - start, x.1 as int - start))
                + pattern_from(size as int, crypt as int, skip as int, pos as int),
            total == ranges_total(ranges@.map_values(|x: (usize, usize)| (x.0 as int, x.1 as int))),
            forall|i: int| 0 <= i < ranges@.len() ==> ranges@[i].0 <= ranges@[i].1 <= start + size && ranges@[i].0 >= start,
        decreases size - pos + (if done { 0int } else { 1int }),
    {
        let ghost r0 = ranges@.map_values(|x: (usize, usize)| (x.0 as int - start, x.1 as int - start));
        let ghost t0 = ranges@.map_values(|x: (usize, usize)| (x.0 as int, x.1 as int));
        if size - pos < crypt {
            done = true;
            proof {
                assert(pattern_from(size as int, crypt as int, skip as int, pos as int) =~= Seq::<(int, int)>::empty());
                assert(r0 + Seq::<(int, int)>::empty() =~= r0);
            }
        } else {
            let p2 = pos + crypt;
            ranges.push((start + pos, start + p2));
            total = total + crypt;
            proof {
                assert(ranges@.map_values(|x: (usize, usize)| (x.0 as int - start, x.1 as int - start)) =~= r0.push((pos as int, p2 as int)));
                let t1 = ranges@.map_values(|x: (usize, usize)| (x.0 as int, x.1 as int));
                assert(t1 =~= t0.push(((start + pos) as int, (start + p2) as int)));
                lemma_total_push(t0, ((start + pos) as int, (start + p2) as int));
            }
            if size - p2 < skip {
                done = true;
                proof {
                    assert(r0 + pattern_from(size as int, crypt as int, skip as int, pos as int) =~= r0.push((pos as int, p2 as int)));
                }
                pos = p2;
            } else {
                proof {
                    assert(r0 + pattern_from(size as int, crypt as int, skip as int, pos as int) =~= r0.push((pos as int, p2 as int))
                        + pattern_from(size as int, crypt as int, skip as int, (p2 + skip) as int));
                }
                pos = p2 + skip;
            }
        }
    }
    proof {
        assert(shifted(full, start as int) =~= ranges@.map_values(|x: (usize, usize)| (x.0 as int, x.1 as int)));
    }
    let ghost rs = ranges@.map_values(|x: (usize, usize)| (x.0 as int, x.1 as int));
    if total == 0 {
        return Ok(None);
    }
    let mut payload: Vec<u8> = Vec::new();
    let mut k: usize = 0;
    proof {
        assert(rs.skip(0) =~= rs);
        assert(payload@ + gather(data@, rs) =~= gather(data@, rs));
    }
    while k < ranges.len()
        invariant
            k <= ranges.len(),
            rs == ranges@.map_values(|x: (usize, usize)| (x.0 as int, x.1 as int)),
            rs == shifted(full, start as int),
            full == pattern_from(size as int, crypt as int, skip as int, 0),
            crypt == tenc.default_crypt_byte_block * 16,
            skip == tenc.default_skip_byte_block * 16,
            skip > 0,
            size >= crypt,
            ranges_total(rs) != 0,
            forall|i: int| 0 <= i < ranges@.len() ==> ranges@[i].0 <= ranges@[i].1,
            forall|i: int| 0 <= i < k ==> ranges@[i].1 <= data@.len(),
            gather(data@, rs) == payload@ + gather(data@, rs.skip(k as int)),
        decreases ranges.len() - k,
    {
        let (a, b) = ranges[k];
        if b > data.len() {
            proof {
                assert(rs[k as int].1 > data@.len());
            }
            return Err(custom("MP4 decrypt range 超出文件范围"));
        }
        proof {
            assert(rs.skip(k as int)[0] == (a as int, b as int));
            assert(rs.skip(k as int).drop_first() =~= rs.skip(k + 1));
        }
        let ghost p0 = payload@;
        range_bytes(data, a, b, &mut payload);
        proof {
            assert(p0 + (data@.subrange(a as int, b as int) + gather(data@, rs.skip(k + 1))) =~= payload@ + gather(data@, rs.skip(k + 1)));
        }
        k = k + 1;
    }
    proof {
        assert(rs.skip(k as int) =~= Seq::<(int, int)>::empty());
        assert(payload@ + Seq::<u8>::empty() =~= payload@);
    }
    let j = DecryptJob { payload, ranges };
    Ok(Some(j))
}

proof fn lemma_total_push(rs: Seq<(int, int)>, x: (int, int))
    ensures
        ranges_total(rs.push(x)) == ranges_total(rs) + (x.1 - x.0),
    decreases rs.len(),
{
    if rs.len() > 0 {
        lemma_total_push(rs.drop_first(), x);
        assert(rs.push(x).drop_first() =~= rs.drop_first().push(x));
    } else {
        assert(rs.push(x).drop_first() =~= Seq::<(int, int)>::empty());
        assert(ranges_total(Seq::<(int, int)>::empty()) == 0);
    }
    assert(rs.push(x)[0] == if rs.len() > 0 { rs[0] } else { x });
}


/// A job that may be missing, as a list of none or one.
pub open spec fn opt_jobs(o: Option<(Seq<u8>, Seq<(int, int)>)>) -> Seq<(Seq<u8>, Seq<(int, int)>)> {
    match o {
        Some(j) => seq![j],
        None => Seq::empty(),
    }
}

pub open spec fn opt_job_view(o: Option<DecryptJob>) -> Option<(Seq<u8>, Seq<(int, int)>)> {
    match o {
        Some(j) => Some(job_view(j)),
        None => None,
    }
}

pub open spec fn jobs_view(v: Seq<DecryptJob>) -> Seq<(Seq<u8>, Seq<(int, int)>)> {
    v.map_values(|j: DecryptJob| job_view(j))
}

/// The jobs of the protected ranges of a sample of `size` bytes at `start`,
/// from the subsample at offset `pos` on: each protected range is a region
/// of its own; refused when a range ends past the sample, or when a
/// region's job is refused.
pub open spec fn subsample_jobs(
    data: Seq<u8>,
    start: int,
    size: int,
    subs: Seq<(u32, u32)>,
    pos: int,
    crypt: u8,
    skip: u8,
) -> Result<Seq<(Seq<u8>, Seq<(int, int)>)>, Seq<char>>
    decreases subs.len(),
{
    if subs.len() == 0 {
        Ok(Seq::empty())
    } else {
        let a = pos + subs[0].0;
        let b = a + subs[0].1;
        if b > size {
            Err("MP4 subsample protected range 超出 sample"@)
        } else {
            match raw_job_spec(data, start + a, b - a, crypt, skip) {
                Err(m) => Err(m),
                Ok(o) => match subsample_jobs(data, start, size, subs.drop_first(), b, crypt, skip) {
                    Err(m) => Err(m),
                    Ok(rest) => Ok(opt_jobs(o) + rest),
                },
            }
        }
    }
}

/// The jobs of a sample: the whole sample as one region without
/// subsamples, else each protected range.
pub open spec fn sample_jobs_spec(
    data: Seq<u8>,
    start: int,
    size: int,
    subs: Seq<(u32, u32)>,
    crypt: u8,
    skip: u8,
) -> Result<Seq<(Seq<u8>, Seq<(int, int)>)>, Seq<char>> {
    if subs.len() == 0 {
        match raw_job_spec(data, start, size, crypt, skip) {
            Ok(o) => Ok(opt_jobs(o)),
            Err(m) => Err(m),
        }
    } else {
        subsample_jobs(data, start, size, subs, 0, crypt, skip)
    }
}

fn push_job(jobs: &mut Vec<DecryptJob>, job: Option<DecryptJob>)
    ensures
        jobs_view(final(jobs)@) == jobs_view(old(jobs)@) + opt_jobs(opt_job_view(job)),
{
    match job {
        Some(j) => {
            jobs.push(j);
            proof {
                assert(jobs_view(jobs@) =~= jobs_view(old(jobs)@) + seq![job_view(j)]);
            }
        },
        None => {
            proof {
                assert(jobs_view(jobs@) =~= jobs_view(old(jobs)@) + Seq::empty());
            }
        },
    }
}

/// The decryption jobs of one sample of `sample_size` bytes at
/// `sample_start`.
pub fn collect_wrapper_decrypt_sample_job(
    data: &[u8],
    sample_start: usize,
    sample_size: usize,
    subsamples: &[Subsample],
    tenc: &TencInfo,
) -> (r: Result<Vec<DecryptJob>, BotError>)
    requires
        sample_start + sample_size <= usize::MAX,
    ensures
        match sample_jobs_spec(
            data@,
            sample_start as int,
            sample_size as int,
            subsample_views(subsamples@),
            tenc.default_crypt_byte_block,
            tenc.default_skip_byte_block,
        ) {
            Ok(v) => r matches Ok(js) && jobs_view(js@) == v,
            Err(m) => r matches Err(BotError::Custom(e)) && e@ == m,
        },
{
    let crypt = tenc.default_crypt_byte_block;
    let skip = tenc.default_skip_byte_block;
    let mut jobs: Vec<DecryptJob> = Vec::new();
    if subsamples.len() == 0 {
        let job = match collect_wrapper_decrypt_raw_job(data, sample_start, sample_size, tenc) {
            Err(e) => {
                return Err(e);
            },
            Ok(j) => j,
        };
        push_job(&mut jobs, job);
        proof {
            assert(jobs_view(Seq::<DecryptJob>::empty()) =~= Seq::empty());
        }
        return Ok(jobs);
    }
    let ghost subs = subsample_views(subsamples@);
    let ghost goal = subsample_jobs(data@, sample_start as int, sample_size as int, subs, 0, crypt, skip);
    let mut pos: usize = 0;
    let mut i: usize = 0;
    proof {
        assert(subs.skip(0) =~= subs);
        assert(jobs_view(jobs@) =~= Seq::empty());
    }
    while i < subsamples.len()
        invariant
            i <= subsamples.len(),
            pos <= sample_size,
            sample_start + sample_size <= usize::MAX,
            crypt == tenc.default_crypt_byte_block,
            skip == tenc.default_skip_byte_block,
            subs == subsample_views(subsamples@),
            goal == subsample_jobs(data@, sample_start as int, sample_size as int, subs, 0, crypt, skip),
            goal == match subsample_jobs(data@, sample_start as int, sample_size as int, subs.skip(i as int), pos as int, crypt, skip) {
                Ok(rest) => Ok(jobs_view(jobs@) + rest),
                Err(m) => Err(m),
            },
        decreases subsamples.len() - i,
    {
        let ghost j0 = jobs_view(jobs@);
        proof {
            assert(subs.skip(i as int)[0] == (subsamples@[i as int].clear, subsamples@[i as int].protected));
            assert(subs.skip(i as int).drop_first() =~= subs.skip(i + 1));
        }
        let c = subsamples[i].clear as usize;
        let p = subsamples[i].protected as usize;
        if c > sample_size - pos || p > sample_size - pos - c {
            return Err(custom("MP4 subsample protected range 超出 sample"));
        }
        let a = pos + c;
        let b = a + p;
        let job = match collect_wrapper_decrypt_raw_job(data, sample_start + a, b - a, tenc) {
            Err(e) => {
                return Err(e);
            },
            Ok(j) => j,
        };
        let ghost o = opt_job_view(job);
        push_job(&mut jobs, job);
        proof {
            match subsample_jobs(data@, sample_start as int, sample_size as int, subs.skip(i + 1), b as int, crypt, skip) {
                Ok(rest) => {
                    assert(j0 + (opt_jobs(o) + rest) =~= (j0 + opt_jobs(o)) + rest);
                },
                Err(m) => {},
            }
        }
        pos = b;
        i = i + 1;
    }
    proof {
        assert(subs.skip(i as int) =~= Seq::<(u32, u32)>::empty());
        assert(jobs_view(jobs@) + Seq::empty() =~= jobs_view(jobs@));
    }
    Ok(jobs)
}

/// The decryption jobs of the samples of a run, one after another from
/// `pos`: refused when a sample ends past the data, or when a sample's
/// jobs are refused.
pub open spec fn run_jobs_spec(
    data: Seq<u8>,
    pos: int,
    samples: Seq<TrunSampleInfo>,
    senc: Option<Seq<(Seq<u8>, Seq<(u32, u32)>)>>,
    tenc: (u8, Option<Seq<u8>>, u8, u8),
    k: int,
) -> Result<Seq<(Seq<u8>, Seq<(int, int)>)>, Seq<char>>
    decreases samples.len() - k,
{
    if k < 0 || k >= samples.len() {
        Ok(Seq::empty())
    } else {
        let end = pos + samples[k].size;
        if end > data.len() || pos < 0 {
            Err("MP4 sample 超出文件范围"@)
        } else {
            match sample_jobs_spec(
                data,
                pos,
                samples[k].size as int,
                subs_of(senc_at(senc, k)),
                tenc.2,
                tenc.3,
            ) {
                Err(m) => Err(m),
                Ok(js) => match run_jobs_spec(data, end, samples, senc, tenc, k + 1) {
                    Err(m) => Err(m),
                    Ok(rest) => Ok(js + rest),
                },
            }
        }
    }
}

/// The decryption jobs of the samples of a run that starts at
/// `sample_start`.
pub fn collect_wrapper_decrypt_sample_jobs(
    data: &[u8],
    sample_start: usize,
    samples: &[TrunSampleInfo],
    senc: Option<&Vec<SencSample>>,
    tenc: &TencInfo,
) -> (r: Result<Vec<DecryptJob>, BotError>)
    ensures
        match run_jobs_spec(data@, sample_start as int, samples@, opt_senc(senc), tenc_view(*tenc), 0) {
            Ok(v) => r matches Ok(js) && jobs_view(js@) == v,
            Err(m) => r matches Err(BotError::Custom(e)) && e@ == m,
        },
{
    let ghost goal = run_jobs_spec(data@, sample_start as int, samples@, opt_senc(senc), tenc_view(*tenc), 0);
    let mut jobs: Vec<DecryptJob> = Vec::new();
    let mut pos = sample_start;
    let mut k: usize = 0;
    proof {
        assert(jobs_view(jobs@) =~= Seq::empty());
        match goal {
            Ok(v) => {
                assert(Seq::empty() + v =~= v);
            },
            Err(_) => {},
        }
    }
    while k < samples.len()
        invariant
            k <= samples.len(),
            goal == run_jobs_spec(data@, sample_start as int, samples@, opt_senc(senc), tenc_view(*tenc), 0),
            goal == match run_jobs_spec(data@, pos as int, samples@, opt_senc(senc), tenc_view(*tenc), k as int) {
                Ok(rest) => Ok(jobs_view(jobs@) + rest),
                Err(m) => Err(m),
            },
        decreases samples.len() - k,
    {
        let ghost j0 = jobs_view(jobs@);
        let size = samples[k].size as usize;
        if size > data.len() || pos > data.len() - size {
            return Err(custom("MP4 sample 超出文件范围"));
        }
        let end = pos + size;
        let empty: Vec<Subsample> = Vec::new();
        let subs: &Vec<Subsample> = match senc {
            Some(v) => if k < v.len() {
                &v[k].subsamples
            } else {
                &empty
            },
            None => &empty,
        };
        proof {
            assert(subsample_views(subs@) =~= subs_of(senc_at(opt_senc(senc), k as int)));
        }
        let mine = match collect_wrapper_decrypt_sample_job(data, pos, size, subs.as_slice(), tenc) {
            Err(e) => {
                return Err(e);
            },
            Ok(js) => js,
        };
        let mut mine = mine;
        let ghost m0 = jobs_view(mine@);
        let ghost b0 = jobs@;
        let ghost mv = mine@;
        jobs.append(&mut mine);
        proof {
            assert(jobs_view(b0 + mv) =~= jobs_view(b0) + jobs_view(mv));
            match run_jobs_spec(data@, end as int, samples@, opt_senc(senc), tenc_view(*tenc), k + 1) {
                Ok(rest) => {
                    assert(j0 + (m0 + rest) =~= (j0 + m0) + rest);
                },
                Err(_) => {},
            }
        }
        pos = end;
        k = k + 1;
    }
    Ok(jobs)
}

/// The key URI the wrapper holds for every track (the prefetch key).
pub open spec fn prefetch_key_uri() -> Seq<char> {
    "skd://itunes.apple.com/P000000000/s1/e1"@
}

/// The asset id a segment key is asked under: `0` for the prefetch key,
/// else the track's id.
pub open spec fn key_adam_spec(track_id: Seq<char>, key_uri: Seq<char>) -> Seq<char> {
    if key_uri == prefetch_key_uri() {
        "0"@
    } else {
        track_id
    }
}

pub fn key_adam(track_id: &str, key_uri: &str) -> (r: String)
    ensures
        r@ == key_adam_spec(track_id@, key_uri@),
{
    if str_eq(key_uri, "skd://itunes.apple.com/P000000000/s1/e1") {
        String::from_str("0")
    } else {
        String::from_str(track_id)
    }
}

/// What is sent to the decrypting wrapper: a segment key to switch to, or
/// a job.
#[derive(Clone, Debug)]
pub enum WrapperCommand {
    Key { adam: String, uri: String },
    Job(DecryptJob),
}

pub enum CommandView {
    Key(Seq<char>, Seq<char>),
    Job((Seq<u8>, Seq<(int, int)>)),
}

pub open spec fn command_view(c: WrapperCommand) -> CommandView {
    match c {
        WrapperCommand::Key { adam, uri } => CommandView::Key(adam@, uri@),
        WrapperCommand::Job(j) => CommandView::Job(job_view(j)),
    }
}

pub open spec fn commands_view(v: Seq<WrapperCommand>) -> Seq<CommandView> {
    v.map_values(|c: WrapperCommand| command_view(c))
}

/// The key command of the fragment at `index`: its segment key, asked
/// under `key_adam`; refused when there are fewer segment keys.
pub fn fragment_key(track_id: &str, seg_keys: &[String], index: usize) -> (r: Result<WrapperCommand, BotError>)
    ensures
        index < seg_keys@.len() ==> (r matches Ok(WrapperCommand::Key { adam, uri }) && uri@
            == seg_keys@[index as int]@ && adam@ == key_adam_spec(track_id@, seg_keys@[index as int]@)),
        index >= seg_keys@.len() ==> (r matches Err(BotError::Custom(e)) && e@
            == "Apple Music segment key 数量不足"@),
{
    if index >= seg_keys.len() {
        return Err(custom("Apple Music segment key 数量不足"));
    }
    let uri = &seg_keys[index];
    Ok(WrapperCommand::Key { adam: key_adam(track_id, uri.as_str()), uri: uri.clone() })
}

/// The jobs sent under one segment key.
#[derive(Clone, Debug)]
pub struct FragmentGroup {
    pub adam: String,
    pub uri: String,
    pub jobs: Vec<DecryptJob>,
}

pub open spec fn group_view(g: FragmentGroup) -> (Seq<char>, Seq<char>, Seq<(Seq<u8>, Seq<(int, int)>)>) {
    (g.adam@, g.uri@, jobs_view(g.jobs@))
}

pub open spec fn groups_view(v: Seq<FragmentGroup>) -> Seq<(Seq<char>, Seq<char>, Seq<(Seq<u8>, Seq<(int, int)>)>)> {
    v.map_values(|g: FragmentGroup| group_view(g))
}

pub open spec fn opt_group(
    g: Option<(Seq<char>, Seq<char>, Seq<(Seq<u8>, Seq<(int, int)>)>)>,
) -> Seq<(Seq<char>, Seq<char>, Seq<(Seq<u8>, Seq<(int, int)>)>)> {
    match g {
        Some(x) => seq![x],
        None => Seq::empty(),
    }
}

/// The commands grouped by key, given the group under way: a key closes
/// the group under way and opens one; a job joins the group under way, and
/// is refused when there is none.
pub open spec fn group_from(
    cmds: Seq<CommandView>,
    cur: Option<(Seq<char>, Seq<char>, Seq<(Seq<u8>, Seq<(int, int)>)>)>,
) -> Result<Seq<(Seq<char>, Seq<char>, Seq<(Seq<u8>, Seq<(int, int)>)>)>, Seq<char>>
    decreases cmds.len(),
{
    if cmds.len() == 0 {
        Ok(opt_group(cur))
    } else {
        match cmds[0] {
            CommandView::Key(a, u) => match group_from(cmds.drop_first(), Some((a, u, Seq::empty()))) {
                Ok(rest) => Ok(opt_group(cur) + rest),
                Err(m) => Err(m),
            },
            CommandView::Job(j) => match cur {
                None => Err("Apple Music wrapper fragment 缺少 key"@),
                Some(g) => group_from(cmds.drop_first(), Some((g.0, g.1, g.2.push(j)))),
            },
        }
    }
}

/// The jobs among the commands, in order.
pub open spec fn command_jobs(cmds: Seq<CommandView>) -> Seq<(Seq<u8>, Seq<(int, int)>)>
    decreases cmds.len(),
{
    if cmds.len() == 0 {
        Seq::empty()
    } else {
        match cmds[0] {
            CommandView::Job(j) => seq![j] + command_jobs(cmds.drop_first()),
            CommandView::Key(_, _) => command_jobs(cmds.drop_first()),
        }
    }
}

/// How many key commands there are.
pub open spec fn key_count(cmds: Seq<CommandView>) -> nat
    decreases cmds.len(),
{
    if cmds.len() == 0 {
        0
    } else {
        (if cmds[0] is Key {
            1nat
        } else {
            0nat
        }) + key_count(cmds.drop_first())
    }
}

/// The jobs of the groups, one group after another.
pub open spec fn group_jobs(gs: Seq<(Seq<char>, Seq<char>, Seq<(Seq<u8>, Seq<(int, int)>)>)>) -> Seq<
    (Seq<u8>, Seq<(int, int)>),
>
    decreases gs.len(),
{
    if gs.len() == 0 {
        Seq::empty()
    } else {
        gs[0].2 + group_jobs(gs.drop_first())
    }
}

proof fn lemma_group_from(
    cmds: Seq<CommandView>,
    cur: Option<(Seq<char>, Seq<char>, Seq<(Seq<u8>, Seq<(int, int)>)>)>,
)
    ensures
        group_from(cmds, cur) matches Ok(gs) ==> group_jobs(gs) == (match cur {
            Some(g) => g.2,
            None => Seq::empty(),
        }) + command_jobs(cmds) && gs.len() == opt_group(cur).len() + key_count(cmds),
    decreases cmds.len(),
{
    let cj = match cur {
        Some(g) => g.2,
        None => Seq::<(Seq<u8>, Seq<(int, int)>)>::empty(),
    };
    if cmds.len() == 0 {
        match cur {
            Some(g) => {
                assert(seq![g].drop_first() =~= Seq::<(Seq<char>, Seq<char>, Seq<(Seq<u8>, Seq<(int, int)>)>)>::empty());
                assert(group_jobs(seq![g]) == g.2 + group_jobs(Seq::empty()));
            },
            None => {},
        }
        assert(cj + Seq::empty() =~= cj);
    } else {
        let tail = cmds.drop_first();
        match cmds[0] {
            CommandView::Key(a, u) => {
                let fresh = Some((a, u, Seq::<(Seq<u8>, Seq<(int, int)>)>::empty()));
                lemma_group_from(tail, fresh);
                match group_from(tail, fresh) {
                    Ok(rest) => {
                        assert(Seq::<(Seq<u8>, Seq<(int, int)>)>::empty() + command_jobs(tail) =~= command_jobs(tail));
                        match cur {
                            Some(g) => {
                                assert((seq![g] + rest).drop_first() =~= rest);
                                assert((seq![g] + rest)[0] == g);
                            },
                            None => {
                                assert(Seq::empty() + rest =~= rest);
                            },
                        }
                    },
                    Err(_) => {},
                }
            },
            CommandView::Job(j) => {
                match cur {
                    None => {},
                    Some(g) => {
                        let next = Some((g.0, g.1, g.2.push(j)));
                        lemma_group_from(tail, next);
                        assert(g.2.push(j) + command_jobs(tail) =~= g.2 + (seq![j] + command_jobs(tail)));
                    },
                }
            },
        }
    }
}

/// Grouping keeps every job, in order, and makes one group per key.
pub proof fn lemma_grouping_keeps_jobs(cmds: Seq<CommandView>)
    ensures
        group_from(cmds, None) matches Ok(gs) ==> group_jobs(gs) == command_jobs(cmds) && gs.len()
            == key_count(cmds),
{
    lemma_group_from(cmds, None);
    assert(Seq::<(Seq<u8>, Seq<(int, int)>)>::empty() + command_jobs(cmds) =~= command_jobs(cmds));
}

pub(crate) fn copy_job(j: &DecryptJob) -> (r: DecryptJob)
    ensures
        job_view(r) == job_view(*j),
{
    let mut payload: Vec<u8> = Vec::new();
    range_bytes(j.payload.as_slice(), 0, j.payload.len(), &mut payload);
    let mut ranges: Vec<(usize, usize)> = Vec::new();
    let mut i: usize = 0;
    while i < j.ranges.len()
        invariant
            i <= j.ranges.len(),
            ranges@ == j.ranges@.take(i as int),
        decreases j.ranges.len() - i,
    {
        ranges.push(j.ranges[i]);
        i = i + 1;
        proof {
            assert(ranges@ =~= j.ranges@.take(i as int));
        }
    }
    proof {
        assert(payload@ =~= j.payload@);
        assert(ranges@ =~= j.ranges@);
    }
    DecryptJob { payload, ranges }
}

pub open spec fn opt_group_view(g: Option<FragmentGroup>) -> Option<
    (Seq<char>, Seq<char>, Seq<(Seq<u8>, Seq<(int, int)>)>),
> {
    match g {
        Some(x) => Some(group_view(x)),
        None => None,
    }
}

/// The wrapper commands grouped under their keys, in order.
pub fn group_wrapper_commands_by_fragment(commands: &[WrapperCommand]) -> (r: Result<
    Vec<FragmentGroup>,
    BotError,
>)
    ensures
        match group_from(commands_view(commands@), None) {
            Ok(v) => r matches Ok(gs) && groups_view(gs@) == v,
            Err(m) => r matches Err(BotError::Custom(e)) && e@ == m,
        },
{
    let ghost cv = commands_view(commands@);
    let ghost goal = group_from(cv, None);
    let mut groups: Vec<FragmentGroup> = Vec::new();
    let mut current: Option<FragmentGroup> = None;
    let mut i: usize = 0;
    proof {
        assert(cv.skip(0) =~= cv);
        assert(groups_view(groups@) =~= Seq::empty());
        match goal {
            Ok(v) => {
                assert(Seq::empty() + v =~= v);
            },
            Err(_) => {},
        }
    }
    while i < commands.len()
        invariant
            i <= commands.len(),
            cv == commands_view(commands@),
            goal == group_from(cv, None),
            goal == match group_from(cv.skip(i as int), opt_group_view(current)) {
                Ok(rest) => Ok(groups_view(groups@) + rest),
                Err(m) => Err(m),
            },
        decreases commands.len() - i,
    {
        let ghost g0 = groups_view(groups@);
        proof {
            assert(cv.skip(i as int)[0] == command_view(commands@[i as int]));
            assert(cv.skip(i as int).drop_first() =~= cv.skip(i + 1));
        }
        match &commands[i] {
            WrapperCommand::Key { adam, uri } => {
                let ghost before = opt_group_view(current);
                match current {
                    Some(g) => {
                        groups.push(g);
                    },
                    None => {},
                }
                proof {
                    assert(groups_view(groups@) =~= g0 + opt_group(before));
                }
                let ghost a = adam@;
                let ghost u = uri@;
                current = Some(FragmentGroup { adam: adam.clone(), uri: uri.clone(), jobs: Vec::new() });
                proof {
                    assert(jobs_view(Seq::<DecryptJob>::empty()) =~= Seq::empty());
                    assert(opt_group_view(current) == Some((a, u, Seq::<(Seq<u8>, Seq<(int, int)>)>::empty())));
                    match group_from(cv.skip(i + 1), opt_group_view(current)) {
                        Ok(rest) => {
                            assert(g0 + (opt_group(before) + rest) =~= (g0 + opt_group(before)) + rest);
                        },
                        Err(_) => {},
                    }
                }
            },
            WrapperCommand::Job(job) => {
                match current {
                    None => {
                        return Err(custom("Apple Music wrapper fragment 缺少 key"));
                    },
                    Some(g) => {
                        let ghost gv = group_view(g);
                        let mut g = g;
                        let copied = copy_job(job);
                        g.jobs.push(copied);
                        proof {
                            assert(jobs_view(g.jobs@) =~= gv.2.push(job_view(*job)));
                        }
                        current = Some(g);
                    },
                }
            },
        }
        i = i + 1;
    }
    proof {
        assert(cv.skip(i as int) =~= Seq::<CommandView>::empty());
    }
    match current {
        Some(g) => {
            groups.push(g);
        },
        None => {},
    }
    proof {
        assert(groups_view(groups@) =~= match goal {
            Ok(v) => v,
            Err(_) => groups_view(groups@),
        });
    }
    Ok(groups)
}

/// The keys to ask the wrapper for ahead of decryption: each segment key
/// with its asset id, each pair once, in the order of first use.
pub open spec fn prewarm_keys_spec(track_id: Seq<char>, keys: Seq<Seq<char>>) -> Seq<(Seq<char>, Seq<char>)>
    decreases keys.len(),
{
    if keys.len() == 0 {
        Seq::empty()
    } else {
        let prev = prewarm_keys_spec(track_id, keys.drop_last());
        let p = (key_adam_spec(track_id, keys.last()), keys.last());
        if prev.contains(p) {
            prev
        } else {
            prev.push(p)
        }
    }
}

/// No key is asked for twice: the list holds each pair once.
pub proof fn lemma_prewarm_keys_distinct(track_id: Seq<char>, keys: Seq<Seq<char>>)
    ensures
        prewarm_keys_spec(track_id, keys).no_duplicates(),
    decreases keys.len(),
{
    if keys.len() > 0 {
        lemma_prewarm_keys_distinct(track_id, keys.drop_last());
        let prev = prewarm_keys_spec(track_id, keys.drop_last());
        let p = (key_adam_spec(track_id, keys.last()), keys.last());
        if !prev.contains(p) {
            assert forall|i: int, j: int| 0 <= i < j < prev.push(p).len() implies prev.push(p)[i] != prev.push(p)[j] by {
                if j == prev.len() {
                    assert(prev[i] != p);
                }
            }
        }
    }
}

pub open spec fn pair_views(v: Seq<(String, String)>) -> Seq<(Seq<char>, Seq<char>)> {
    v.map_values(|p: (String, String)| (p.0@, p.1@))
}

fn has_pair(v: &Vec<(String, String)>, adam: &str, uri: &str) -> (r: bool)
    ensures
        r == pair_views(v@).contains((adam@, uri@)),
{
    let mut i: usize = 0;
    while i < v.len()
        invariant
            i <= v.len(),
            forall|j: int| 0 <= j < i ==> pair_views(v@)[j] != (adam@, uri@),
        decreases v.len() - i,
    {
        if str_eq(v[i].0.as_str(), adam) && str_eq(v[i].1.as_str(), uri) {
            proof {
                assert(pair_views(v@)[i as int] == (adam@, uri@));
            }
            return true;
        }
        i = i + 1;
    }
    false
}

/// The keys to ask the wrapper for ahead of decryption, each once.
pub fn prewarm_wrapper_key_list(track_id: &str, seg_keys: &[String]) -> (r: Vec<(String, String)>)
    ensures
        pair_views(r@) == prewarm_keys_spec(track_id@, views(seg_keys@)),
{
    let ghost ks = views(seg_keys@);
    let mut out: Vec<(String, String)> = Vec::new();
    let mut i: usize = 0;
    proof {
        assert(ks.take(0) =~= Seq::<Seq<char>>::empty());
        assert(pair_views(out@) =~= Seq::empty());
    }
    while i < seg_keys.len()
        invariant
            i <= seg_keys.len(),
            ks == views(seg_keys@),
            pair_views(out@) == prewarm_keys_spec(track_id@, ks.take(i as int)),
        decreases seg_keys.len() - i,
    {
        let uri = &seg_keys[i];
        let adam = key_adam(track_id, uri.as_str());
        let ghost o0 = pair_views(out@);
        proof {
            assert(ks.take(i + 1).drop_last() =~= ks.take(i as int));
            assert(ks.take(i + 1).last() == uri@);
        }
        if !has_pair(&out, adam.as_str(), uri.as_str()) {
            let ghost p = (adam@, uri@);
            out.push((adam, uri.clone()));
            proof {
                assert(pair_views(out@) =~= o0.push(p));
            }
        }
        i = i + 1;
    }
    proof {
        assert(ks.take(i as int) =~= ks);
    }
    out
}

/// A content key must have 16 bytes.
pub fn check_content_key(key: &[u8]) -> (r: Result<(), BotError>)
    ensures
        key@.len() == 16 ==> r is Ok,
        key@.len() != 16 ==> (r matches Err(BotError::Custom(e))
            && e@ == "Apple Music Widevine content key 长度错误"@),
{
    if key.len() != 16 {
        return Err(custom("Apple Music Widevine content key 长度错误"));
    }
    Ok(())
}

/// Pattern encryption (encrypted and skipped blocks) is not decrypted
/// natively.
pub fn check_no_pattern(tenc: &TencInfo) -> (r: Result<(), BotError>)
    ensures
        (tenc.default_crypt_byte_block == 0 && tenc.default_skip_byte_block == 0) ==> r is Ok,
        !(tenc.default_crypt_byte_block == 0 && tenc.default_skip_byte_block == 0) ==> (r matches Err(
            BotError::Custom(e),
        ) && e@ == "Apple Music Widevine native 解密暂不支持 pattern encryption"@),
{
    if tenc.default_crypt_byte_block != 0 || tenc.default_skip_byte_block != 0 {
        return Err(custom("Apple Music Widevine native 解密暂不支持 pattern encryption"));
    }
    Ok(())
}

} // verus!
