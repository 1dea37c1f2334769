//! The fragments of a fragmented MP4: the walk over its `moof` boxes and
//! the `traf` boxes inside them, what a `traf` says of its samples, and the
//! samples of a run decrypted or taken out.
use vstd::prelude::*;
use crate::cenc::{
    collect_wrapper_decrypt_sample_jobs, command_view, commands_view, copy_job, custom_with,
    fragment_key, job_view, jobs_view, key_adam_spec, run_jobs_spec, CommandView, DecryptJob,
    WrapperCommand, decrypt_cenc_samples, group_from, group_wrapper_commands_by_fragment,
    groups_view, FragmentGroup, opt_bytes, opt_senc, range_bytes, samples_spec, senc_view,
    check_content_key, check_no_pattern, senc_views, subsample_views, tenc_view, SencSample, Subsample, TencInfo,
};
use crate::error::BotError;
use crate::mp4::{
    custom, find_box_recursive, find_child_box, find_child_spec, find_rec_spec,
    lemma_child_box_bounds, lemma_found_box_bounds, lemma_read_box_bounds, parse_tfhd_defaults,
    parse_trun_samples, read_box_spec, read_mp4_box, tfhd_spec, trun_spec, Mp4Box,
    ProgressiveSample, TrunSampleInfo,
};
use crate::progressive::{box_in, four, type_is};

verus! {

/// Where the walk over the fragments stands.
#[derive(Clone, Copy, Debug)]
pub enum WalkCursor {
    /// At a top-level box.
    Top(usize),
    /// Among the children of a `moof` (the first box), at the given
    /// position; the `mdat` (the second box) follows the `moof`.
    InMoof(Mp4Box, Mp4Box, usize),
}

/// What the walk stops at: a `moof` with the `mdat` after it, or a `traf`
/// inside a `moof` (the `moof`, its `mdat`, the `traf`).
#[derive(Clone, Copy, Debug)]
pub enum WalkItem {
    Moof(Mp4Box, Mp4Box),
    Traf(Mp4Box, Mp4Box, Mp4Box),
}

pub open spec fn cursor_pos(c: WalkCursor) -> int {
    match c {
        WalkCursor::Top(p) => p as int,
        WalkCursor::InMoof(_, _, p) => p as int,
    }
}

pub open spec fn box_end(b: Mp4Box) -> int {
    b.start + b.size
}

/// A cursor inside a `moof` as the walk makes it: the position within the
/// `moof`, the `moof` and the `mdat` right after it within the data.
pub open spec fn moof_ok(data: Seq<u8>, moof: Mp4Box, mdat: Mp4Box, p: int) -> bool {
    &&& p <= box_end(moof)
    &&& box_end(moof) == mdat.start
    &&& box_in(data, moof)
    &&& box_in(data, mdat)
}

/// The next stop of the walk from a cursor, with the cursor after it:
/// top-level boxes other than `moof` are passed over; a `moof` must be
/// followed by an `mdat`, and the walk stops there, then goes through the
/// `moof`'s children, stopping at each `traf`, up to one that ends past the
/// `moof`; it goes on after the `mdat`. A header that does not read stops
/// the walk with its error.
pub open spec fn walk_next(data: Seq<u8>, c: WalkCursor) -> Result<Option<(WalkItem, WalkCursor)>, Seq<char>>
    decreases data.len() + 1 - cursor_pos(c),
{
    if data.len() > usize::MAX {
        Ok(None)
    } else {
        match c {
            WalkCursor::Top(p) => match read_box_spec(data, p as int) {
                Err(m) => Err(m),
                Ok(None) => Ok(None),
                Ok(Some(b)) => if b.typ@ != four(109, 111, 111, 102) {
                    if p < box_end(b) <= data.len() {
                        walk_next(data, WalkCursor::Top(box_end(b) as usize))
                    } else {
                        Ok(None)
                    }
                } else {
                    match read_box_spec(data, box_end(b)) {
                        Err(m) => Err(m),
                        Ok(Some(n)) if n.typ@ == four(109, 100, 97, 116) => Ok(
                            Some(
                                (
                                    WalkItem::Moof(b, n),
                                    WalkCursor::InMoof(b, n, (b.start + b.header_size) as usize),
                                ),
                            ),
                        ),
                        _ => Err("MP4 moof 后缺少 mdat"@),
                    }
                },
            },
            WalkCursor::InMoof(moof, mdat, p) => if !moof_ok(data, moof, mdat, p as int) {
                Ok(None)
            } else {
                match read_box_spec(data, p as int) {
                    Err(m) => Err(m),
                    Ok(None) => walk_next(data, WalkCursor::Top(box_end(mdat) as usize)),
                    Ok(Some(t)) => if box_end(t) > box_end(moof) {
                        walk_next(data, WalkCursor::Top(box_end(mdat) as usize))
                    } else if t.typ@ == four(116, 114, 97, 102) {
                        Ok(
                            Some(
                                (
                                    WalkItem::Traf(moof, mdat, t),
                                    WalkCursor::InMoof(moof, mdat, box_end(t) as usize),
                                ),
                            ),
                        )
                    } else if p < box_end(t) {
                        walk_next(data, WalkCursor::InMoof(moof, mdat, box_end(t) as usize))
                    } else {
                        Ok(None)
                    },
                }
            },
        }
    }
}

/// The boxes of a stop lie within the data, and a `moof`'s `mdat` payload
/// starts within it.
pub open spec fn item_ok(data: Seq<u8>, item: WalkItem) -> bool {
    match item {
        WalkItem::Moof(m, d) => box_in(data, m) && box_in(data, d),
        WalkItem::Traf(m, d, t) => box_in(data, m) && box_in(data, d) && box_in(data, t),
    }
}

fn moof_cursor_ok(data: &[u8], moof: Mp4Box, mdat: Mp4Box, p: usize) -> (r: bool)
    ensures
        r == moof_ok(data@, moof, mdat, p as int),
{
    if moof.size > usize::MAX - moof.start {
        return false;
    }
    let moof_end = moof.start + moof.size;
    if !(p <= moof_end && moof_end == mdat.start) {
        return false;
    }
    8 <= moof.header_size && moof.header_size <= moof.size && moof_end <= data.len() && 8
        <= mdat.header_size && mdat.header_size <= mdat.size && mdat.start <= data.len() && mdat.size
        <= data.len() - mdat.start
}

/// The walk's next stop from the cursor, with the cursor after it; the
/// walk starts at `WalkCursor::Top(0)`.
pub fn next_fragment_item(data: &[u8], cursor: WalkCursor) -> (r: Result<Option<(WalkItem, WalkCursor)>, BotError>)
    ensures
        match walk_next(data@, cursor) {
            Ok(None) => r matches Ok(None),
            Ok(Some(s)) => r matches Ok(Some(x)) && x == s && item_ok(data@, x.0),
            Err(m) => r matches Err(BotError::Custom(e)) && e@ == m,
        },
{
    let ghost goal = walk_next(data@, cursor);
    let mut cur = cursor;
    let len = data.len();
    loop
        invariant
            data@.len() == len,
            goal == walk_next(data@, cursor),
            goal == walk_next(data@, cur),
        decreases data@.len() + 1 - cursor_pos(cur),
    {
        match cur {
            WalkCursor::Top(p) => {
                let b = match read_mp4_box(data, p) {
                    Err(e) => {
                        return Err(e);
                    },
                    Ok(None) => {
                        return Ok(None);
                    },
                    Ok(Some(b)) => b,
                };
                proof {
                    lemma_read_box_bounds(data@, p as int);
                }
                let end = b.end();
                if !type_is(&b.typ, 109, 111, 111, 102) {
                    cur = WalkCursor::Top(end);
                } else {
                    let n = match read_mp4_box(data, end) {
                        Err(e) => {
                            return Err(e);
                        },
                        Ok(None) => {
                            return Err(custom("MP4 moof 后缺少 mdat"));
                        },
                        Ok(Some(n)) => n,
                    };
                    proof {
                        lemma_read_box_bounds(data@, end as int);
                    }
                    if !type_is(&n.typ, 109, 100, 97, 116) {
                        return Err(custom("MP4 moof 后缺少 mdat"));
                    }
                    return Ok(Some((WalkItem::Moof(b, n), WalkCursor::InMoof(b, n, b.payload_start()))));
                }
            },
            WalkCursor::InMoof(moof, mdat, p) => {
                if !moof_cursor_ok(data, moof, mdat, p) {
                    return Ok(None);
                }
                let t = match read_mp4_box(data, p) {
                    Err(e) => {
                        return Err(e);
                    },
                    Ok(None) => {
                        cur = WalkCursor::Top(mdat.end());
                        continue;
                    },
                    Ok(Some(t)) => t,
                };
                proof {
                    lemma_read_box_bounds(data@, p as int);
                }
                let t_end = t.end();
                if t_end > moof.end() {
                    cur = WalkCursor::Top(mdat.end());
                } else if type_is(&t.typ, 116, 114, 97, 102) {
                    return Ok(Some((WalkItem::Traf(moof, mdat, t), WalkCursor::InMoof(moof, mdat, t_end))));
                } else {
                    cur = WalkCursor::InMoof(moof, mdat, t_end);
                }
            },
        }
    }
}

fn tag(a: u8, b: u8, c: u8, d: u8) -> (r: [u8; 4])
    ensures
        r@ == four(a, b, c, d),
{
    let r = [a, b, c, d];
    proof {
        assert(r@ =~= four(a, b, c, d));
    }
    r
}

/// The payload of a box.
pub open spec fn payload_of(data: Seq<u8>, b: Mp4Box) -> Seq<u8> {
    data.subrange(b.start + b.header_size, box_end(b))
}

/// What a `traf` says of its samples, and where its `senc` payload lies.
#[derive(Clone, Debug)]
pub struct TrafContents {
    pub data_offset: Option<i32>,
    pub samples: Vec<TrunSampleInfo>,
    pub senc: Option<(usize, usize)>,
}

/// A `traf` read: its `tfhd` (required, its defaults read), its `trun`
/// (required, read with those defaults), and the payload of its `senc`
/// when it has one.
pub open spec fn traf_spec(data: Seq<u8>, traf: Mp4Box) -> Result<
    (Option<i32>, Seq<TrunSampleInfo>, Option<(int, int)>),
    Seq<char>,
> {
    let a = traf.start + traf.header_size;
    let e = box_end(traf);
    match find_child_spec(data, a, e, four(116, 102, 104, 100)) {
        None => Err("MP4 traf 缺少 tfhd"@),
        Some(h) => match tfhd_spec(payload_of(data, h)) {
            Err(m) => Err(m),
            Ok(d) => match find_child_spec(data, a, e, four(116, 114, 117, 110)) {
                None => Err("MP4 traf 缺少 trun"@),
                Some(t) => match trun_spec(payload_of(data, t), d) {
                    Err(m) => Err(m),
                    Ok((o, smp)) => Ok(
                        (
                            o,
                            smp,
                            match find_child_spec(data, a, e, four(115, 101, 110, 99)) {
                                Some(x) => Some((x.start + x.header_size, box_end(x))),
                                None => None,
                            },
                        ),
                    ),
                },
            },
        },
    }
}

pub open spec fn contents_view(c: TrafContents) -> (Option<i32>, Seq<TrunSampleInfo>, Option<(int, int)>) {
    (
        c.data_offset,
        c.samples@,
        match c.senc {
            Some((x, y)) => Some((x as int, y as int)),
            None => None,
        },
    )
}

/// What a `traf` says of its samples; the `senc` payload is left for the
/// caller to read.
pub fn traf_contents(data: &[u8], traf: Mp4Box) -> (r: Result<TrafContents, BotError>)
    requires
        box_in(data@, traf),
    ensures
        match traf_spec(data@, traf) {
            Ok(v) => r matches Ok(c) && contents_view(c) == v,
            Err(m) => r matches Err(BotError::Custom(e)) && e@ == m,
        },
{
    let len = data.len();
    assert(data@.len() == len);
    let a = traf.payload_start();
    let e = traf.end();
    let tfhd_t = tag(116, 102, 104, 100);
    let trun_t = tag(116, 114, 117, 110);
    let senc_t = tag(115, 101, 110, 99);
    let h = match find_child_box(data, a, e, &tfhd_t) {
        Some(h) => h,
        None => {
            return Err(custom("MP4 traf 缺少 tfhd"));
        },
    };
    proof {
        lemma_child_box_bounds(data@, a as int, e as int, tfhd_t@);
    }
    let defaults = match parse_tfhd_defaults(vstd::slice::slice_subrange(data, h.payload_start(), h.end())) {
        Ok(d) => d,
        Err(x) => {
            return Err(x);
        },
    };
    let t = match find_child_box(data, a, e, &trun_t) {
        Some(t) => t,
        None => {
            return Err(custom("MP4 traf 缺少 trun"));
        },
    };
    proof {
        lemma_child_box_bounds(data@, a as int, e as int, trun_t@);
    }
    let (data_offset, samples) = match parse_trun_samples(
        vstd::slice::slice_subrange(data, t.payload_start(), t.end()),
        defaults,
    ) {
        Ok(v) => v,
        Err(x) => {
            return Err(x);
        },
    };
    let senc = match find_child_box(data, a, e, &senc_t) {
        Some(x) => {
            proof {
                lemma_child_box_bounds(data@, a as int, e as int, senc_t@);
            }
            Some((x.payload_start(), x.end()))
        },
        None => None,
    };
    Ok(TrafContents { data_offset, samples, senc })
}

/// Where the samples of a run start: at the `moof` plus the run's data
/// offset, else at the `mdat` payload. A start before the data (or past
/// what a `usize` holds) is taken as `usize::MAX`, past every sample.
pub open spec fn run_start_spec(moof: Mp4Box, mdat: Mp4Box, data_offset: Option<i32>) -> int {
    match data_offset {
        Some(o) => {
            let s = moof.start + o;
            if 0 <= s <= usize::MAX {
                s
            } else {
                usize::MAX as int
            }
        },
        None => mdat.start + mdat.header_size,
    }
}

pub fn run_start(moof: Mp4Box, mdat: Mp4Box, data_offset: Option<i32>) -> (r: usize)
    requires
        mdat.start + mdat.header_size <= usize::MAX,
    ensures
        r == run_start_spec(moof, mdat, data_offset),
{
    match data_offset {
        Some(o) => {
            if o >= 0 {
                let u = o as usize;
                if u > usize::MAX - moof.start {
                    usize::MAX
                } else {
                    moof.start + u
                }
            } else {
                let neg = (0i64 - o as i64) as usize;
                if neg > moof.start {
                    usize::MAX
                } else {
                    moof.start - neg
                }
            }
        },
        None => mdat.payload_start(),
    }
}

/// The samples of a run taken out one after another from `pos`: bytes,
/// duration and size; refused when one ends past the data.
pub open spec fn run_samples_spec(data: Seq<u8>, pos: int, samples: Seq<TrunSampleInfo>, k: int) -> Result<
    Seq<(Seq<u8>, u32, u32)>,
    Seq<char>,
>
    decreases samples.len() - k,
{
    if k < 0 || k >= samples.len() {
        Ok(Seq::empty())
    } else {
        let end = pos + samples[k].size;
        if end > data.len() || pos < 0 {
            Err("MP4 sample 超出文件范围"@)
        } else {
            match run_samples_spec(data, end, samples, k + 1) {
                Err(m) => Err(m),
                Ok(rest) => Ok(seq![(data.subrange(pos, end), samples[k].duration, samples[k].size)] + rest),
            }
        }
    }
}

pub open spec fn sample_views(v: Seq<ProgressiveSample>) -> Seq<(Seq<u8>, u32, u32)> {
    v.map_values(|p: ProgressiveSample| (p.data@, p.duration, p.size))
}

/// The samples of a run that starts at `start`, taken out of the data.
pub fn run_samples(data: &[u8], start: usize, samples: &[TrunSampleInfo]) -> (r: Result<
    Vec<ProgressiveSample>,
    BotError,
>)
    ensures
        match run_samples_spec(data@, start as int, samples@, 0) {
            Ok(v) => r matches Ok(out) && sample_views(out@) == v,
            Err(m) => r matches Err(BotError::Custom(e)) && e@ == m,
        },
{
    let ghost goal = run_samples_spec(data@, start as int, samples@, 0);
    let mut out: Vec<ProgressiveSample> = Vec::new();
    let mut pos = start;
    let mut k: usize = 0;
    proof {
        assert(sample_views(out@) =~= Seq::empty());
        match goal {
            Ok(v) => {
                assert(Seq::empty() + v =~= v);
            },
            Err(_) => {},
        }
    }
    while k < samples.len()
        invariant
            k <= samples.len(),
            goal == run_samples_spec(data@, start as int, samples@, 0),
            goal == match run_samples_spec(data@, pos as int, samples@, k as int) {
                Ok(rest) => Ok(sample_views(out@) + rest),
                Err(m) => Err(m),
            },
        decreases samples.len() - k,
    {
        let ghost o0 = sample_views(out@);
        let size = samples[k].size as usize;
        if size > data.len() || pos > data.len() - size {
            return Err(custom("MP4 sample 超出文件范围"));
        }
        let end = pos + size;
        let mut bytes: Vec<u8> = Vec::new();
        range_bytes(data, pos, end, &mut bytes);
        proof {
            assert(bytes@ =~= data@.subrange(pos as int, end as int));
        }
        out.push(ProgressiveSample { data: bytes, duration: samples[k].duration, size: samples[k].size });
        proof {
            let x = (data@.subrange(pos as int, end as int), samples@[k as int].duration, samples@[k as int].size);
            assert(sample_views(out@) =~= o0.push(x));
            match run_samples_spec(data@, end as int, samples@, k + 1) {
                Ok(rest) => {
                    assert(o0 + (seq![x] + rest) =~= o0.push(x) + rest);
                },
                Err(_) => {},
            }
        }
        pos = end;
        k = k + 1;
    }
    proof {
        assert(sample_views(out@) + Seq::empty() =~= sample_views(out@));
    }
    Ok(out)
}

/// Where the payload of the track's `tenc` box lies: the first `tenc`
/// found searching the boxes and their containers; refused when there is
/// none.
pub open spec fn tenc_spec(data: Seq<u8>) -> Result<(int, int), Seq<char>> {
    match find_rec_spec(data, 0, data.len() as int, four(116, 101, 110, 99)) {
        Some(b) => Ok((b.start + b.header_size, box_end(b))),
        None => Err("Apple Music fMP4 没有 tenc box"@),
    }
}

pub fn tenc_payload(data: &[u8]) -> (r: Result<(usize, usize), BotError>)
    ensures
        match tenc_spec(data@) {
            Ok((a, b)) => r matches Ok((x, y)) && x == a && y == b && a <= b <= data@.len(),
            Err(m) => r matches Err(BotError::Custom(e)) && e@ == m,
        },
{
    let len = data.len();
    assert(data@.len() == len);
    let t = tag(116, 101, 110, 99);
    match find_box_recursive(data, 0, len, &t) {
        Some(b) => {
            proof {
                lemma_found_box_bounds(data@, 0, len as int, t@);
            }
            Ok((b.payload_start(), b.end()))
        },
        None => Err(custom("Apple Music fMP4 没有 tenc box")),
    }
}

/// What `oxideav_mp4::cenc::parse_tenc` reads from a `tenc` payload: the
/// per-sample IV size, the constant IV, the encrypted and skipped block
/// counts of the pattern; or the text of its error.
pub uninterp spec fn tenc_parsed(payload: Seq<u8>) -> Result<(u8, Option<Seq<u8>>, u8, u8), Seq<char>>;

pub open spec fn tenc_result_view(r: Result<TencInfo, String>) -> Result<(u8, Option<Seq<u8>>, u8, u8), Seq<char>> {
    match r {
        Ok(t) => Ok(tenc_view(t)),
        Err(e) => Err(e@),
    }
}

/// `oxideav_mp4::cenc::parse_tenc` of a `tenc` payload, the fields the
/// decryption uses taken over as they are, its error by its text
/// (`Display`). The result is named: it depends on the payload alone.
#[verifier::external_body]
fn parse_tenc_box(payload: &[u8]) -> (r: Result<TencInfo, String>)
    ensures
        tenc_result_view(r) == tenc_parsed(payload@),
{
    match oxideav_mp4::cenc::parse_tenc(payload) {
        Ok(t) => Ok(TencInfo {
            default_per_sample_iv_size: t.default_per_sample_iv_size,
            default_constant_iv: t.default_constant_iv,
            default_crypt_byte_block: t.default_crypt_byte_block,
            default_skip_byte_block: t.default_skip_byte_block,
        }),
        Err(e) => Err(e.to_string()),
    }
}

/// What `oxideav_mp4::cenc::parse_senc` reads from a `senc` payload with
/// the given per-sample IV size: each sample's IV and its subsamples (clear
/// and protected byte counts); or the text of its error.
pub uninterp spec fn senc_parsed(payload: Seq<u8>, iv_size: u8) -> Result<Seq<(Seq<u8>, Seq<(u32, u32)>)>, Seq<char>>;

pub open spec fn senc_result_view(r: Result<Vec<SencSample>, String>) -> Result<Seq<(Seq<u8>, Seq<(u32, u32)>)>, Seq<char>> {
    match r {
        Ok(v) => Ok(senc_views(v@)),
        Err(e) => Err(e@),
    }
}

/// `oxideav_mp4::cenc::parse_senc` of a `senc` payload, each sample's IV
/// and subsamples taken over (a 16-bit clear count widened), its error by
/// its text. The result is named: it depends on its arguments alone.
#[verifier::external_body]
fn parse_senc_box(payload: &[u8], iv_size: u8) -> (r: Result<Vec<SencSample>, String>)
    ensures
        senc_result_view(r) == senc_parsed(payload@, iv_size),
{
    match oxideav_mp4::cenc::parse_senc(payload, iv_size) {
        Ok(b) => Ok(b.samples.into_iter().map(|s| SencSample {
            iv: s.initialization_vector,
            subsamples: s.subsamples.iter().map(|x| Subsample {
                clear: x.bytes_of_clear_data as u32,
                protected: x.bytes_of_protected_data,
            }).collect(),
        }).collect()),
        Err(e) => Err(e.to_string()),
    }
}

/// The track's encryption defaults: its `tenc` payload read; refused when
/// there is no `tenc`, or with the reader's error.
pub open spec fn tenc_init_spec(data: Seq<u8>) -> Result<(u8, Option<Seq<u8>>, u8, u8), Seq<char>> {
    match tenc_spec(data) {
        Err(m) => Err(m),
        Ok((a, b)) => match tenc_parsed(data.subrange(a, b)) {
            Ok(t) => Ok(t),
            Err(e) => Err("Apple Music tenc 解析失败："@ + e),
        },
    }
}

pub fn parse_tenc_from_init(data: &[u8]) -> (r: Result<TencInfo, BotError>)
    ensures
        match tenc_init_spec(data@) {
            Ok(t) => r matches Ok(x) && tenc_view(x) == t,
            Err(m) => r matches Err(BotError::Custom(e)) && e@ == m,
        },
{
    let (a, b) = match tenc_payload(data) {
        Ok(v) => v,
        Err(e) => {
            return Err(e);
        },
    };
    match parse_tenc_box(vstd::slice::slice_subrange(data, a, b)) {
        Ok(t) => Ok(t),
        Err(e) => Err(custom_with("Apple Music tenc 解析失败：", &e)),
    }
}

/// A `traf` read: what it says of its samples, and its `senc` read with
/// the track's per-sample IV size when it has one.
pub struct ParsedTraf {
    pub data_offset: Option<i32>,
    pub samples: Vec<TrunSampleInfo>,
    pub senc: Option<Vec<SencSample>>,
}

pub open spec fn parsed_traf_view(p: ParsedTraf) -> (Option<i32>, Seq<TrunSampleInfo>, Option<Seq<(Seq<u8>, Seq<(u32, u32)>)>>) {
    (
        p.data_offset,
        p.samples@,
        match p.senc {
            Some(v) => Some(senc_views(v@)),
            None => None,
        },
    )
}

pub open spec fn parse_traf_spec(data: Seq<u8>, traf: Mp4Box, iv_size: u8) -> Result<
    (Option<i32>, Seq<TrunSampleInfo>, Option<Seq<(Seq<u8>, Seq<(u32, u32)>)>>),
    Seq<char>,
> {
    match traf_spec(data, traf) {
        Err(m) => Err(m),
        Ok((o, smp, senc)) => match senc {
            None => Ok((o, smp, None)),
            Some((a, b)) => match senc_parsed(data.subrange(a, b), iv_size) {
                Ok(v) => Ok((o, smp, Some(v))),
                Err(e) => Err("Apple Music senc 解析失败："@ + e),
            },
        },
    }
}

proof fn lemma_senc_range(data: Seq<u8>, traf: Mp4Box)
    requires
        box_in(data, traf),
        data.len() <= usize::MAX,
    ensures
        traf_spec(data, traf) matches Ok((_, _, Some((a, b)))) ==> 0 <= a <= b <= data.len(),
{
    let a = traf.start + traf.header_size;
    let e = box_end(traf);
    if find_child_spec(data, a, e, four(115, 101, 110, 99)) is Some {
        lemma_child_box_bounds(data, a, e, four(115, 101, 110, 99));
    }
}

pub fn parse_traf(data: &[u8], traf: Mp4Box, tenc: &TencInfo) -> (r: Result<ParsedTraf, BotError>)
    requires
        box_in(data@, traf),
    ensures
        match parse_traf_spec(data@, traf, tenc.default_per_sample_iv_size) {
            Ok(v) => r matches Ok(p) && parsed_traf_view(p) == v,
            Err(m) => r matches Err(BotError::Custom(e)) && e@ == m,
        },
{
    let len = data.len();
    assert(data@.len() == len);
    let c = match traf_contents(data, traf) {
        Ok(c) => c,
        Err(e) => {
            return Err(e);
        },
    };
    let senc = match c.senc {
        None => None,
        Some((a, b)) => {
            proof {
                lemma_senc_range(data@, traf);
            }
            match parse_senc_box(vstd::slice::slice_subrange(data, a, b), tenc.default_per_sample_iv_size) {
                Ok(v) => Some(v),
                Err(e) => {
                    return Err(custom_with("Apple Music senc 解析失败：", &e));
                },
            }
        },
    };
    Ok(ParsedTraf { data_offset: c.data_offset, samples: c.samples, senc })
}

/// Each stop of the walk lies past the cursor it came from, within the
/// data.
pub proof fn lemma_walk_progress(data: Seq<u8>, c: WalkCursor)
    ensures
        walk_next(data, c) matches Ok(Some((_, n))) ==> cursor_pos(c) < cursor_pos(n) <= data.len(),
    decreases data.len() + 1 - cursor_pos(c),
{
    if data.len() <= usize::MAX {
        match c {
            WalkCursor::Top(p) => {
                match read_box_spec(data, p as int) {
                    Ok(Some(b)) => {
                        lemma_read_box_bounds(data, p as int);
                        if b.typ@ != four(109, 111, 111, 102) {
                            if p < box_end(b) <= data.len() {
                                lemma_walk_progress(data, WalkCursor::Top(box_end(b) as usize));
                            }
                        }
                    },
                    _ => {},
                }
            },
            WalkCursor::InMoof(moof, mdat, p) => {
                if moof_ok(data, moof, mdat, p as int) {
                    match read_box_spec(data, p as int) {
                        Ok(None) => {
                            lemma_walk_progress(data, WalkCursor::Top(box_end(mdat) as usize));
                        },
                        Ok(Some(t)) => {
                            lemma_read_box_bounds(data, p as int);
                            if box_end(t) > box_end(moof) {
                                lemma_walk_progress(data, WalkCursor::Top(box_end(mdat) as usize));
                            } else if t.typ@ != four(116, 114, 97, 102) && p < box_end(t) {
                                lemma_walk_progress(data, WalkCursor::InMoof(moof, mdat, box_end(t) as usize));
                            }
                        },
                        _ => {},
                    }
                }
            },
        }
    }
}

/// The fragments decrypted in place, walking from the cursor: at each
/// `traf`, its samples decrypted where its run starts, the walk going on
/// over the decrypted data (decryption keeps its length). Refused at the
/// walk's, the `traf`'s or the decryption's first error.
pub open spec fn decrypt_walk(data: Seq<u8>, c: WalkCursor, tenc: (u8, Option<Seq<u8>>, u8, u8), key: Seq<u8>) -> Result<Seq<u8>, Seq<char>>
    decreases data.len() + 1 - cursor_pos(c),
{
    match walk_next(data, c) {
        Err(m) => Err(m),
        Ok(None) => Ok(data),
        Ok(Some((item, next))) => {
            proof {
                lemma_walk_progress(data, c);
            }
            match item {
                WalkItem::Moof(_, _) => decrypt_walk(data, next, tenc, key),
                WalkItem::Traf(moof, mdat, traf) => match parse_traf_spec(data, traf, tenc.0) {
                    Err(m) => Err(m),
                    Ok((off, smp, senc)) => match samples_spec(
                        data,
                        run_start_spec(moof, mdat, off),
                        smp,
                        senc,
                        tenc,
                        key,
                        0,
                    ) {
                        Err(m) => Err(m),
                        Ok(d) => if d.len() == data.len() {
                            decrypt_walk(d, next, tenc, key)
                        } else {
                            Ok(d)
                        },
                    },
                },
            }
        },
    }
}

/// Every `traf` of the file decrypted in place.
pub fn decrypt_cenc_fragments(data: &mut Vec<u8>, tenc: &TencInfo, key: &[u8]) -> (r: Result<(), BotError>)
    ensures
        match decrypt_walk(old(data)@, WalkCursor::Top(0), tenc_view(*tenc), key@) {
            Ok(d) => r is Ok && final(data)@ == d,
            Err(m) => r matches Err(BotError::Custom(e)) && e@ == m,
        },
{
    let ghost goal = decrypt_walk(old(data)@, WalkCursor::Top(0), tenc_view(*tenc), key@);
    let mut cur = WalkCursor::Top(0);
    loop
        invariant
            goal == decrypt_walk(old(data)@, WalkCursor::Top(0), tenc_view(*tenc), key@),
            goal == decrypt_walk(data@, cur, tenc_view(*tenc), key@),
        decreases data@.len() + 1 - cursor_pos(cur),
    {
        let (item, next) = match next_fragment_item(data.as_slice(), cur) {
            Err(e) => {
                return Err(e);
            },
            Ok(None) => {
                return Ok(());
            },
            Ok(Some(x)) => x,
        };
        proof {
            lemma_walk_progress(data@, cur);
        }
        match item {
            WalkItem::Moof(_, _) => {},
            WalkItem::Traf(moof, mdat, traf) => {
                let parsed = match parse_traf(data.as_slice(), traf, tenc) {
                    Ok(p) => p,
                    Err(e) => {
                        return Err(e);
                    },
                };
                let start = run_start(moof, mdat, parsed.data_offset);
                let senc: Option<&Vec<SencSample>> = match &parsed.senc {
                    Some(v) => Some(v),
                    None => None,
                };
                match decrypt_cenc_samples(data, start, parsed.samples.as_slice(), senc, tenc, key) {
                    Ok(()) => {},
                    Err(e) => {
                        return Err(e);
                    },
                }
            },
        }
        cur = next;
    }
}

/// The samples of every run, walking from the cursor: at each `traf`, the
/// samples of its run taken out in order. Refused at the walk's, the
/// `traf`'s or a sample's first error.
pub open spec fn samples_walk(data: Seq<u8>, c: WalkCursor, iv_size: u8) -> Result<Seq<(Seq<u8>, u32, u32)>, Seq<char>>
    decreases data.len() + 1 - cursor_pos(c),
{
    match walk_next(data, c) {
        Err(m) => Err(m),
        Ok(None) => Ok(Seq::empty()),
        Ok(Some((item, next))) => {
            proof {
                lemma_walk_progress(data, c);
            }
            match item {
                WalkItem::Moof(_, _) => samples_walk(data, next, iv_size),
                WalkItem::Traf(moof, mdat, traf) => match parse_traf_spec(data, traf, iv_size) {
                    Err(m) => Err(m),
                    Ok((off, smp, _)) => match run_samples_spec(data, run_start_spec(moof, mdat, off), smp, 0) {
                        Err(m) => Err(m),
                        Ok(v) => match samples_walk(data, next, iv_size) {
                            Err(m) => Err(m),
                            Ok(rest) => Ok(v + rest),
                        },
                    },
                },
            }
        },
    }
}

/// The samples of the whole file, in order.
pub fn collect_fragment_samples(data: &[u8], tenc: &TencInfo) -> (r: Result<Vec<ProgressiveSample>, BotError>)
    ensures
        match samples_walk(data@, WalkCursor::Top(0), tenc.default_per_sample_iv_size) {
            Ok(v) => r matches Ok(out) && sample_views(out@) == v,
            Err(m) => r matches Err(BotError::Custom(e)) && e@ == m,
        },
{
    let ghost iv = tenc.default_per_sample_iv_size;
    let ghost goal = samples_walk(data@, WalkCursor::Top(0), iv);
    let mut out: Vec<ProgressiveSample> = Vec::new();
    let mut cur = WalkCursor::Top(0);
    proof {
        assert(sample_views(out@) =~= Seq::empty());
        match goal {
            Ok(v) => {
                assert(Seq::empty() + v =~= v);
            },
            Err(_) => {},
        }
    }
    loop
        invariant
            iv == tenc.default_per_sample_iv_size,
            goal == samples_walk(data@, WalkCursor::Top(0), iv),
            goal == match samples_walk(data@, cur, iv) {
                Ok(rest) => Ok(sample_views(out@) + rest),
                Err(m) => Err(m),
            },
        decreases data@.len() + 1 - cursor_pos(cur),
    {
        let (item, next) = match next_fragment_item(data, cur) {
            Err(e) => {
                return Err(e);
            },
            Ok(None) => {
                proof {
                    assert(sample_views(out@) + Seq::empty() =~= sample_views(out@));
                }
                return Ok(out);
            },
            Ok(Some(x)) => x,
        };
        proof {
            lemma_walk_progress(data@, cur);
        }
        match item {
            WalkItem::Moof(_, _) => {},
            WalkItem::Traf(moof, mdat, traf) => {
                let parsed = match parse_traf(data, traf, tenc) {
                    Ok(p) => p,
                    Err(e) => {
                        return Err(e);
                    },
                };
                let start = run_start(moof, mdat, parsed.data_offset);
                let mut mine = match run_samples(data, start, parsed.samples.as_slice()) {
                    Ok(v) => v,
                    Err(e) => {
                        return Err(e);
                    },
                };
                let ghost o0 = sample_views(out@);
                let ghost m0 = sample_views(mine@);
                let ghost b0 = out@;
                let ghost mv = mine@;
                out.append(&mut mine);
                proof {
                    assert(sample_views(b0 + mv) =~= sample_views(b0) + sample_views(mv));
                    match samples_walk(data@, next, iv) {
                        Ok(rest) => {
                            assert(o0 + (m0 + rest) =~= (o0 + m0) + rest);
                        },
                        Err(_) => {},
                    }
                }
            },
        }
        cur = next;
    }
}

/// The commands for the decrypting wrapper, walking from the cursor: at
/// each `moof`, the key of the fragment at `index` (refused when there are
/// fewer keys); at each `traf`, the jobs of its samples.
pub open spec fn commands_walk(
    data: Seq<u8>,
    c: WalkCursor,
    track_id: Seq<char>,
    keys: Seq<Seq<char>>,
    index: int,
    tenc: (u8, Option<Seq<u8>>, u8, u8),
) -> Result<Seq<CommandView>, Seq<char>>
    decreases data.len() + 1 - cursor_pos(c),
{
    match walk_next(data, c) {
        Err(m) => Err(m),
        Ok(None) => Ok(Seq::empty()),
        Ok(Some((item, next))) => {
            proof {
                lemma_walk_progress(data, c);
            }
            match item {
                WalkItem::Moof(_, _) => if 0 <= index < keys.len() {
                    match commands_walk(data, next, track_id, keys, index + 1, tenc) {
                        Err(m) => Err(m),
                        Ok(rest) => Ok(
                            seq![CommandView::Key(key_adam_spec(track_id, keys[index]), keys[index])] + rest,
                        ),
                    }
                } else {
                    Err("Apple Music segment key 数量不足"@)
                },
                WalkItem::Traf(moof, mdat, traf) => match parse_traf_spec(data, traf, tenc.0) {
                    Err(m) => Err(m),
                    Ok((off, smp, senc)) => match run_jobs_spec(data, run_start_spec(moof, mdat, off), smp, senc, tenc, 0) {
                        Err(m) => Err(m),
                        Ok(js) => match commands_walk(data, next, track_id, keys, index, tenc) {
                            Err(m) => Err(m),
                            Ok(rest) => Ok(js.map_values(|j: (Seq<u8>, Seq<(int, int)>)| CommandView::Job(j)) + rest),
                        },
                    },
                },
            }
        },
    }
}

fn push_jobs(out: &mut Vec<WrapperCommand>, jobs: &Vec<DecryptJob>)
    ensures
        commands_view(final(out)@) == commands_view(old(out)@) + jobs_view(jobs@).map_values(
            |j: (Seq<u8>, Seq<(int, int)>)| CommandView::Job(j),
        ),
{
    let ghost o0 = commands_view(out@);
    let ghost js = jobs_view(jobs@);
    let mut t: usize = 0;
    while t < jobs.len()
        invariant
            t <= jobs.len(),
            o0 == commands_view(old(out)@),
            js == jobs_view(jobs@),
            commands_view(out@) == o0 + js.take(t as int).map_values(
                |j: (Seq<u8>, Seq<(int, int)>)| CommandView::Job(j),
            ),
        decreases jobs.len() - t,
    {
        let copied = copy_job(&jobs[t]);
        let ghost before = commands_view(out@);
        out.push(WrapperCommand::Job(copied));
        proof {
            assert(commands_view(out@) =~= before.push(CommandView::Job(js[t as int])));
            assert(js.take(t + 1).map_values(|j: (Seq<u8>, Seq<(int, int)>)| CommandView::Job(j))
                =~= js.take(t as int).map_values(|j: (Seq<u8>, Seq<(int, int)>)| CommandView::Job(j)).push(
                CommandView::Job(js[t as int]),
            ));
        }
        t = t + 1;
    }
    proof {
        assert(js.take(jobs.len() as int) =~= js);
    }
}

/// The wrapper's commands for the whole file: each fragment's segment key,
/// then the jobs of its samples.
#[verifier::rlimit(40)]
pub fn collect_wrapper_decrypt_commands(data: &[u8], track_id: &str, seg_keys: &[String], tenc: &TencInfo) -> (r:
    Result<Vec<WrapperCommand>, BotError>)
    ensures
        match commands_walk(data@, WalkCursor::Top(0), track_id@, crate::text::views(seg_keys@), 0, tenc_view(*tenc)) {
            Ok(v) => r matches Ok(cmds) && commands_view(cmds@) == v,
            Err(m) => r matches Err(BotError::Custom(e)) && e@ == m,
        },
{
    let ghost keys = crate::text::views(seg_keys@);
    let ghost goal = commands_walk(data@, WalkCursor::Top(0), track_id@, keys, 0, tenc_view(*tenc));
    let mut out: Vec<WrapperCommand> = Vec::new();
    let mut cur = WalkCursor::Top(0);
    let mut index: usize = 0;
    let nkeys = seg_keys.len();
    proof {
        assert(commands_view(out@) =~= Seq::empty());
        match goal {
            Ok(v) => {
                assert(Seq::empty() + v =~= v);
            },
            Err(_) => {},
        }
    }
    loop
        invariant
            keys == crate::text::views(seg_keys@),
            seg_keys@.len() == nkeys,
            index <= seg_keys@.len(),
            goal == commands_walk(data@, WalkCursor::Top(0), track_id@, keys, 0, tenc_view(*tenc)),
            goal == match commands_walk(data@, cur, track_id@, keys, index as int, tenc_view(*tenc)) {
                Ok(rest) => Ok(commands_view(out@) + rest),
                Err(m) => Err(m),
            },
        decreases data@.len() + 1 - cursor_pos(cur),
    {
        let (item, next) = match next_fragment_item(data, cur) {
            Err(e) => {
                return Err(e);
            },
            Ok(None) => {
                proof {
                    assert(commands_view(out@) + Seq::empty() =~= commands_view(out@));
                }
                return Ok(out);
            },
            Ok(Some(x)) => x,
        };
        proof {
            lemma_walk_progress(data@, cur);
        }
        let ghost o0 = commands_view(out@);
        match item {
            WalkItem::Moof(_, _) => {
                let key = match fragment_key(track_id, seg_keys, index) {
                    Ok(k) => k,
                    Err(e) => {
                        return Err(e);
                    },
                };
                proof {
                    assert(index < seg_keys@.len());
                }
                let ghost kv = command_view(key);
                out.push(key);
                proof {
                    assert(commands_view(out@) =~= o0.push(kv));
                    assert(kv == CommandView::Key(key_adam_spec(track_id@, keys[index as int]), keys[index as int]));
                    match commands_walk(data@, next, track_id@, keys, index + 1, tenc_view(*tenc)) {
                        Ok(rest) => {
                            assert(o0 + (seq![kv] + rest) =~= o0.push(kv) + rest);
                        },
                        Err(_) => {},
                    }
                }
                index = index + 1;
            },
            WalkItem::Traf(moof, mdat, traf) => {
                let parsed = match parse_traf(data, traf, tenc) {
                    Ok(p) => p,
                    Err(e) => {
                        return Err(e);
                    },
                };
                let start = run_start(moof, mdat, parsed.data_offset);
                let senc: Option<&Vec<SencSample>> = match &parsed.senc {
                    Some(v) => Some(v),
                    None => None,
                };
                let jobs = match collect_wrapper_decrypt_sample_jobs(data, start, parsed.samples.as_slice(), senc, tenc) {
                    Ok(v) => v,
                    Err(e) => {
                        return Err(e);
                    },
                };
                let ghost js = jobs_view(jobs@);
                push_jobs(&mut out, &jobs);
                proof {
                    let mj = js.map_values(|j: (Seq<u8>, Seq<(int, int)>)| CommandView::Job(j));
                    match commands_walk(data@, next, track_id@, keys, index as int, tenc_view(*tenc)) {
                        Ok(rest) => {
                            assert(o0 + (mj + rest) =~= (o0 + mj) + rest);
                        },
                        Err(_) => {},
                    }
                }
            },
        }
        cur = next;
    }
}

/// An encrypted fragmented file decrypted in place: refused for a content
/// key that is not 16 bytes, for a `tenc` that does not read, and for
/// pattern encryption; else every `traf` decrypted.
pub open spec fn fmp4_decrypt_spec(data: Seq<u8>, key: Seq<u8>) -> Result<Seq<u8>, Seq<char>> {
    if key.len() != 16 {
        Err("Apple Music Widevine content key 长度错误"@)
    } else {
        match tenc_init_spec(data) {
            Err(m) => Err(m),
            Ok(t) => if t.2 != 0 || t.3 != 0 {
                Err("Apple Music Widevine native 解密暂不支持 pattern encryption"@)
            } else {
                decrypt_walk(data, WalkCursor::Top(0), t, key)
            },
        }
    }
}

pub fn decrypt_cenc_fmp4_fragments(data: &mut Vec<u8>, key: &[u8]) -> (r: Result<(), BotError>)
    ensures
        match fmp4_decrypt_spec(old(data)@, key@) {
            Ok(d) => r is Ok && final(data)@ == d,
            Err(m) => r matches Err(BotError::Custom(e)) && e@ == m,
        },
{
    match check_content_key(key) {
        Ok(()) => {},
        Err(e) => {
            return Err(e);
        },
    }
    let tenc = match parse_tenc_from_init(data.as_slice()) {
        Ok(t) => t,
        Err(e) => {
            return Err(e);
        },
    };
    match check_no_pattern(&tenc) {
        Ok(()) => {},
        Err(e) => {
            return Err(e);
        },
    }
    decrypt_cenc_fragments(data, &tenc, key)
}

/// The wrapper's work for a file: the track's `tenc` read, then its
/// commands grouped under their keys.
pub open spec fn wrapper_groups_spec(data: Seq<u8>, track_id: Seq<char>, keys: Seq<Seq<char>>) -> Result<
    Seq<(Seq<char>, Seq<char>, Seq<(Seq<u8>, Seq<(int, int)>)>)>,
    Seq<char>,
> {
    match tenc_init_spec(data) {
        Err(m) => Err(m),
        Ok(t) => match commands_walk(data, WalkCursor::Top(0), track_id, keys, 0, t) {
            Err(m) => Err(m),
            Ok(cv) => group_from(cv, None),
        },
    }
}

pub fn wrapper_fragment_groups(data: &[u8], track_id: &str, seg_keys: &[String]) -> (r: Result<
    Vec<FragmentGroup>,
    BotError,
>)
    ensures
        match wrapper_groups_spec(data@, track_id@, crate::text::views(seg_keys@)) {
            Ok(v) => r matches Ok(gs) && groups_view(gs@) == v,
            Err(m) => r matches Err(BotError::Custom(e)) && e@ == m,
        },
{
    let tenc = match parse_tenc_from_init(data) {
        Ok(t) => t,
        Err(e) => {
            return Err(e);
        },
    };
    let commands = match collect_wrapper_decrypt_commands(data, track_id, seg_keys, &tenc) {
        Ok(c) => c,
        Err(e) => {
            return Err(e);
        },
    };
    group_wrapper_commands_by_fragment(commands.as_slice())
}

} // verus!
