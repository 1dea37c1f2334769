//! A decrypted fragmented MP4 made progressive: the movie box rewritten
//! around one sample table built from the fragments' samples (encryption
//! boxes dropped, durations set), then the file laid out as `ftyp`, `moov`
//! and one `mdat`.
use vstd::prelude::*;
use crate::error::BotError;
use crate::mp4::{
    be32_bytes, box_bytes, build_box, build_stco, build_stsc, build_stsz, build_stts, custom,
    duration_runs, find_box_recursive, find_child_box, find_child_spec, find_rec_spec,
    lemma_child_box_bounds, lemma_found_box_bounds, lemma_read_box_bounds, parse_mdhd_timescale,
    parse_mvhd_timescale, patch_duration_spec, patch_first_stco_offset, patch_mdhd_duration,
    patch_mvhd_duration, patch_stco_spec, patch_tkhd_duration, push_be32, read_box_spec,
    read_mp4_box, run_bytes, sample_durations, sample_sizes, timescale_spec, u32s_bytes, Mp4Box,
    ProgressiveSample,
};

verus! {

pub open spec fn box_end(b: Mp4Box) -> int {
    b.start + b.size
}

pub open spec fn payload_at(b: Mp4Box) -> int {
    b.start + b.header_size
}

/// A box read from the data lies within it.
pub open spec fn box_in(data: Seq<u8>, b: Mp4Box) -> bool {
    8 <= b.header_size <= b.size && b.start + b.size <= data.len()
}

pub open spec fn four(a: u8, b: u8, c: u8, d: u8) -> Seq<u8> {
    seq![a, b, c, d]
}

/// The type a sample entry keeps: an encrypted entry takes its original
/// format from `frma` (or `alac` for audio without one).
pub open spec fn entry_type_spec(data: Seq<u8>, e: Mp4Box) -> Seq<u8> {
    let t = e.typ@;
    let enca = four(101, 110, 99, 97);
    let encv = four(101, 110, 99, 118);
    if t == enca || t == encv {
        match find_rec_spec(data, payload_at(e), box_end(e), four(102, 114, 109, 97)) {
            Some(f) => if box_end(f) - payload_at(f) >= 4 {
                data.subrange(payload_at(f), payload_at(f) + 4)
            } else if t == enca {
                four(97, 108, 97, 99)
            } else {
                t
            },
            None => if t == enca {
                four(97, 108, 97, 99)
            } else {
                t
            },
        }
    } else {
        t
    }
}

/// The boxes from `pos` that end by `end`, `sinf` boxes left out; the walk
/// stops at the first box past `end` or at the end of the data.
pub open spec fn kept_children(data: Seq<u8>, pos: int, end: int) -> Result<Seq<u8>, Seq<char>>
    decreases data.len() - pos,
{
    if pos < 0 {
        Ok(Seq::empty())
    } else {
        match read_box_spec(data, pos) {
            Err(m) => Err(m),
            Ok(None) => Ok(Seq::empty()),
            Ok(Some(c)) => if box_end(c) > end || !(pos < box_end(c) <= data.len()) {
                Ok(Seq::empty())
            } else {
                let here = if c.typ@ == four(115, 105, 110, 102) {
                    Seq::empty()
                } else {
                    data.subrange(c.start as int, box_end(c))
                };
                match kept_children(data, box_end(c), end) {
                    Ok(rest) => Ok(here + rest),
                    Err(m) => Err(m),
                }
            },
        }
    }
}

/// A sample entry without its protection: its fixed fields (28 bytes for
/// audio, 78 for video, all of an unknown entry), its child boxes but
/// `sinf`, under its original type.
pub open spec fn sanitize_entry_spec(data: Seq<u8>, e: Mp4Box) -> Result<Seq<u8>, Seq<char>> {
    let t = e.typ@;
    let fixed = if t == four(101, 110, 99, 97) || t == four(109, 112, 52, 97) || t == four(
        97,
        108,
        97,
        99,
    ) {
        28
    } else if t == four(101, 110, 99, 118) {
        78
    } else {
        box_end(e) - payload_at(e)
    };
    let fe = if payload_at(e) + fixed < box_end(e) {
        payload_at(e) + fixed
    } else {
        box_end(e)
    };
    match kept_children(data, fe, box_end(e)) {
        Err(m) => Err(m),
        Ok(rest) => Ok(box_bytes(entry_type_spec(data, e), data.subrange(payload_at(e), fe) + rest)),
    }
}

fn byte_range(v: &[u8], a: usize, b: usize) -> (r: Vec<u8>)
    requires
        a <= b <= v@.len(),
    ensures
        r@ == v@.subrange(a as int, b as int),
{
    let mut r: Vec<u8> = Vec::new();
    let mut i = a;
    while i < b
        invariant
            a <= i <= b,
            b <= v@.len(),
            r@ == v@.subrange(a as int, i as int),
        decreases b - i,
    {
        r.push(v[i]);
        i = i + 1;
        proof {
            assert(r@ =~= v@.subrange(a as int, i as int));
        }
    }
    r
}

fn append(out: &mut Vec<u8>, v: &[u8])
    ensures
        final(out)@ == old(out)@ + v@,
{
    let mut i: usize = 0;
    while i < v.len()
        invariant
            i <= v.len(),
            out@ == old(out)@ + v@.take(i as int),
        decreases v.len() - i,
    {
        out.push(v[i]);
        i = i + 1;
        proof {
            assert(out@ =~= old(out)@ + v@.take(i as int));
        }
    }
    proof {
        assert(v@.take(v.len() as int) =~= v@);
    }
}

pub(crate) fn type_is(t: &[u8; 4], a: u8, b: u8, c: u8, d: u8) -> (r: bool)
    ensures
        r == (t@ == four(a, b, c, d)),
{
    let r = t[0] == a && t[1] == b && t[2] == c && t[3] == d;
    proof {
        if r {
            assert(t@ =~= four(a, b, c, d));
        }
    }
    r
}

fn entry_type(data: &[u8], e: Mp4Box) -> (t: [u8; 4])
    requires
        box_in(data@, e),
    ensures
        t@ == entry_type_spec(data@, e),
{
    let dl = data.len();
    proof {
        assert(data@.len() == dl as int);
    }
    let enca = type_is(&e.typ, 101, 110, 99, 97);
    let encv = type_is(&e.typ, 101, 110, 99, 118);
    if !(enca || encv) {
        return e.typ;
    }
    let ps = e.start + e.header_size;
    let end = e.start + e.size;
    match find_box_recursive(data, ps, end, &[102u8, 114, 109, 97]) {
        Some(f) => {
            proof {
                lemma_found_box_bounds(data@, ps as int, end as int, four(102, 114, 109, 97));
            }
            let fp = f.start + f.header_size;
            let fe = f.start + f.size;
            if fe - fp >= 4 {
                let t = [data[fp], data[fp + 1], data[fp + 2], data[fp + 3]];
                proof {
                    assert(t@ =~= data@.subrange(fp as int, fp + 4));
                }
                t
            } else if enca {
                [97u8, 108, 97, 99]
            } else {
                e.typ
            }
        },
        None => {
            if enca {
                [97u8, 108, 97, 99]
            } else {
                e.typ
            }
        },
    }
}

fn kept_children_exec(data: &[u8], pos: usize, end: usize) -> (r: Result<Vec<u8>, BotError>)
    ensures
        match kept_children(data@, pos as int, end as int) {
            Ok(v) => r matches Ok(x) && x@ == v,
            Err(m) => r matches Err(BotError::Custom(e)) && e@ == m,
        },
{
    let mut out: Vec<u8> = Vec::new();
    let mut p = pos;
    loop
        invariant
            kept_children(data@, pos as int, end as int) == match kept_children(data@, p as int, end as int) {
                Ok(rest) => Ok(out@ + rest),
                Err(m) => Err(m),
            },
        decreases data.len() - p,
    {
        let c = match read_mp4_box(data, p) {
            Err(e) => {
                return Err(e);
            },
            Ok(None) => {
                proof {
                    assert(out@ + Seq::<u8>::empty() =~= out@);
                }
                return Ok(out);
            },
            Ok(Some(c)) => c,
        };
        proof {
            lemma_read_box_bounds(data@, p as int);
        }
        let ce = c.start + c.size;
        if ce > end {
            proof {
                assert(out@ + Seq::<u8>::empty() =~= out@);
            }
            return Ok(out);
        }
        let ghost before = out@;
        if !type_is(&c.typ, 115, 105, 110, 102) {
            let piece = byte_range(data, c.start, ce);
            append(&mut out, &piece);
        }
        proof {
            let here = if c.typ@ == four(115, 105, 110, 102) {
                Seq::<u8>::empty()
            } else {
                data@.subrange(c.start as int, ce as int)
            };
            assert(out@ == before + here);
            match kept_children(data@, ce as int, end as int) {
                Ok(rest) => {
                    assert(before + (here + rest) =~= out@ + rest);
                },
                Err(m) => {},
            }
        }
        p = ce;
    }
}

/// A sample entry without its protection.
pub fn sanitize_sample_entry(data: &[u8], entry: Mp4Box) -> (r: Result<Vec<u8>, BotError>)
    requires
        box_in(data@, entry),
    ensures
        match sanitize_entry_spec(data@, entry) {
            Ok(v) => r matches Ok(x) && x@ == v,
            Err(m) => r matches Err(BotError::Custom(e)) && e@ == m,
        },
{
    let dl = data.len();
    proof {
        assert(data@.len() == dl as int);
    }
    let typ = entry_type(data, entry);
    let ps = entry.start + entry.header_size;
    let end = entry.start + entry.size;
    let fixed: usize = if type_is(&entry.typ, 101, 110, 99, 97) || type_is(&entry.typ, 109, 112, 52, 97)
        || type_is(&entry.typ, 97, 108, 97, 99) {
        28
    } else if type_is(&entry.typ, 101, 110, 99, 118) {
        78
    } else {
        end - ps
    };
    let fe = if fixed < end - ps {
        ps + fixed
    } else {
        end
    };
    let mut payload = byte_range(data, ps, fe);
    match kept_children_exec(data, fe, end) {
        Err(e) => Err(e),
        Ok(rest) => {
            append(&mut payload, &rest);
            Ok(build_box(&typ, payload))
        },
    }
}

/// A sample description with its first entry sanitized; an error for a
/// description too short to hold one.
pub open spec fn sanitize_stsd_spec(data: Seq<u8>, s: Mp4Box) -> Result<Seq<u8>, Seq<char>> {
    if box_end(s) - payload_at(s) < 16 {
        Err("MP4 stsd truncated"@)
    } else {
        match read_box_spec(data, payload_at(s) + 8) {
            Err(m) => Err(m),
            Ok(None) => Err("MP4 stsd 缺少 sample entry"@),
            Ok(Some(e)) => match sanitize_entry_spec(data, e) {
                Err(m) => Err(m),
                Ok(x) => Ok(
                    box_bytes(
                        four(115, 116, 115, 100),
                        data.subrange(payload_at(s), payload_at(s) + 8) + x,
                    ),
                ),
            },
        }
    }
}

pub fn sanitize_stsd(data: &[u8], stsd: Mp4Box) -> (r: Result<Vec<u8>, BotError>)
    requires
        box_in(data@, stsd),
    ensures
        match sanitize_stsd_spec(data@, stsd) {
            Ok(v) => r matches Ok(x) && x@ == v,
            Err(m) => r matches Err(BotError::Custom(e)) && e@ == m,
        },
{
    let dl = data.len();
    proof {
        assert(data@.len() == dl as int);
    }
    let ps = stsd.start + stsd.header_size;
    let end = stsd.start + stsd.size;
    if end - ps < 16 {
        return Err(custom("MP4 stsd truncated"));
    }
    let entry = match read_mp4_box(data, ps + 8) {
        Err(e) => {
            return Err(e);
        },
        Ok(None) => {
            return Err(custom("MP4 stsd 缺少 sample entry"));
        },
        Ok(Some(e)) => e,
    };
    proof {
        lemma_read_box_bounds(data@, ps + 8);
    }
    let sanitized = match sanitize_sample_entry(data, entry) {
        Err(e) => {
            return Err(e);
        },
        Ok(x) => x,
    };
    let mut payload = byte_range(data, ps, ps + 8);
    append(&mut payload, &sanitized);
    Ok(build_box(&[115u8, 116, 115, 100], payload))
}

/// The sample table of the progressive file: the sanitized description,
/// then time-to-sample runs, one chunk, the sizes and one chunk offset
/// (set once the layout is known).
pub open spec fn stbl_spec(data: Seq<u8>, stbl: Mp4Box, samples: Seq<ProgressiveSample>) -> Result<
    Seq<u8>,
    Seq<char>,
> {
    match find_child_spec(data, payload_at(stbl), box_end(stbl), four(115, 116, 115, 100)) {
        None => Err("MP4 stbl 缺少 stsd"@),
        Some(sd) => match sanitize_stsd_spec(data, sd) {
            Err(m) => Err(m),
            Ok(x) => Ok(
                box_bytes(
                    four(115, 116, 98, 108),
                    x + box_bytes(
                        four(115, 116, 116, 115),
                        seq![0u8, 0, 0, 0] + be32_bytes(
                            duration_runs(sample_durations(samples)).len() as u32,
                        ) + run_bytes(duration_runs(sample_durations(samples))),
                    ) + box_bytes(
                        four(115, 116, 115, 99),
                        seq![0u8, 0, 0, 0] + be32_bytes(1) + be32_bytes(1) + be32_bytes(
                            samples.len() as u32,
                        ) + be32_bytes(1),
                    ) + box_bytes(
                        four(115, 116, 115, 122),
                        seq![0u8, 0, 0, 0] + be32_bytes(0) + be32_bytes(samples.len() as u32)
                            + u32s_bytes(sample_sizes(samples)),
                    ) + box_bytes(
                        four(115, 116, 99, 111),
                        seq![0u8, 0, 0, 0] + be32_bytes(1) + be32_bytes(0),
                    ),
                ),
            ),
        },
    }
}

pub fn build_progressive_stbl(data: &[u8], stbl: Mp4Box, samples: &[ProgressiveSample]) -> (r:
    Result<Vec<u8>, BotError>)
    requires
        box_in(data@, stbl),
        samples.len() <= u32::MAX,
    ensures
        match stbl_spec(data@, stbl, samples@) {
            Ok(v) => r matches Ok(x) && x@ == v,
            Err(m) => r matches Err(BotError::Custom(e)) && e@ == m,
        },
{
    let dl = data.len();
    proof {
        assert(data@.len() == dl as int);
    }
    let ps = stbl.start + stbl.header_size;
    let end = stbl.start + stbl.size;
    let stsd = match find_child_box(data, ps, end, &[115u8, 116, 115, 100]) {
        Some(b) => b,
        None => {
            return Err(custom("MP4 stbl 缺少 stsd"));
        },
    };
    proof {
        lemma_child_box_bounds(data@, ps as int, end as int, four(115, 116, 115, 100));
    }
    let mut payload = match sanitize_stsd(data, stsd) {
        Err(e) => {
            return Err(e);
        },
        Ok(x) => x,
    };
    let stts = build_stts(samples);
    append(&mut payload, &stts);
    let stsc = build_stsc(samples.len() as u32);
    append(&mut payload, &stsc);
    let stsz = build_stsz(samples);
    append(&mut payload, &stsz);
    let stco = build_stco(0);
    append(&mut payload, &stco);
    Ok(build_box(&[115u8, 116, 98, 108], payload))
}


/// The boxes rebuilt around their children.
pub open spec fn is_container(t: Seq<u8>) -> bool {
    t == four(109, 111, 111, 118) || t == four(116, 114, 97, 107) || t == four(109, 100, 105, 97)
        || t == four(109, 105, 110, 102)
}

/// The children a progressive file drops: the movie extends box of the
/// movie, the edit list of a track.
pub open spec fn dropped_child(parent: Seq<u8>, child: Seq<u8>) -> bool {
    (child == four(109, 118, 101, 120) && parent == four(109, 111, 111, 118)) || (child == four(
        101,
        100,
        116,
        115,
    ) && parent == four(116, 114, 97, 107))
}

/// A box of the movie as the progressive file has it: containers rebuilt
/// from their rewritten children, the sample table rebuilt from the
/// samples, the movie, media and track headers given the total durations,
/// any other box copied.
pub open spec fn rewrite_spec(
    data: Seq<u8>,
    b: Mp4Box,
    samples: Seq<ProgressiveSample>,
    media: u64,
    movie: u64,
) -> Result<Seq<u8>, Seq<char>>
    decreases b.size as int, data.len() + 1,
{
    let t = b.typ@;
    if !box_in(data, b) {
        Ok(Seq::empty())
    } else if is_container(t) {
        match children_spec(data, b, payload_at(b), samples, media, movie) {
            Ok(p) => Ok(box_bytes(t, p)),
            Err(m) => Err(m),
        }
    } else if t == four(115, 116, 98, 108) {
        stbl_spec(data, b, samples)
    } else if t == four(109, 118, 104, 100) {
        Ok(box_bytes(t, patch_duration_spec(data.subrange(payload_at(b), box_end(b)), movie, 16, 24)))
    } else if t == four(109, 100, 104, 100) {
        Ok(box_bytes(t, patch_duration_spec(data.subrange(payload_at(b), box_end(b)), media, 16, 24)))
    } else if t == four(116, 107, 104, 100) {
        Ok(box_bytes(t, patch_duration_spec(data.subrange(payload_at(b), box_end(b)), movie, 20, 28)))
    } else {
        Ok(data.subrange(b.start as int, box_end(b)))
    }
}

/// The rewritten children of a container from `pos`, dropped ones left
/// out; the walk stops at the first box past the container or at the end
/// of the data.
pub open spec fn children_spec(
    data: Seq<u8>,
    parent: Mp4Box,
    pos: int,
    samples: Seq<ProgressiveSample>,
    media: u64,
    movie: u64,
) -> Result<Seq<u8>, Seq<char>>
    decreases parent.size as int, box_end(parent) - pos,
{
    if !box_in(data, parent) || pos < payload_at(parent) {
        Ok(Seq::empty())
    } else {
        match read_box_spec(data, pos) {
            Err(m) => Err(m),
            Ok(None) => Ok(Seq::empty()),
            Ok(Some(c)) => if box_end(c) > box_end(parent) || c.start != pos || !(pos < box_end(c)) {
                Ok(Seq::empty())
            } else if dropped_child(parent.typ@, c.typ@) {
                children_spec(data, parent, box_end(c), samples, media, movie)
            } else {
                match rewrite_spec(data, c, samples, media, movie) {
                    Err(m) => Err(m),
                    Ok(x) => match children_spec(data, parent, box_end(c), samples, media, movie) {
                        Ok(rest) => Ok(x + rest),
                        Err(m) => Err(m),
                    },
                }
            },
        }
    }
}

/// A box rewritten for the progressive file (the statement of
/// `rewrite_spec`, kept folded where it is not needed).
#[verifier::opaque]
pub open spec fn rewritten(
    data: Seq<u8>,
    b: Mp4Box,
    samples: Seq<ProgressiveSample>,
    media: u64,
    movie: u64,
) -> Result<Seq<u8>, Seq<char>> {
    rewrite_spec(data, b, samples, media, movie)
}

proof fn lemma_children_step(
    data: Seq<u8>,
    parent: Mp4Box,
    pos: int,
    samples: Seq<ProgressiveSample>,
    media: u64,
    movie: u64,
)
    requires
        box_in(data, parent),
        pos >= payload_at(parent),
    ensures
        children_spec(data, parent, pos, samples, media, movie) == match read_box_spec(data, pos) {
            Err(m) => Err(m),
            Ok(None) => Ok(Seq::empty()),
            Ok(Some(c)) => if box_end(c) > box_end(parent) || c.start != pos || !(pos < box_end(c)) {
                Ok(Seq::empty())
            } else if dropped_child(parent.typ@, c.typ@) {
                children_spec(data, parent, box_end(c), samples, media, movie)
            } else {
                match rewrite_spec(data, c, samples, media, movie) {
                    Err(m) => Err(m),
                    Ok(x) => match children_spec(data, parent, box_end(c), samples, media, movie) {
                        Ok(rest) => Ok(x + rest),
                        Err(m) => Err(m),
                    },
                }
            },
        },
{
    match read_box_spec(data, pos) {
        Err(m) => {
            assert(children_spec(data, parent, pos, samples, media, movie) == Err::<Seq<u8>, Seq<char>>(m));
        },
        Ok(None) => {
            assert(children_spec(data, parent, pos, samples, media, movie) == Ok::<Seq<u8>, Seq<char>>(Seq::empty()));
        },
        Ok(Some(c)) => {
            if box_end(c) > box_end(parent) || c.start != pos || !(pos < box_end(c)) {
                assert(children_spec(data, parent, pos, samples, media, movie) == Ok::<Seq<u8>, Seq<char>>(Seq::empty()));
            } else if dropped_child(parent.typ@, c.typ@) {
                assert(children_spec(data, parent, pos, samples, media, movie) == children_spec(data, parent, box_end(c), samples, media, movie));
            } else {
                assert(children_spec(data, parent, pos, samples, media, movie) == match rewrite_spec(data, c, samples, media, movie) {
                    Err(m) => Err(m),
                    Ok(x) => match children_spec(data, parent, box_end(c), samples, media, movie) {
                        Ok(rest) => Ok(x + rest),
                        Err(m) => Err(m),
                    },
                });
            }
        },
    }
}

/// The rewritten children of a container.
#[verifier::spinoff_prover]
#[verifier::rlimit(50)]
fn rewrite_children(
    data: &[u8],
    parent: Mp4Box,
    samples: &[ProgressiveSample],
    total_media_duration: u64,
    total_movie_duration: u64,
) -> (r: Result<Vec<u8>, BotError>)
    requires
        box_in(data@, parent),
        samples.len() <= u32::MAX,
    ensures
        match children_spec(data@, parent, payload_at(parent), samples@, total_media_duration, total_movie_duration) {
            Ok(v) => r matches Ok(x) && x@ == v,
            Err(m) => r matches Err(BotError::Custom(e)) && e@ == m,
        },
    decreases parent.size as int, data@.len(),
{
    let dl = data.len();
    proof {
        assert(data@.len() == dl as int);
    }
    let ps = parent.start + parent.header_size;
    let end = parent.start + parent.size;
    let mut payload: Vec<u8> = Vec::new();
    let mut pos = ps;
    let ghost whole = children_spec(data@, parent, ps as int, samples@, total_media_duration, total_movie_duration);
    loop
        invariant
            box_in(data@, parent),
            samples.len() <= u32::MAX,
            ps == parent.start + parent.header_size,
            end == parent.start + parent.size,
            ps <= pos,
            data@.len() == dl,
            whole == children_spec(data@, parent, ps as int, samples@, total_media_duration, total_movie_duration),
            whole == match children_spec(
                data@,
                parent,
                pos as int,
                samples@,
                total_media_duration,
                total_movie_duration,
            ) {
                Ok(rest) => Ok(payload@ + rest),
                Err(m) => Err(m),
            },
        decreases end - pos,
    {
        proof {
            lemma_children_step(data@, parent, pos as int, samples@, total_media_duration, total_movie_duration);
            reveal(rewritten);
        }
        let child = match read_mp4_box(data, pos) {
            Err(e) => {
                return Err(e);
            },
            Ok(None) => {
                proof {
                    assert(payload@ + Seq::<u8>::empty() =~= payload@);
                }
                return Ok(payload);
            },
            Ok(Some(c)) => c,
        };
        proof {
            lemma_read_box_bounds(data@, pos as int);
        }
        let ce = child.start + child.size;
        if ce > end {
            proof {
                assert(payload@ + Seq::<u8>::empty() =~= payload@);
            }
            return Ok(payload);
        }
        let ghost before = payload@;
        let t = &parent.typ;
        let drop = (type_is(&child.typ, 109, 118, 101, 120) && type_is(t, 109, 111, 111, 118)) || (
        type_is(&child.typ, 101, 100, 116, 115) && type_is(t, 116, 114, 97, 107));
        if !drop {
            let x = match rewrite_box_for_progressive(
                data,
                child,
                samples,
                total_media_duration,
                total_movie_duration,
            ) {
                Err(e) => {
                    return Err(e);
                },
                Ok(x) => x,
            };
            append(&mut payload, &x);
            proof {
                match children_spec(data@, parent, ce as int, samples@, total_media_duration, total_movie_duration) {
                    Ok(rest) => {
                        assert(before + (x@ + rest) =~= payload@ + rest);
                    },
                    Err(m) => {},
                }
            }
        }
        pos = ce;
    }
}

pub fn rewrite_box_for_progressive(
    data: &[u8],
    box_info: Mp4Box,
    samples: &[ProgressiveSample],
    total_media_duration: u64,
    total_movie_duration: u64,
) -> (r: Result<Vec<u8>, BotError>)
    requires
        box_in(data@, box_info),
        samples.len() <= u32::MAX,
    ensures
        match rewritten(data@, box_info, samples@, total_media_duration, total_movie_duration) {
            Ok(v) => r matches Ok(x) && x@ == v,
            Err(m) => r matches Err(BotError::Custom(e)) && e@ == m,
        },
    decreases box_info.size as int, data@.len() + 1,
{
    let dl = data.len();
    proof {
        assert(data@.len() == dl as int);
        reveal(rewritten);
    }
    let t = &box_info.typ;
    let ps = box_info.start + box_info.header_size;
    let end = box_info.start + box_info.size;
    if type_is(t, 109, 111, 111, 118) || type_is(t, 116, 114, 97, 107) || type_is(t, 109, 100, 105, 97)
        || type_is(t, 109, 105, 110, 102) {
        match rewrite_children(data, box_info, samples, total_media_duration, total_movie_duration) {
            Err(e) => Err(e),
            Ok(payload) => Ok(build_box(t, payload)),
        }
    } else if type_is(t, 115, 116, 98, 108) {
        build_progressive_stbl(data, box_info, samples)
    } else if type_is(t, 109, 118, 104, 100) {
        let mut payload = byte_range(data, ps, end);
        patch_mvhd_duration(&mut payload, total_movie_duration);
        Ok(build_box(t, payload))
    } else if type_is(t, 109, 100, 104, 100) {
        let mut payload = byte_range(data, ps, end);
        patch_mdhd_duration(&mut payload, total_media_duration);
        Ok(build_box(t, payload))
    } else if type_is(t, 116, 107, 104, 100) {
        let mut payload = byte_range(data, ps, end);
        patch_tkhd_duration(&mut payload, total_movie_duration);
        Ok(build_box(t, payload))
    } else {
        Ok(byte_range(data, box_info.start, end))
    }
}


/// The `ftyp` and `moov` boxes a fragmented file must have.
pub open spec fn init_boxes_spec(data: Seq<u8>) -> Result<(Mp4Box, Mp4Box), Seq<char>> {
    match find_child_spec(data, 0, data.len() as int, four(102, 116, 121, 112)) {
        None => Err("MP4 缺少 ftyp"@),
        Some(f) => match find_child_spec(data, 0, data.len() as int, four(109, 111, 111, 118)) {
            None => Err("MP4 缺少 moov"@),
            Some(m) => Ok((f, m)),
        },
    }
}

pub fn progressive_init_boxes(data: &[u8]) -> (r: Result<(Mp4Box, Mp4Box), BotError>)
    ensures
        match init_boxes_spec(data@) {
            Ok(v) => r == Ok::<(Mp4Box, Mp4Box), BotError>(v) && box_in(data@, v.0) && box_in(data@, v.1),
            Err(m) => r matches Err(BotError::Custom(e)) && e@ == m,
        },
{
    let dl = data.len();
    proof {
        assert(data@.len() == dl as int);
    }
    let ftyp = match find_child_box(data, 0, dl, &[102u8, 116, 121, 112]) {
        Some(b) => b,
        None => {
            return Err(custom("MP4 缺少 ftyp"));
        },
    };
    let moov = match find_child_box(data, 0, dl, &[109u8, 111, 111, 118]) {
        Some(b) => b,
        None => {
            return Err(custom("MP4 缺少 moov"));
        },
    };
    proof {
        lemma_child_box_bounds(data@, 0, dl as int, four(102, 116, 121, 112));
        lemma_child_box_bounds(data@, 0, dl as int, four(109, 111, 111, 118));
    }
    Ok((ftyp, moov))
}

/// The time scale of the first header of the type inside the movie, or
/// the fallback.
pub open spec fn header_timescale(data: Seq<u8>, moov: Mp4Box, typ: Seq<u8>, fallback: u32) -> u32 {
    match find_rec_spec(data, payload_at(moov), box_end(moov), typ) {
        Some(b) => match timescale_spec(data.subrange(payload_at(b), box_end(b))) {
            Some(t) => t,
            None => fallback,
        },
        None => fallback,
    }
}

pub open spec fn sum_durations(samples: Seq<ProgressiveSample>) -> nat
    decreases samples.len(),
{
    if samples.len() == 0 {
        0
    } else {
        sum_durations(samples.drop_last()) + samples.last().duration as nat
    }
}

pub open spec fn samples_bytes(samples: Seq<ProgressiveSample>) -> Seq<u8>
    decreases samples.len(),
{
    if samples.len() == 0 {
        Seq::empty()
    } else {
        samples_bytes(samples.drop_last()) + samples.last().data@
    }
}

/// The movie duration of a media duration: scaled from the media time
/// scale to the movie's (the product saturating), or unchanged with a media
/// time scale of zero.
pub open spec fn movie_duration(media: int, movie_ts: u32, media_ts: u32) -> int {
    if media_ts > 0 {
        let p = media * movie_ts;
        (if p > u64::MAX {
            u64::MAX as int
        } else {
            p
        }) / media_ts as int
    } else {
        media
    }
}

/// The progressive file built with the given media and movie durations:
/// the `ftyp` box, the movie box rewritten with them (its chunk offset
/// pointing past itself), and one `mdat` box holding the samples in order;
/// an error when the movie box does not rewrite.
pub open spec fn progressive_with(
    data: Seq<u8>,
    ftyp: Mp4Box,
    moov: Mp4Box,
    samples: Seq<ProgressiveSample>,
    media: int,
    movie: int,
) -> Result<Seq<u8>, Seq<char>> {
    match rewritten(data, moov, samples, media as u64, movie as u64) {
        Err(m) => Err(m),
        Ok(mv) => {
            let ftyp_bytes = data.subrange(ftyp.start as int, box_end(ftyp));
            let offset = (ftyp_bytes.len() + mv.len() + 8) as u32;
            match patch_stco_spec(mv, offset) {
                Err(m) => Err(m),
                Ok(mv2) => {
                    let body = samples_bytes(samples);
                    Ok(ftyp_bytes + mv2 + be32_bytes((body.len() + 8) as u32) + four(109, 100, 97, 116) + body)
                },
            }
        },
    }
}

/// The progressive file of a fragmented one and its samples, the media
/// duration the sum of the samples' and the movie duration that scaled to
/// the movie time scale; an error without samples.
pub open spec fn progressive_spec(data: Seq<u8>, ftyp: Mp4Box, moov: Mp4Box, samples: Seq<ProgressiveSample>) -> Result<
    Seq<u8>,
    Seq<char>,
> {
    if samples.len() == 0 {
        Err("MP4 fragments 没有 samples"@)
    } else {
        let movie_ts = header_timescale(data, moov, four(109, 118, 104, 100), 1000);
        let media_ts = header_timescale(data, moov, four(109, 100, 104, 100), movie_ts);
        let media = sum_durations(samples) as int;
        progressive_with(data, ftyp, moov, samples, media, movie_duration(media, movie_ts, media_ts))
    }
}

proof fn lemma_floor_unique(p: int, d: int, m: int)
    requires
        d > 0,
        m * d <= p < (m + 1) * d,
    ensures
        p / d == m,
{
    assert(p / d == m) by (nonlinear_arith)
        requires
            d > 0,
            m * d <= p,
            p < (m + 1) * d,
    ;
}

/// Converting a duration keeps its time: with a media time scale, the
/// movie duration times the media time scale is the media duration times
/// the movie time scale, rounded down to a whole movie unit (while that
/// product fits in 64 bits); without one the duration is kept.
pub proof fn lemma_movie_duration_keeps_time(media: int, movie_ts: u32, media_ts: u32)
    requires
        0 <= media,
    ensures
        media_ts > 0 && media * movie_ts <= u64::MAX ==> movie_duration(media, movie_ts, media_ts)
            * media_ts <= media * movie_ts < (movie_duration(media, movie_ts, media_ts) + 1) * media_ts,
        media_ts == 0 ==> movie_duration(media, movie_ts, media_ts) == media,
{
    if media_ts > 0 && media * movie_ts <= u64::MAX {
        let p = media * movie_ts;
        let d = media_ts as int;
        assert((p / d) * d <= p < (p / d + 1) * d) by (nonlinear_arith)
            requires
                d > 0,
                p >= 0,
        ;
    }
}

/// The progressive movie plays as long as the fragments: its movie
/// duration is the sum of the sample durations converted from the media
/// time scale (the `mdhd`'s, else the movie's) to the movie time scale (the
/// `mvhd`'s, else 1000), rounded down; with a media time scale of zero the
/// sum itself.
pub proof fn lemma_progressive_movie_duration(
    data: Seq<u8>,
    ftyp: Mp4Box,
    moov: Mp4Box,
    samples: Seq<ProgressiveSample>,
    m: int,
)
    requires
        samples.len() > 0,
    ensures
        ({
            let movie_ts = header_timescale(data, moov, four(109, 118, 104, 100), 1000);
            let media_ts = header_timescale(data, moov, four(109, 100, 104, 100), movie_ts);
            let media = sum_durations(samples) as int;
            &&& (media_ts > 0 && media * movie_ts <= u64::MAX && m * media_ts <= media * movie_ts < (m
                + 1) * media_ts) ==> progressive_spec(data, ftyp, moov, samples) == progressive_with(
                data,
                ftyp,
                moov,
                samples,
                media,
                m,
            )
            &&& media_ts == 0 ==> progressive_spec(data, ftyp, moov, samples) == progressive_with(
                data,
                ftyp,
                moov,
                samples,
                media,
                media,
            )
        }),
{
    let movie_ts = header_timescale(data, moov, four(109, 118, 104, 100), 1000);
    let media_ts = header_timescale(data, moov, four(109, 100, 104, 100), movie_ts);
    let media = sum_durations(samples) as int;
    if media_ts > 0 && media * movie_ts <= u64::MAX && m * media_ts <= media * movie_ts < (m + 1)
        * media_ts {
        lemma_floor_unique(media * movie_ts, media_ts as int, m);
    }
}

fn timescale_of(data: &[u8], moov: Mp4Box, typ: &[u8; 4], fallback: u32) -> (r: u32)
    requires
        box_in(data@, moov),
    ensures
        r == header_timescale(data@, moov, typ@, fallback),
{
    let dl = data.len();
    proof {
        assert(data@.len() == dl as int);
    }
    let ps = moov.start + moov.header_size;
    let end = moov.start + moov.size;
    match find_box_recursive(data, ps, end, typ) {
        Some(b) => {
            proof {
                lemma_found_box_bounds(data@, ps as int, end as int, typ@);
            }
            let payload = byte_range(data, b.start + b.header_size, b.start + b.size);
            match parse_mvhd_timescale(&payload) {
                Some(t) => t,
                None => fallback,
            }
        },
        None => fallback,
    }
}

fn total_duration(samples: &[ProgressiveSample]) -> (r: u64)
    requires
        samples.len() <= u32::MAX,
    ensures
        r == sum_durations(samples@),
{
    let mut media: u64 = 0;
    let mut i: usize = 0;
    while i < samples.len()
        invariant
            i <= samples.len(),
            samples.len() <= u32::MAX,
            media == sum_durations(samples@.take(i as int)),
            media <= i * 0x1_0000_0000,
        decreases samples.len() - i,
    {
        proof {
            assert(samples@.take(i + 1).drop_last() =~= samples@.take(i as int));
        }
        media = media + samples[i].duration as u64;
        i = i + 1;
    }
    proof {
        assert(samples@.take(samples.len() as int) =~= samples@);
    }
    media
}

fn scaled_duration(media: u64, movie_ts: u32, media_ts: u32) -> (r: u64)
    ensures
        r == movie_duration(media as int, movie_ts, media_ts),
{
    if media_ts > 0 {
        proof {
            assert((media as int) * (movie_ts as int) <= 0xffff_ffff_ffff_ffff * 0xffff_ffff) by (nonlinear_arith)
                requires
                    0 <= media <= 0xffff_ffff_ffff_ffff,
                    0 <= movie_ts <= 0xffff_ffff,
            ;
        }
        let p: u128 = media as u128 * movie_ts as u128;
        let capped: u64 = if p > u64::MAX as u128 {
            u64::MAX
        } else {
            p as u64
        };
        capped / media_ts as u64
    } else {
        media
    }
}

fn all_sample_bytes(samples: &[ProgressiveSample]) -> (r: Vec<u8>)
    ensures
        r@ == samples_bytes(samples@),
{
    let mut body: Vec<u8> = Vec::new();
    let mut k: usize = 0;
    while k < samples.len()
        invariant
            k <= samples.len(),
            body@ == samples_bytes(samples@.take(k as int)),
        decreases samples.len() - k,
    {
        proof {
            assert(samples@.take(k + 1).drop_last() =~= samples@.take(k as int));
        }
        append(&mut body, samples[k].data.as_slice());
        k = k + 1;
    }
    proof {
        assert(samples@.take(samples.len() as int) =~= samples@);
    }
    body
}

/// The progressive file: `ftyp`, the rewritten `moov`, then one `mdat` of
/// the samples. At most `u32::MAX` samples, the
/// limit of the 32-bit run counts of the time-to-sample box (and of the
/// 64-bit duration sum of 32-bit durations).
pub fn assemble_progressive(data: &[u8], ftyp: Mp4Box, moov: Mp4Box, samples: &[ProgressiveSample]) -> (r: Result<
    Vec<u8>,
    BotError,
>)
    requires
        box_in(data@, ftyp),
        box_in(data@, moov),
        samples.len() <= u32::MAX,
    ensures
        match progressive_spec(data@, ftyp, moov, samples@) {
            Ok(v) => r matches Ok(x) && x@ == v,
            Err(m) => r matches Err(BotError::Custom(e)) && e@ == m,
        },
{
    let dl = data.len();
    proof {
        assert(data@.len() == dl as int);
    }
    if samples.len() == 0 {
        return Err(custom("MP4 fragments 没有 samples"));
    }
    let movie_ts = timescale_of(data, moov, &[109u8, 118, 104, 100], 1000);
    let media_ts = timescale_of(data, moov, &[109u8, 100, 104, 100], movie_ts);
    let media = total_duration(samples);
    let movie = scaled_duration(media, movie_ts, media_ts);
    let mut moov_bytes = match rewrite_box_for_progressive(data, moov, samples, media, movie) {
        Err(e) => {
            return Err(e);
        },
        Ok(v) => v,
    };
    let ftyp_bytes = byte_range(data, ftyp.start, ftyp.start + ftyp.size);
    let offset_wide: u128 = ftyp_bytes.len() as u128 + moov_bytes.len() as u128 + 8;
    let offset: u32 = #[verifier::truncate] (offset_wide as u32);
    match patch_first_stco_offset(&mut moov_bytes, offset) {
        Err(e) => {
            return Err(e);
        },
        Ok(()) => {},
    }
    let body = all_sample_bytes(samples);
    let mut out = ftyp_bytes;
    append(&mut out, &moov_bytes);
    let size_wide: u128 = body.len() as u128 + 8;
    let size: u32 = #[verifier::truncate] (size_wide as u32);
    push_be32(&mut out, size);
    out.push(109);
    out.push(100);
    out.push(97);
    out.push(116);
    append(&mut out, &body);
    proof {
        assert(out@ =~= data@.subrange(ftyp.start as int, box_end(ftyp)) + moov_bytes@ + be32_bytes(
            (body@.len() + 8) as u32,
        ) + four(109, 100, 97, 116) + body@);
    }
    Ok(out)
}

} // verus!
