//! Reading and writing the boxes of an MP4 file: box headers, the search
//! for a box among siblings or through containers, the track fragment
//! headers and runs, and the sample tables of a progressive file.
use vstd::prelude::*;
use crate::error::BotError;

verus! {

/// Big-endian value of `n` bytes from `pos`.
pub open spec fn be_value(b: Seq<u8>, pos: int, n: nat) -> nat
    decreases n,
{
    if n == 0 {
        0
    } else {
        be_value(b, pos, (n - 1) as nat) * 256 + b[pos + n - 1] as nat
    }
}

/// A big-endian `u32` of the four bytes at `pos`, which are there.
pub fn read_be32(b: &[u8], pos: usize) -> (r: u32)
    requires
        pos + 4 <= b.len(),
    ensures
        r == be_value(b@, pos as int, 4),
{
    proof {
        reveal_with_fuel(be_value, 5);
    }
    (b[pos] as u32) * 16777216 + (b[pos + 1] as u32) * 65536 + (b[pos + 2] as u32) * 256 + (b[pos
        + 3] as u32)
}

/// A big-endian `u64` of the eight bytes at `pos`, which are there.
pub fn read_be64(b: &[u8], pos: usize) -> (r: u64)
    requires
        pos + 8 <= b.len(),
    ensures
        r == be_value(b@, pos as int, 8),
{
    let mut v: u64 = 0;
    let mut k: usize = 0;
    while k < 8
        invariant
            k <= 8,
            pos + 8 <= b.len(),
            v == be_value(b@, pos as int, k as nat),
            v < crate::zip::pow256(k as nat),
        decreases 8 - k,
    {
        proof {
            reveal_with_fuel(crate::zip::pow256, 9);
            assert(crate::zip::pow256((k + 1) as nat) == 256 * crate::zip::pow256(k as nat));
            assert(crate::zip::pow256(8) == 0x1_0000_0000_0000_0000);
            assert(crate::zip::pow256((k + 1) as nat) <= crate::zip::pow256(8)) by {
                lemma_pow256_le((k + 1) as nat, 8);
            }
        }
        v = v * 256 + b[pos + k] as u64;
        k = k + 1;
    }
    v
}

proof fn lemma_pow256_le(a: nat, b: nat)
    requires
        a <= b,
    ensures
        crate::zip::pow256(a) <= crate::zip::pow256(b),
    decreases b,
{
    if a < b {
        lemma_pow256_le(a, (b - 1) as nat);
    }
}

/// The four big-endian bytes of a `u32`.
pub open spec fn be32_bytes(v: u32) -> Seq<u8> {
    seq![(v / 16777216) as u8, (v / 65536 % 256) as u8, (v / 256 % 256) as u8, (v % 256) as u8]
}

/// The eight big-endian bytes of a `u64`.
pub open spec fn be64_bytes(v: u64) -> Seq<u8> {
    be32_bytes((v / 0x1_0000_0000) as u32) + be32_bytes((v % 0x1_0000_0000) as u32)
}

pub fn push_be32(out: &mut Vec<u8>, v: u32)
    ensures
        final(out)@ == old(out)@ + be32_bytes(v),
{
    out.push((v / 16777216) as u8);
    out.push((v / 65536 % 256) as u8);
    out.push((v / 256 % 256) as u8);
    out.push((v % 256) as u8);
    proof {
        assert(final(out)@ =~= old(out)@ + be32_bytes(v));
    }
}

pub fn push_be64(out: &mut Vec<u8>, v: u64)
    ensures
        final(out)@ == old(out)@ + be64_bytes(v),
{
    let ghost o = out@;
    push_be32(out, (v / 0x1_0000_0000) as u32);
    push_be32(out, (v % 0x1_0000_0000) as u32);
    proof {
        assert(out@ =~= o + be64_bytes(v));
    }
}

proof fn lemma_be32_roundtrip(v: u32)
    ensures
        be_value(be32_bytes(v), 0, 4) == v,
{
    reveal_with_fuel(be_value, 5);
    let b = be32_bytes(v);
    assert(b[0] as nat == v / 16777216);
    assert(b[1] as nat == v / 65536 % 256);
    assert(b[2] as nat == v / 256 % 256);
    assert(b[3] as nat == v % 256);
    assert((((v / 16777216) * 256 + v / 65536 % 256) * 256 + v / 256 % 256) * 256 + v % 256 == v)
        by (nonlinear_arith);
}

/// An MP4 box: where it starts, its header and total sizes, and its type.
#[derive(Clone, Copy, Debug, PartialEq, Eq)]
pub struct Mp4Box {
    pub start: usize,
    pub header_size: usize,
    pub size: usize,
    pub typ: [u8; 4],
}

impl Mp4Box {
    pub fn payload_start(self) -> (r: usize)
        requires
            self.start + self.header_size <= usize::MAX,
        ensures
            r == self.start + self.header_size,
    {
        self.start + self.header_size
    }

    pub fn end(self) -> (r: usize)
        requires
            self.start + self.size <= usize::MAX,
        ensures
            r == self.start + self.size,
    {
        self.start + self.size
    }
}

/// The text of bytes read as UTF-8, invalid sequences replaced
/// (`String::from_utf8_lossy`).
pub uninterp spec fn lossy_text(b: Seq<u8>) -> Seq<char>;

/// `String::from_utf8_lossy`, made an owned `String`: the bytes decoded as
/// UTF-8 with each invalid sequence replaced by U+FFFD; ASCII bytes are
/// the characters of the same numbers.
#[verifier::external_body]
fn lossy_string(b: &[u8]) -> (r: String)
    ensures
        r@ == lossy_text(b@),
        (forall|i: int| 0 <= i < b@.len() ==> b@[i] < 128) ==> r@ == b@.map_values(
            |x: u8| x as char,
        ),
{
    String::from_utf8_lossy(b).into_owned()
}

/// What the header at `start` reads as: nothing at or past the end, an
/// error for a header or box that does not fit, else the box. A size field
/// of 1 is followed by a 64-bit size; 0 means "to the end of the data".
pub open spec fn read_box_spec(data: Seq<u8>, start: int) -> Result<Option<Mp4Box>, Seq<char>> {
    if start >= data.len() {
        Ok(None)
    } else if start + 8 > data.len() {
        Err("MP4 box header truncated"@)
    } else {
        let size32 = be_value(data, start, 4);
        let typ = data.subrange(start + 4, start + 8);
        if size32 == 1 && start + 16 > data.len() {
            Err("MP4 largesize header truncated"@)
        } else {
            let (size, header) = if size32 == 1 {
                ((be_value(data, start + 8, 8) as u64) as usize as int, 16int)
            } else if size32 == 0 {
                (data.len() - start, 8int)
            } else {
                (size32 as int, 8int)
            };
            if size < header || start + size > data.len() {
                Err("MP4 box "@ + lossy_text(typ) + " size invalid"@)
            } else {
                Ok(
                    Some(
                        Mp4Box {
                            start: start as usize,
                            header_size: header as usize,
                            size: size as usize,
                            typ: [typ[0], typ[1], typ[2], typ[3]],
                        },
                    ),
                )
            }
        }
    }
}

/// Whether the result is what the spec gives, an error by its message.
pub open spec fn box_result_is(
    r: Result<Option<Mp4Box>, BotError>,
    s: Result<Option<Mp4Box>, Seq<char>>,
) -> bool {
    match s {
        Ok(v) => r == Ok::<Option<Mp4Box>, BotError>(v),
        Err(m) => r matches Err(BotError::Custom(e)) && e@ == m,
    }
}

pub fn read_mp4_box(data: &[u8], start: usize) -> (r: Result<Option<Mp4Box>, BotError>)
    ensures
        box_result_is(r, read_box_spec(data@, start as int)),
{
    if start >= data.len() {
        return Ok(None);
    }
    if data.len() - start < 8 {
        return Err(BotError::Custom(String::from_str("MP4 box header truncated")));
    }
    let size32 = read_be32(data, start);
    let typ: [u8; 4] = [data[start + 4], data[start + 5], data[start + 6], data[start + 7]];
    let mut size: usize = size32 as usize;
    let mut header_size: usize = 8;
    if size32 == 1 {
        if data.len() - start < 16 {
            return Err(BotError::Custom(String::from_str("MP4 largesize header truncated")));
        }
        size = read_be64(data, start + 8) as usize;
        header_size = 16;
    } else if size32 == 0 {
        size = data.len() - start;
    }
    if size < header_size || size > data.len() - start {
        let mut m = String::from_str("MP4 box ");
        let t = lossy_string(typ.as_slice());
        crate::text::push_str(&mut m, t.as_str());
        crate::text::push_str(&mut m, " size invalid");
        proof {
            assert(typ@ =~= data@.subrange(start + 4, start + 8));
        }
        return Err(BotError::Custom(m));
    }
    proof {
        assert(typ@ =~= data@.subrange(start + 4, start + 8));
        let t = data@.subrange(start + 4, start + 8);
        assert(typ =~= [t[0], t[1], t[2], t[3]]);
    }
    Ok(Some(Mp4Box { start, header_size, size, typ }))
}

} // verus!

verus! {

/// The first box of the type among the siblings from `pos` up to `end`;
/// the walk stops at a header that does not read.
pub open spec fn find_child_spec(data: Seq<u8>, pos: int, end: int, typ: Seq<u8>) -> Option<
    Mp4Box,
>
    decreases data.len() - pos,
{
    if pos < 0 || pos + 8 > end {
        None
    } else {
        match read_box_spec(data, pos) {
            Ok(Some(b)) => if b.typ@ == typ {
                Some(b)
            } else if pos < b.start + b.size <= data.len() {
                find_child_spec(data, b.start + b.size, end, typ)
            } else {
                None
            },
            _ => None,
        }
    }
}

pub proof fn lemma_read_box_bounds(data: Seq<u8>, pos: int)
    requires
        0 <= pos,
        data.len() <= usize::MAX,
        read_box_spec(data, pos) matches Ok(Some(_)),
    ensures
        ({
            let b = read_box_spec(data, pos)->Ok_0.unwrap();
            &&& b.start == pos
            &&& b.header_size == 8 || b.header_size == 16
            &&& b.header_size <= b.size
            &&& pos + b.size <= data.len()
        }),
{
}

/// A sibling found lies within the data, its header within it.
pub proof fn lemma_child_box_bounds(data: Seq<u8>, pos: int, end: int, typ: Seq<u8>)
    requires
        data.len() <= usize::MAX,
        0 <= pos,
        find_child_spec(data, pos, end, typ) is Some,
    ensures
        ({
            let b = find_child_spec(data, pos, end, typ).unwrap();
            &&& 8 <= b.header_size <= b.size
            &&& b.start + b.size <= data.len()
            &&& b.typ@ == typ
        }),
    decreases data.len() - pos,
{
    lemma_read_box_bounds(data, pos);
    let b = read_box_spec(data, pos)->Ok_0.unwrap();
    if b.typ@ != typ {
        lemma_child_box_bounds(data, b.start + b.size, end, typ);
    }
}

pub fn find_child_box(data: &[u8], start: usize, end: usize, typ: &[u8; 4]) -> (r: Option<Mp4Box>)
    ensures
        r == find_child_spec(data@, start as int, end as int, typ@),
{
    let mut pos = start;
    while pos <= end && end - pos >= 8
        invariant
            find_child_spec(data@, pos as int, end as int, typ@) == find_child_spec(
                data@,
                start as int,
                end as int,
                typ@,
            ),
        decreases data.len() - pos,
    {
        let b = match read_mp4_box(data, pos) {
            Ok(Some(b)) => b,
            _ => return None,
        };
        proof {
            lemma_read_box_bounds(data@, pos as int);
        }
        if b.typ[0] == typ[0] && b.typ[1] == typ[1] && b.typ[2] == typ[2] && b.typ[3] == typ[3] {
            proof {
                assert(b.typ@ =~= typ@);
            }
            return Some(b);
        }
        proof {
            assert(b.typ@ != typ@) by {
                if b.typ@ == typ@ {
                    assert(b.typ@[0] == typ@[0]);
                    assert(b.typ@[1] == typ@[1]);
                    assert(b.typ@[2] == typ@[2]);
                    assert(b.typ@[3] == typ@[3]);
                }
            }
        }
        pos = b.end();
    }
    None
}

/// How far into its payload the children of a container box start, for
/// the containers the search walks into: `stsd` after its entry count,
/// audio sample entries after their fixed fields, `encv` after its own, and
/// the plain containers at once.
pub open spec fn child_offset_spec(t: Seq<u8>) -> Option<int> {
    if t == seq![115u8, 116, 115, 100] {
        Some(8)
    } else if t == seq![101u8, 110, 99, 97] || t == seq![109u8, 112, 52, 97] || t == seq![
        97u8,
        108,
        97,
        99,
    ] {
        Some(28)
    } else if t == seq![101u8, 110, 99, 118] {
        Some(78)
    } else if container_type(t) {
        Some(0)
    } else {
        None
    }
}

/// `moov`, `trak`, `mdia`, `minf`, `stbl`, `sinf`, `schi`, `moof`, `traf`.
pub open spec fn container_type(t: Seq<u8>) -> bool {
    t == seq![109u8, 111, 111, 118] || t == seq![116u8, 114, 97, 107] || t == seq![
        109u8,
        100,
        105,
        97,
    ] || t == seq![109u8, 105, 110, 102] || t == seq![115u8, 116, 98, 108] || t == seq![
        115u8,
        105,
        110,
        102,
    ] || t == seq![115u8, 99, 104, 105] || t == seq![109u8, 111, 111, 102] || t == seq![
        116u8,
        114,
        97,
        102,
    ]
}

fn is_type(t: &[u8; 4], a: u8, b: u8, c: u8, d: u8) -> (r: bool)
    ensures
        r == (t@ == seq![a, b, c, d]),
{
    let r = t[0] == a && t[1] == b && t[2] == c && t[3] == d;
    proof {
        if r {
            assert(t@ =~= seq![a, b, c, d]);
        } else if t@ == seq![a, b, c, d] {
            assert(t@[0] == a && t@[1] == b && t@[2] == c && t@[3] == d);
        }
    }
    r
}

fn child_offset(t: &[u8; 4]) -> (r: Option<usize>)
    ensures
        match child_offset_spec(t@) {
            Some(k) => r == Some(k as usize),
            None => r is None,
        },
{
    if is_type(t, 115, 116, 115, 100) {
        Some(8)
    } else if is_type(t, 101, 110, 99, 97) || is_type(t, 109, 112, 52, 97) || is_type(
        t,
        97,
        108,
        97,
        99,
    ) {
        Some(28)
    } else if is_type(t, 101, 110, 99, 118) {
        Some(78)
    } else if is_type(t, 109, 111, 111, 118) || is_type(t, 116, 114, 97, 107) || is_type(
        t,
        109,
        100,
        105,
        97,
    ) || is_type(t, 109, 105, 110, 102) || is_type(t, 115, 116, 98, 108) || is_type(
        t,
        115,
        105,
        110,
        102,
    ) || is_type(t, 115, 99, 104, 105) || is_type(t, 109, 111, 111, 102) || is_type(
        t,
        116,
        114,
        97,
        102,
    ) {
        Some(0)
    } else {
        None
    }
}

/// Where the children of a container box start.
pub fn container_child_start(box_info: Mp4Box) -> (r: Option<usize>)
    requires
        box_info.start + box_info.header_size + 78 <= usize::MAX,
    ensures
        match child_offset_spec(box_info.typ@) {
            Some(k) => r == Some((box_info.start + box_info.header_size + k) as usize),
            None => r is None,
        },
{
    match child_offset(&box_info.typ) {
        Some(k) => Some(box_info.payload_start() + k),
        None => None,
    }
}

/// The first box of the type, depth first: a box, then inside it when it
/// is a container, then its later siblings.
pub open spec fn find_rec_spec(data: Seq<u8>, pos: int, end: int, typ: Seq<u8>) -> Option<Mp4Box>
    decreases data.len() - pos,
{
    if pos < 0 || pos + 8 > end {
        None
    } else {
        match read_box_spec(data, pos) {
            Ok(Some(b)) => if b.typ@ == typ {
                Some(b)
            } else {
                let box_end = b.start + b.size;
                let inner = match child_offset_spec(b.typ@) {
                    Some(k) => {
                        let c = b.start + b.header_size + k;
                        if pos < c && c + 8 <= box_end && box_end <= data.len() {
                            find_rec_spec(data, c, box_end, typ)
                        } else {
                            None
                        }
                    },
                    None => None,
                };
                match inner {
                    Some(f) => Some(f),
                    None => if pos < box_end <= data.len() {
                        find_rec_spec(data, box_end, end, typ)
                    } else {
                        None
                    },
                }
            },
            _ => None,
        }
    }
}

fn same_type(a: &[u8; 4], b: &[u8; 4]) -> (r: bool)
    ensures
        r == (a@ == b@),
{
    proof {
        assert(b@ =~= seq![b@[0], b@[1], b@[2], b@[3]]);
    }
    is_type(a, b[0], b[1], b[2], b[3])
}

pub fn find_box_recursive(data: &[u8], start: usize, end: usize, typ: &[u8; 4]) -> (r: Option<
    Mp4Box,
>)
    ensures
        r == find_rec_spec(data@, start as int, end as int, typ@),
    decreases data.len() - start,
{
    let mut pos = start;
    while pos <= end && end - pos >= 8
        invariant
            start <= pos,
            find_rec_spec(data@, pos as int, end as int, typ@) == find_rec_spec(
                data@,
                start as int,
                end as int,
                typ@,
            ),
        decreases data.len() - pos,
    {
        let b = match read_mp4_box(data, pos) {
            Ok(Some(b)) => b,
            _ => return None,
        };
        proof {
            lemma_read_box_bounds(data@, pos as int);
            assert(typ@ =~= seq![typ@[0], typ@[1], typ@[2], typ@[3]]);
        }
        if same_type(&b.typ, typ) {
            return Some(b);
        }
        let box_end = b.end();
        match child_offset(&b.typ) {
            Some(k) => {
                let p = b.payload_start();
                if box_end >= 8 && p <= box_end - 8 && k <= box_end - 8 - p {
                    let c = p + k;
                    if let Some(found) = find_box_recursive(data, c, box_end, typ) {
                        return Some(found);
                    }
                }
            },
            None => {},
        }
        pos = box_end;
    }
    None
}

} // verus!

verus! {

/// The sample size and duration a track fragment gives by default.
#[derive(Clone, Copy, Debug, Default, PartialEq, Eq)]
pub struct FragmentDefaults {
    pub default_sample_size: u32,
    pub default_sample_duration: u32,
}

/// The size and duration of one sample of a track run.
#[derive(Clone, Copy, Debug, Default, PartialEq, Eq)]
pub struct TrunSampleInfo {
    pub size: u32,
    pub duration: u32,
}

/// A big-endian `u32` at `off` in spec terms.
pub open spec fn be32_at(b: Seq<u8>, off: int) -> u32 {
    be_value(b, off, 4) as u32
}

/// The flags of a full box: the three bytes after its version.
pub open spec fn full_box_flags(b: Seq<u8>) -> u32 {
    be_value(b, 1, 3) as u32
}

/// What a track fragment header gives: the default sample duration (flag
/// 0x8) and size (flag 0x10), after the optional base data offset (0x1)
/// and sample description index (0x2).
pub open spec fn tfhd_spec(b: Seq<u8>) -> Result<FragmentDefaults, Seq<char>> {
    if b.len() < 8 {
        Err("MP4 tfhd truncated"@)
    } else {
        let flags = full_box_flags(b);
        let off = 8 + (if flags & 1 != 0 {
            8int
        } else {
            0
        }) + (if flags & 2 != 0 {
            4int
        } else {
            0
        });
        if flags & 8 != 0 && off + 4 > b.len() {
            Err("MP4 tfhd default duration truncated"@)
        } else {
            let duration = if flags & 8 != 0 {
                be32_at(b, off)
            } else {
                0
            };
            let off2 = off + if flags & 8 != 0 {
                4int
            } else {
                0
            };
            if flags & 0x10 != 0 && off2 + 4 > b.len() {
                Err("MP4 tfhd default size truncated"@)
            } else {
                Ok(
                    FragmentDefaults {
                        default_sample_size: if flags & 0x10 != 0 {
                            be32_at(b, off2)
                        } else {
                            0
                        },
                        default_sample_duration: duration,
                    },
                )
            }
        }
    }
}

fn read_flags(b: &[u8]) -> (r: u32)
    requires
        b.len() >= 4,
    ensures
        r == full_box_flags(b@),
{
    proof {
        reveal_with_fuel(be_value, 4);
    }
    (b[1] as u32) * 65536 + (b[2] as u32) * 256 + (b[3] as u32)
}

pub fn custom(text: &str) -> (e: BotError)
    ensures
        e matches BotError::Custom(m) && m@ == text@,
{
    BotError::Custom(String::from_str(text))
}

pub fn parse_tfhd_defaults(body: &[u8]) -> (r: Result<FragmentDefaults, BotError>)
    ensures
        match tfhd_spec(body@) {
            Ok(d) => r == Ok::<FragmentDefaults, BotError>(d),
            Err(m) => r matches Err(BotError::Custom(e)) && e@ == m,
        },
{
    if body.len() < 8 {
        return Err(custom("MP4 tfhd truncated"));
    }
    let flags = read_flags(body);
    let mut off: usize = 8;
    if flags & 1 != 0 {
        off = off + 8;
    }
    if flags & 2 != 0 {
        off = off + 4;
    }
    let default_sample_duration: u32 = if flags & 8 != 0 {
        if off + 4 > body.len() {
            return Err(custom("MP4 tfhd default duration truncated"));
        }
        let v = read_be32(body, off);
        off = off + 4;
        v
    } else {
        0
    };
    let default_sample_size: u32 = if flags & 0x10 != 0 {
        if off + 4 > body.len() {
            return Err(custom("MP4 tfhd default size truncated"));
        }
        read_be32(body, off)
    } else {
        0
    };
    Ok(FragmentDefaults { default_sample_size, default_sample_duration })
}

/// A big-endian two's-complement `i32`.
pub open spec fn be_i32_at(b: Seq<u8>, off: int) -> i32 {
    let v = be_value(b, off, 4);
    (if v >= 0x8000_0000 {
        v - 0x1_0000_0000
    } else {
        v as int
    }) as i32
}

/// The samples of a track run from `off` on, `remaining` of them: each with
/// its own duration (flag 0x100) and size (flag 0x200) or the fragment's
/// defaults, skipping its flags (0x400) and composition offset (0x800); a
/// sample of size 0 is an error.
pub open spec fn trun_samples_from(
    b: Seq<u8>,
    flags: u32,
    d: FragmentDefaults,
    off: int,
    remaining: nat,
) -> Result<Seq<TrunSampleInfo>, Seq<char>>
    decreases remaining,
{
    if remaining == 0 {
        Ok(Seq::empty())
    } else if flags & 0x100 != 0 && off + 4 > b.len() {
        Err("MP4 trun sample duration truncated"@)
    } else {
        let duration = if flags & 0x100 != 0 {
            be32_at(b, off)
        } else {
            d.default_sample_duration
        };
        let off2 = off + if flags & 0x100 != 0 {
            4int
        } else {
            0
        };
        if flags & 0x200 != 0 && off2 + 4 > b.len() {
            Err("MP4 trun sample size truncated"@)
        } else {
            let size = if flags & 0x200 != 0 {
                be32_at(b, off2)
            } else {
                d.default_sample_size
            };
            let off3 = off2 + (if flags & 0x200 != 0 {
                4int
            } else {
                0
            }) + (if flags & 0x400 != 0 {
                4int
            } else {
                0
            }) + (if flags & 0x800 != 0 {
                4int
            } else {
                0
            });
            if size == 0 {
                Err("MP4 trun sample size 缺失"@)
            } else {
                match trun_samples_from(b, flags, d, off3, (remaining - 1) as nat) {
                    Ok(rest) => Ok(seq![TrunSampleInfo { size, duration }] + rest),
                    Err(m) => Err(m),
                }
            }
        }
    }
}

/// What a track run gives: its data offset (flag 0x1) and its samples,
/// after the optional first-sample flags (0x4).
pub open spec fn trun_spec(b: Seq<u8>, d: FragmentDefaults) -> Result<
    (Option<i32>, Seq<TrunSampleInfo>),
    Seq<char>,
> {
    if b.len() < 8 {
        Err("MP4 trun truncated"@)
    } else {
        let flags = full_box_flags(b);
        let count = be_value(b, 4, 4);
        if flags & 1 != 0 && 12 > b.len() {
            Err("MP4 trun data_offset truncated"@)
        } else {
            let data_offset = if flags & 1 != 0 {
                Some(be_i32_at(b, 8))
            } else {
                None
            };
            let off = 8 + (if flags & 1 != 0 {
                4int
            } else {
                0
            }) + (if flags & 4 != 0 {
                4int
            } else {
                0
            });
            match trun_samples_from(b, flags, d, off, count) {
                Ok(s) => Ok((data_offset, s)),
                Err(m) => Err(m),
            }
        }
    }
}

fn read_be_i32(b: &[u8], pos: usize) -> (r: i32)
    requires
        pos + 4 <= b.len(),
    ensures
        r == be_i32_at(b@, pos as int),
{
    let v = read_be32(b, pos);
    if v >= 0x8000_0000 {
        let d: u32 = 0xFFFF_FFFF - v;
        -(d as i32) - 1
    } else {
        v as i32
    }
}

pub fn parse_trun_samples(body: &[u8], defaults: FragmentDefaults) -> (r: Result<
    (Option<i32>, Vec<TrunSampleInfo>),
    BotError,
>)
    ensures
        match trun_spec(body@, defaults) {
            Ok((o, s)) => r matches Ok((ro, rs)) && ro == o && rs@ == s,
            Err(m) => r matches Err(BotError::Custom(e)) && e@ == m,
        },
{
    if body.len() < 8 {
        return Err(custom("MP4 trun truncated"));
    }
    let flags = read_flags(body);
    let sample_count = read_be32(body, 4);
    let mut off: u64 = 8;
    let data_offset = if flags & 1 != 0 {
        if body.len() < 12 {
            return Err(custom("MP4 trun data_offset truncated"));
        }
        let v = read_be_i32(body, 8);
        off = off + 4;
        Some(v)
    } else {
        None
    };
    if flags & 4 != 0 {
        off = off + 4;
    }
    let mut samples: Vec<TrunSampleInfo> = Vec::new();
    let mut i: u32 = 0;
    let len = body.len() as u64;
    while i < sample_count
        invariant
            i <= sample_count,
            len == body.len(),
            off <= 16 + 16 * (i as int),
            sample_count == be_value(body@, 4, 4),
            flags == full_box_flags(body@),
            trun_spec(body@, defaults) == (match trun_samples_from(
                body@,
                flags,
                defaults,
                off as int,
                (sample_count - i) as nat,
            ) {
                Ok(s) => Ok((data_offset, samples@ + s)),
                Err(m) => Err(m),
            }),
        decreases sample_count - i,
    {
        let ghost before = samples@;
        let duration = if flags & 0x100 != 0 {
            if off + 4 > len {
                return Err(custom("MP4 trun sample duration truncated"));
            }
            let v = read_be32(body, off as usize);
            off = off + 4;
            v
        } else {
            defaults.default_sample_duration
        };
        let size = if flags & 0x200 != 0 {
            if off + 4 > len {
                return Err(custom("MP4 trun sample size truncated"));
            }
            let v = read_be32(body, off as usize);
            off = off + 4;
            v
        } else {
            defaults.default_sample_size
        };
        if flags & 0x400 != 0 {
            off = off + 4;
        }
        if flags & 0x800 != 0 {
            off = off + 4;
        }
        if size == 0 {
            return Err(custom("MP4 trun sample size 缺失"));
        }
        samples.push(TrunSampleInfo { size, duration });
        i = i + 1;
        proof {
            let s = TrunSampleInfo { size, duration };
            match trun_samples_from(body@, flags, defaults, off as int, (sample_count - i) as nat) {
                Ok(rest) => {
                    assert(samples@ + rest =~= before + (seq![s] + rest));
                },
                Err(m) => {},
            }
        }
    }
    proof {
        assert(samples@ + Seq::<TrunSampleInfo>::empty() =~= samples@);
    }
    Ok((data_offset, samples))
}

} // verus!

verus! {

/// A sample of a progressive file: its bytes, duration and size.
#[derive(Clone, Debug)]
pub struct ProgressiveSample {
    pub data: Vec<u8>,
    pub duration: u32,
    pub size: u32,
}

/// A box of the type around the payload: the size (payload and header,
/// kept to 32 bits), the type, the payload.
pub open spec fn box_bytes(typ: Seq<u8>, payload: Seq<u8>) -> Seq<u8> {
    be32_bytes((payload.len() + 8) as u32) + typ + payload
}

pub fn build_box(typ: &[u8; 4], payload: Vec<u8>) -> (r: Vec<u8>)
    ensures
        r@ == box_bytes(typ@, payload@),
{
    let mut out: Vec<u8> = Vec::new();
    let n: u128 = payload.len() as u128 + 8;
    let size: u32 = #[verifier::truncate] (n as u32);
    proof {
        assert(n == payload@.len() + 8);
    }
    push_be32(&mut out, size);
    out.push(typ[0]);
    out.push(typ[1]);
    out.push(typ[2]);
    out.push(typ[3]);
    let ghost head = out@;
    let mut i: usize = 0;
    while i < payload.len()
        invariant
            i <= payload.len(),
            out@ == head + payload@.take(i as int),
        decreases payload.len() - i,
    {
        out.push(payload[i]);
        i = i + 1;
        proof {
            assert(out@ =~= head + payload@.take(i as int));
        }
    }
    proof {
        assert(payload@.take(payload.len() as int) =~= payload@);
        assert(typ@ =~= seq![typ@[0], typ@[1], typ@[2], typ@[3]]);
        assert(head =~= be32_bytes((payload.len() + 8) as u32) + typ@);
    }
    out
}

/// A box built around a payload reads back as a box of that type and size,
/// with an 8-byte header, when its size fits in 32 bits.
pub proof fn lemma_build_box_reads_back(typ: Seq<u8>, payload: Seq<u8>)
    requires
        typ.len() == 4,
        payload.len() + 8 <= u32::MAX,
    ensures
        read_box_spec(box_bytes(typ, payload), 0) == Ok::<Option<Mp4Box>, Seq<char>>(
            Some(
                Mp4Box {
                    start: 0,
                    header_size: 8,
                    size: (payload.len() + 8) as usize,
                    typ: [typ[0], typ[1], typ[2], typ[3]],
                },
            ),
        ),
{
    let b = box_bytes(typ, payload);
    let n = (payload.len() + 8) as u32;
    lemma_be32_roundtrip(n);
    reveal_with_fuel(be_value, 5);
    assert(b.subrange(0, 4) =~= be32_bytes(n));
    assert(be_value(b, 0, 4) == be_value(be32_bytes(n), 0, 4));
    assert(b.subrange(4, 8) =~= typ);
}

/// The durations of the samples as runs: each run a count and the
/// duration its samples share.
pub open spec fn duration_runs(durations: Seq<u32>) -> Seq<(nat, u32)>
    decreases durations.len(),
{
    if durations.len() == 0 {
        Seq::empty()
    } else {
        let prev = duration_runs(durations.drop_last());
        let d = durations.last();
        if prev.len() > 0 && prev.last().1 == d {
            prev.update(prev.len() - 1, ((prev.last().0 + 1) as nat, d))
        } else {
            prev.push((1nat, d))
        }
    }
}

pub open spec fn sample_durations(samples: Seq<ProgressiveSample>) -> Seq<u32> {
    samples.map_values(|s: ProgressiveSample| s.duration)
}

pub open spec fn sample_sizes(samples: Seq<ProgressiveSample>) -> Seq<u32> {
    samples.map_values(|s: ProgressiveSample| s.size)
}

/// The entries of a table: each as its big-endian numbers.
pub open spec fn run_bytes(runs: Seq<(nat, u32)>) -> Seq<u8>
    decreases runs.len(),
{
    if runs.len() == 0 {
        Seq::empty()
    } else {
        run_bytes(runs.drop_last()) + be32_bytes(runs.last().0 as u32) + be32_bytes(runs.last().1)
    }
}

pub open spec fn u32s_bytes(v: Seq<u32>) -> Seq<u8>
    decreases v.len(),
{
    if v.len() == 0 {
        Seq::empty()
    } else {
        u32s_bytes(v.drop_last()) + be32_bytes(v.last())
    }
}

proof fn lemma_runs_len(durations: Seq<u32>)
    ensures
        duration_runs(durations).len() <= durations.len(),
        forall|i: int|
            0 <= i < duration_runs(durations).len() ==> 1 <= #[trigger] duration_runs(
                durations,
            )[i].0 <= durations.len(),
    decreases durations.len(),
{
    if durations.len() > 0 {
        lemma_runs_len(durations.drop_last());
    }
}

/// The time-to-sample box: the runs of equal durations. A run counts its
/// samples in a 32-bit field that is stepped without a check, so there are
/// at most `u32::MAX` samples.
pub fn build_stts(samples: &[ProgressiveSample]) -> (r: Vec<u8>)
    requires
        samples.len() <= u32::MAX,
    ensures
        r@ == box_bytes(
            seq![115u8, 116, 116, 115],
            seq![0u8, 0, 0, 0] + be32_bytes(
                duration_runs(sample_durations(samples@)).len() as u32,
            ) + run_bytes(duration_runs(sample_durations(samples@))),
        ),
{
    let mut counts: Vec<u32> = Vec::new();
    let mut durations: Vec<u32> = Vec::new();
    let mut i: usize = 0;
    while i < samples.len()
        invariant
            i <= samples.len(),
            samples.len() <= u32::MAX,
            counts.len() == durations.len(),
            counts.len() == duration_runs(sample_durations(samples@).take(i as int)).len(),
            forall|k: int|
                0 <= k < counts.len() ==> (#[trigger] counts@[k] as nat, durations@[k])
                    == duration_runs(sample_durations(samples@).take(i as int))[k],
        decreases samples.len() - i,
    {
        let d = samples[i].duration;
        let ghost prev = duration_runs(sample_durations(samples@).take(i as int));
        proof {
            assert(sample_durations(samples@).take(i + 1).drop_last() =~= sample_durations(
                samples@,
            ).take(i as int));
            assert(sample_durations(samples@).take(i + 1).last() == d);
            lemma_runs_len(sample_durations(samples@).take(i as int));
        }
        let n = counts.len();
        if n > 0 && durations[n - 1] == d {
            let c = counts[n - 1];
            proof {
                assert(prev[n - 1].0 <= i);
            }
            counts.set(n - 1, c + 1);
        } else {
            counts.push(1);
            durations.push(d);
        }
        i = i + 1;
        proof {
            let cur = duration_runs(sample_durations(samples@).take(i as int));
            assert forall|k: int| 0 <= k < counts.len() implies (#[trigger] counts@[k] as nat,
                durations@[k]) == cur[k] by {}
        }
    }
    proof {
        assert(sample_durations(samples@).take(samples.len() as int) =~= sample_durations(
            samples@,
        ));
    }
    let ghost runs = duration_runs(sample_durations(samples@));
    let mut payload: Vec<u8> = Vec::new();
    payload.push(0);
    payload.push(0);
    payload.push(0);
    payload.push(0);
    push_be32(&mut payload, counts.len() as u32);
    let ghost head = payload@;
    let mut k: usize = 0;
    proof {
        lemma_runs_len(sample_durations(samples@));
    }
    while k < counts.len()
        invariant
            k <= counts.len(),
            counts.len() <= u32::MAX,
            payload@.len() == 8 + 8 * k,
            counts.len() == durations.len(),
            counts.len() == runs.len(),
            forall|j: int|
                0 <= j < counts.len() ==> (#[trigger] counts@[j] as nat, durations@[j]) == runs[j],
            payload@ == head + run_bytes(runs.take(k as int)),
        decreases counts.len() - k,
    {
        push_be32(&mut payload, counts[k]);
        push_be32(&mut payload, durations[k]);
        proof {
            assert(runs.take(k + 1).drop_last() =~= runs.take(k as int));
            assert(runs[k as int] == (counts@[k as int] as nat, durations@[k as int]));
            assert(payload@ =~= head + run_bytes(runs.take(k + 1)));
        }
        k = k + 1;
    }
    proof {
        assert(runs.take(counts.len() as int) =~= runs);
        assert(payload@ =~= seq![0u8, 0, 0, 0] + be32_bytes(runs.len() as u32) + run_bytes(runs));
    }
    build_box(&[115u8, 116, 116, 115], payload)
}

/// The sample-to-chunk box of a single chunk holding every sample.
pub fn build_stsc(sample_count: u32) -> (r: Vec<u8>)
    ensures
        r@ == box_bytes(
            seq![115u8, 116, 115, 99],
            seq![0u8, 0, 0, 0] + be32_bytes(1) + be32_bytes(1) + be32_bytes(sample_count)
                + be32_bytes(1),
        ),
{
    let mut payload: Vec<u8> = Vec::new();
    payload.push(0);
    payload.push(0);
    payload.push(0);
    payload.push(0);
    push_be32(&mut payload, 1);
    push_be32(&mut payload, 1);
    push_be32(&mut payload, sample_count);
    push_be32(&mut payload, 1);
    proof {
        assert(payload@ =~= seq![0u8, 0, 0, 0] + be32_bytes(1) + be32_bytes(1) + be32_bytes(
            sample_count,
        ) + be32_bytes(1));
    }
    build_box(&[115u8, 116, 115, 99], payload)
}

/// The sample size box: no common size, the count, then each size.
pub fn build_stsz(samples: &[ProgressiveSample]) -> (r: Vec<u8>)
    ensures
        r@ == box_bytes(
            seq![115u8, 116, 115, 122],
            seq![0u8, 0, 0, 0] + be32_bytes(0) + be32_bytes(samples.len() as u32) + u32s_bytes(
                sample_sizes(samples@),
            ),
        ),
{
    let mut payload: Vec<u8> = Vec::new();
    payload.push(0);
    payload.push(0);
    payload.push(0);
    payload.push(0);
    push_be32(&mut payload, 0);
    #[verifier::truncate]
    let count = samples.len() as u32;
    push_be32(&mut payload, count);
    let ghost head = payload@;
    let mut i: usize = 0;
    while i < samples.len()
        invariant
            i <= samples.len(),
            payload@ == head + u32s_bytes(sample_sizes(samples@).take(i as int)),
            payload@.len() == 12 + 4 * i,
        decreases samples.len() - i,
    {
        push_be32(&mut payload, samples[i].size);
        proof {
            assert(sample_sizes(samples@).take(i + 1).drop_last() =~= sample_sizes(samples@).take(
                i as int,
            ));
            assert(payload@ =~= head + u32s_bytes(sample_sizes(samples@).take(i + 1)));
        }
        i = i + 1;
    }
    proof {
        assert(sample_sizes(samples@).take(samples.len() as int) =~= sample_sizes(samples@));
    }
    build_box(&[115u8, 116, 115, 122], payload)
}

/// The chunk offset box of a single chunk at `offset`.
pub fn build_stco(offset: u32) -> (r: Vec<u8>)
    ensures
        r@ == box_bytes(
            seq![115u8, 116, 99, 111],
            seq![0u8, 0, 0, 0] + be32_bytes(1) + be32_bytes(offset),
        ),
{
    let mut payload: Vec<u8> = Vec::new();
    payload.push(0);
    payload.push(0);
    payload.push(0);
    payload.push(0);
    push_be32(&mut payload, 1);
    push_be32(&mut payload, offset);
    proof {
        assert(payload@ =~= seq![0u8, 0, 0, 0] + be32_bytes(1) + be32_bytes(offset));
    }
    build_box(&[115u8, 116, 99, 111], payload)
}

/// The time scale of a movie or media header: after the version and flags
/// and two dates of 32 bits (version 0) or 64 bits (other versions).
pub open spec fn timescale_spec(p: Seq<u8>) -> Option<u32> {
    if p.len() == 0 {
        None
    } else if p[0] == 0 && p.len() >= 20 {
        Some(be32_at(p, 12))
    } else if p.len() >= 32 {
        Some(be32_at(p, 20))
    } else {
        None
    }
}

pub fn parse_mvhd_timescale(payload: &[u8]) -> (r: Option<u32>)
    ensures
        r == timescale_spec(payload@),
{
    if payload.len() == 0 {
        return None;
    }
    if payload[0] == 0 && payload.len() >= 20 {
        Some(read_be32(payload, 12))
    } else if payload.len() >= 32 {
        Some(read_be32(payload, 20))
    } else {
        None
    }
}

pub fn parse_mdhd_timescale(payload: &[u8]) -> (r: Option<u32>)
    ensures
        r == timescale_spec(payload@),
{
    parse_mvhd_timescale(payload)
}

fn write_bytes(buf: &mut Vec<u8>, at: usize, bytes: &Vec<u8>)
    requires
        at + bytes.len() <= old(buf).len(),
    ensures
        final(buf)@ == old(buf)@.take(at as int) + bytes@ + old(buf)@.skip(at + bytes.len()),
{
    let ghost b0 = buf@;
    let mut i: usize = 0;
    while i < bytes.len()
        invariant
            i <= bytes.len(),
            at + bytes.len() <= b0.len(),
            at + bytes.len() <= buf.len(),
            buf@.len() == b0.len(),
            buf@ == b0.take(at as int) + bytes@.take(i as int) + b0.skip(at + i),
        decreases bytes.len() - i,
    {
        buf.set(at + i, bytes[i]);
        proof {
            assert(buf@ =~= b0.take(at as int) + bytes@.take(i + 1) + b0.skip(at + i + 1));
        }
        i = i + 1;
    }
    proof {
        assert(bytes@.take(bytes.len() as int) =~= bytes@);
    }
}

/// A movie or media header with its duration replaced: 32 bits at 16
/// (version 0), 64 bits at 24 (other versions); a payload too short is left
/// alone.
pub open spec fn patch_duration_spec(p: Seq<u8>, duration: u64, short: int, long: int) -> Seq<u8> {
    if p.len() > 0 && p[0] == 0 && p.len() >= short + 4 {
        p.take(short) + be32_bytes(duration as u32) + p.skip(short + 4)
    } else if p.len() > 0 && p[0] != 0 && p.len() >= long + 8 {
        p.take(long) + be64_bytes(duration) + p.skip(long + 8)
    } else {
        p
    }
}

fn patch_duration_at(payload: &mut Vec<u8>, duration: u64, short: usize, long: usize)
    requires
        short <= 64,
        long <= 64,
    ensures
        final(payload)@ == patch_duration_spec(old(payload)@, duration, short as int, long as int),
{
    if payload.len() == 0 {
        return;
    }
    if payload[0] == 0 {
        if payload.len() >= short + 4 {
            let mut b: Vec<u8> = Vec::new();
            push_be32(&mut b, duration as u32);
            write_bytes(payload, short, &b);
        }
    } else if payload.len() >= long + 8 {
        let mut b: Vec<u8> = Vec::new();
        push_be64(&mut b, duration);
        write_bytes(payload, long, &b);
    }
}

pub fn patch_mvhd_duration(payload: &mut Vec<u8>, duration: u64)
    ensures
        final(payload)@ == patch_duration_spec(old(payload)@, duration, 16, 24),
{
    patch_duration_at(payload, duration, 16, 24)
}

pub fn patch_mdhd_duration(payload: &mut Vec<u8>, duration: u64)
    ensures
        final(payload)@ == patch_duration_spec(old(payload)@, duration, 16, 24),
{
    patch_mvhd_duration(payload, duration)
}

pub fn patch_tkhd_duration(payload: &mut Vec<u8>, duration: u64)
    ensures
        final(payload)@ == patch_duration_spec(old(payload)@, duration, 20, 28),
{
    patch_duration_at(payload, duration, 20, 28)
}

/// A movie box with the first chunk offset of its first `stco` box set to
/// `offset`; an error where there is no such box or it is too short.
pub open spec fn patch_stco_spec(moov: Seq<u8>, offset: u32) -> Result<Seq<u8>, Seq<char>> {
    match find_rec_spec(moov, 0, moov.len() as int, seq![115u8, 116, 99, 111]) {
        None => Err("progressive MP4 缺少 stco"@),
        Some(b) => {
            let patch = b.start + b.header_size + 8;
            if patch + 4 > b.start + b.size {
                Err("progressive MP4 stco truncated"@)
            } else {
                Ok(moov.take(patch) + be32_bytes(offset) + moov.skip(patch + 4))
            }
        },
    }
}

pub proof fn lemma_found_box_bounds(data: Seq<u8>, pos: int, end: int, typ: Seq<u8>)
    requires
        data.len() <= usize::MAX,
        0 <= pos,
        find_rec_spec(data, pos, end, typ) is Some,
    ensures
        ({
            let b = find_rec_spec(data, pos, end, typ).unwrap();
            &&& 8 <= b.header_size <= b.size
            &&& b.start + b.size <= data.len()
            &&& b.typ@ == typ
        }),
    decreases data.len() - pos,
{
    lemma_read_box_bounds(data, pos);
    let b = read_box_spec(data, pos)->Ok_0.unwrap();
    if b.typ@ != typ {
        let box_end = b.start + b.size;
        match child_offset_spec(b.typ@) {
            Some(k) => {
                let c = b.start + b.header_size + k;
                if pos < c && c + 8 <= box_end && box_end <= data.len() && find_rec_spec(
                    data,
                    c,
                    box_end,
                    typ,
                ) is Some {
                    lemma_found_box_bounds(data, c, box_end, typ);
                    return ;
                }
            },
            None => {},
        }
        lemma_found_box_bounds(data, box_end, end, typ);
    }
}

pub fn patch_first_stco_offset(moov: &mut Vec<u8>, offset: u32) -> (r: Result<(), BotError>)
    ensures
        match patch_stco_spec(old(moov)@, offset) {
            Ok(m) => r is Ok && final(moov)@ == m,
            Err(e) => final(moov)@ == old(moov)@ && (r matches Err(BotError::Custom(t)) && t@ == e),
        },
{
    let stco = match find_box_recursive(moov.as_slice(), 0, moov.len(), &[115u8, 116, 99, 111]) {
        Some(b) => b,
        None => return Err(custom("progressive MP4 缺少 stco")),
    };
    proof {
        lemma_found_box_bounds(moov@, 0, moov@.len() as int, seq![115u8, 116, 99, 111]);
    }
    let ps = stco.payload_start();
    let e = stco.end();
    if e - ps < 12 {
        return Err(custom("progressive MP4 stco truncated"));
    }
    let patch = ps + 8;
    let mut b: Vec<u8> = Vec::new();
    push_be32(&mut b, offset);
    write_bytes(moov, patch, &b);
    Ok(())
}

} // verus!
