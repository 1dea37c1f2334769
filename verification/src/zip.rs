//! Reading the directory of a zip archive from its last bytes: the end
//! record (plain or zip64), the central directory entries, and the size of a
//! local file header.
use vstd::prelude::*;
use vstd::utf8::encode_utf8;

verus! {

/// Little-endian value of `n` bytes from `pos`.
pub open spec fn le_value(b: Seq<u8>, pos: int, n: nat) -> nat
    decreases n,
{
    if n == 0 {
        0
    } else {
        (b[pos] as nat) + 256 * le_value(b, pos + 1, (n - 1) as nat)
    }
}

/// Whether `n` bytes are readable from `pos`.
pub open spec fn readable(b: Seq<u8>, pos: int, n: int) -> bool {
    0 <= pos && pos + n <= b.len()
}

pub open spec fn u16_at(b: Seq<u8>, pos: int) -> Option<u16> {
    if readable(b, pos, 2) {
        Some(le_value(b, pos, 2) as u16)
    } else {
        None
    }
}

pub open spec fn u32_at(b: Seq<u8>, pos: int) -> Option<u32> {
    if readable(b, pos, 4) {
        Some(le_value(b, pos, 4) as u32)
    } else {
        None
    }
}

/// Eight bytes read as a two's-complement number.
pub open spec fn i64_at(b: Seq<u8>, pos: int) -> Option<i64> {
    if readable(b, pos, 8) {
        let u = le_value(b, pos, 8);
        Some(
            (if u >= 0x8000_0000_0000_0000 {
                u - 0x1_0000_0000_0000_0000
            } else {
                u as int
            }) as i64,
        )
    } else {
        None
    }
}

/// The number a read gives, or `d` where the bytes are not there.
pub open spec fn or_u32(o: Option<u32>, d: u32) -> u32 {
    match o {
        Some(v) => v,
        None => d,
    }
}

pub open spec fn or_u16(o: Option<u16>, d: u16) -> u16 {
    match o {
        Some(v) => v,
        None => d,
    }
}

pub open spec fn or_i64(o: Option<i64>, d: i64) -> i64 {
    match o {
        Some(v) => v,
        None => d,
    }
}

proof fn lemma_le_value_bound(b: Seq<u8>, pos: int, n: nat)
    requires
        readable(b, pos, n as int),
    ensures
        le_value(b, pos, n) < pow256(n),
    decreases n,
{
    if n > 0 {
        lemma_le_value_bound(b, pos + 1, (n - 1) as nat);
    }
}

pub open spec fn pow256(n: nat) -> nat
    decreases n,
{
    if n == 0 {
        1
    } else {
        256 * pow256((n - 1) as nat)
    }
}

/// A little-endian `u16` at `pos`, if the two bytes are there.
pub fn get_u16_le(bytes: &[u8], pos: usize) -> (r: Option<u16>)
    ensures
        r == u16_at(bytes@, pos as int),
{
    if pos > bytes.len() || bytes.len() - pos < 2 {
        return None;
    }
    let v: u16 = bytes[pos] as u16 + 256 * (bytes[pos + 1] as u16);
    proof {
        reveal_with_fuel(le_value, 3);
    }
    Some(v)
}

/// A little-endian `u32` at `pos`, if the four bytes are there.
pub fn get_u32_le(bytes: &[u8], pos: usize) -> (r: Option<u32>)
    ensures
        r == u32_at(bytes@, pos as int),
{
    if pos > bytes.len() || bytes.len() - pos < 4 {
        return None;
    }
    let v: u32 = bytes[pos] as u32 + 256 * (bytes[pos + 1] as u32) + 65536 * (bytes[pos + 2] as u32)
        + 16777216 * (bytes[pos + 3] as u32);
    proof {
        reveal_with_fuel(le_value, 5);
    }
    Some(v)
}

/// A little-endian `u64` of the eight bytes at `pos`, which are there.
fn read_u64_le(bytes: &[u8], pos: usize) -> (r: u64)
    requires
        readable(bytes@, pos as int, 8),
    ensures
        r == le_value(bytes@, pos as int, 8),
{
    let mut v: u64 = 0;
    let mut k: usize = 8;
    while k > 0
        invariant
            k <= 8,
            readable(bytes@, pos as int, 8),
            pos + 8 <= bytes.len(),
            v == le_value(bytes@, pos + k, (8 - k) as nat),
            v < pow256((8 - k) as nat),
        decreases k,
    {
        k = k - 1;
        proof {
            reveal_with_fuel(pow256, 9);
            assert(pow256((8 - k) as nat) == 256 * pow256((8 - (k + 1)) as nat));
            assert(le_value(bytes@, pos + k, (8 - k) as nat) == (bytes@[pos + k] as nat) + 256
                * le_value(bytes@, pos + k + 1, (8 - k - 1) as nat));
            assert(pow256(8) == 0x1_0000_0000_0000_0000);
            assert(pow256((8 - k) as nat) <= pow256(8)) by {
                lemma_pow256_monotone((8 - k) as nat, 8);
            }
        }
        v = bytes[pos + k] as u64 + 256 * v;
    }
    v
}

proof fn lemma_pow256_monotone(a: nat, b: nat)
    requires
        a <= b,
    ensures
        pow256(a) <= pow256(b),
    decreases b,
{
    if a < b {
        lemma_pow256_monotone(a, (b - 1) as nat);
    }
}

/// A little-endian two's-complement `i64` at `pos`, if the eight bytes are
/// there.
pub fn get_i64_le(bytes: &[u8], pos: usize) -> (r: Option<i64>)
    ensures
        r == i64_at(bytes@, pos as int),
{
    if pos > bytes.len() || bytes.len() - pos < 8 {
        return None;
    }
    let u = read_u64_le(bytes, pos);
    if u >= 0x8000_0000_0000_0000 {
        let d: u64 = 0xFFFF_FFFF_FFFF_FFFF - u;
        Some(-(d as i64) - 1)
    } else {
        Some(u as i64)
    }
}

/// Where the central directory starts and how long it is; `-1` for what was
/// not found.
#[derive(Debug, Clone, Copy, PartialEq, Eq)]
pub struct FileInfo {
    pub offset: i64,
    pub size: i64,
}

pub open spec fn not_found() -> FileInfo {
    FileInfo { offset: -1i64, size: -1i64 }
}

pub open spec fn end_sig() -> u32 {
    0x06054b50
}

pub open spec fn zip64_end_sig() -> u32 {
    0x06064b50
}

pub open spec fn zip64_loc_sig() -> u32 {
    0x07064b50
}

/// What an end record at `pos` gives: the directory it names, or, for a
/// zip64 archive, the directory that the zip64 record names; `None` to go on
/// looking further back.
pub open spec fn end_record_at(b: Seq<u8>, pos: int, file_length: int) -> Option<FileInfo> {
    if u32_at(b, pos) != Some(end_sig()) {
        None
    } else {
        let offset = or_u32(u32_at(b, pos + 16), 0);
        let size = or_u32(u32_at(b, pos + 12), 0);
        if offset == 0xFFFF_FFFFu32 || size == 0xFFFF_FFFFu32 {
            if pos >= 20 && u32_at(b, pos - 20) == Some(zip64_loc_sig()) {
                let record_offset = or_i64(i64_at(b, pos - 20 + 8), -1i64);
                let record_pos = b.len() - (file_length - record_offset);
                if record_pos >= 0 && record_pos + 56 <= b.len() && u32_at(b, record_pos) == Some(
                    zip64_end_sig(),
                ) {
                    Some(
                        FileInfo {
                            size: or_i64(i64_at(b, record_pos + 40), -1i64),
                            offset: or_i64(i64_at(b, record_pos + 48), -1i64),
                        },
                    )
                } else {
                    None
                }
            } else {
                None
            }
        } else {
            Some(FileInfo { offset: offset as i64, size: size as i64 })
        }
    }
}

/// The first end record found looking back from `pos`.
pub open spec fn scan_end_records(b: Seq<u8>, pos: int, file_length: int) -> FileInfo
    decreases pos + 1,
{
    if pos < 0 {
        not_found()
    } else {
        match end_record_at(b, pos, file_length) {
            Some(info) => info,
            None => scan_end_records(b, pos - 1, file_length),
        }
    }
}

/// Where the central directory is, read from the last bytes of an archive
/// of `file_length` bytes: the end record nearest the end names it, or the
/// zip64 record that it points to.
pub open spec fn central_directory_spec(b: Seq<u8>, file_length: int) -> FileInfo {
    if b.len() < 22 {
        not_found()
    } else {
        scan_end_records(b, b.len() - 22, file_length)
    }
}

/// Finds the central directory in the last bytes of an archive.
///
/// Where the zip64 locator points outside the bytes given, the position is
/// computed exactly, with no wrap-around.
pub fn locate_central_directory(bytes: &[u8], file_length: i64) -> (r: FileInfo)
    ensures
        r == central_directory_spec(bytes@, file_length as int),
{
    if bytes.len() < 22 {
        return FileInfo { offset: -1, size: -1 };
    }
    let mut pos: usize = bytes.len() - 22;
    loop
        invariant
            bytes.len() >= 22,
            pos <= bytes.len() - 22,
            central_directory_spec(bytes@, file_length as int) == scan_end_records(
                bytes@,
                pos as int,
                file_length as int,
            ),
        decreases pos,
    {
        if let Some(found) = end_record(bytes, pos, file_length) {
            return found;
        }
        if pos == 0 {
            proof {
                assert(scan_end_records(bytes@, -1, file_length as int) == not_found());
            }
            return FileInfo { offset: -1, size: -1 };
        }
        pos = pos - 1;
    }
}

/// The end record at `pos`, read as `end_record_at` says.
fn end_record(bytes: &[u8], pos: usize, file_length: i64) -> (r: Option<FileInfo>)
    requires
        pos + 22 <= bytes.len(),
    ensures
        r == end_record_at(bytes@, pos as int, file_length as int),
{
    if get_u32_le(bytes, pos) != Some(0x06054b50u32) {
        return None;
    }
    let offset = match get_u32_le(bytes, pos + 16) {
        Some(v) => v,
        None => 0,
    };
    let size = match get_u32_le(bytes, pos + 12) {
        Some(v) => v,
        None => 0,
    };
    if offset == 0xFFFF_FFFFu32 || size == 0xFFFF_FFFFu32 {
        if pos >= 20 && get_u32_le(bytes, pos - 20) == Some(0x07064b50u32) {
            let record_offset: i64 = match get_i64_le(bytes, pos - 20 + 8) {
                Some(v) => v,
                None => -1,
            };
            let record_pos: i128 = bytes.len() as i128 - (file_length as i128
                - record_offset as i128);
            if record_pos >= 0 && record_pos + 56 <= bytes.len() as i128 {
                let rp = record_pos as usize;
                if get_u32_le(bytes, rp) == Some(0x06064b50u32) {
                    let size64: i64 = match get_i64_le(bytes, rp + 40) {
                        Some(v) => v,
                        None => -1,
                    };
                    let offset64: i64 = match get_i64_le(bytes, rp + 48) {
                        Some(v) => v,
                        None => -1,
                    };
                    return Some(FileInfo { size: size64, offset: offset64 });
                }
            }
        }
        None
    } else {
        Some(FileInfo { offset: offset as i64, size: size as i64 })
    }
}

/// An entry of the central directory.
#[derive(Debug, Clone, Copy, PartialEq, Eq)]
pub struct CdEntry {
    pub local_header_offset: i64,
    pub uncompressed_size: i64,
    pub method: u16,
}

pub open spec fn cen_sig() -> u32 {
    0x02014b50
}

/// The entry whose header starts at `pos`.
pub open spec fn entry_at(b: Seq<u8>, pos: int) -> CdEntry {
    CdEntry {
        local_header_offset: or_u32(u32_at(b, pos + 42), 0) as i64,
        uncompressed_size: or_u32(u32_at(b, pos + 24), 0) as i64,
        method: or_u16(u16_at(b, pos + 10), 0),
    }
}

/// The first place from `k` on where `name` was recorded, or the length.
pub open spec fn slot_of(found: Seq<(Seq<u8>, CdEntry)>, name: Seq<u8>, k: int) -> int
    decreases found.len() - k,
{
    if k < 0 || k >= found.len() {
        found.len() as int
    } else if found[k].0 == name {
        k
    } else {
        slot_of(found, name, k + 1)
    }
}

/// The found names with their entries, a later entry of a name replacing
/// the earlier one in place.
pub open spec fn record_entry(
    found: Seq<(Seq<u8>, CdEntry)>,
    name: Seq<u8>,
    e: CdEntry,
) -> Seq<(Seq<u8>, CdEntry)> {
    let k = slot_of(found, name, 0);
    if k < found.len() {
        found.update(k, (name, e))
    } else {
        found.push((name, e))
    }
}

/// The header fields that give where the next entry starts.
pub open spec fn name_end(b: Seq<u8>, pos: int) -> int {
    pos + 46 + or_u16(u16_at(b, pos + 28), 0)
}

pub open spec fn next_entry(b: Seq<u8>, pos: int) -> int {
    name_end(b, pos) + or_u16(u16_at(b, pos + 30), 0) + or_u16(u16_at(b, pos + 32), 0)
}

/// The entries of the wanted names, reading the directory from `pos`; the
/// walk ends at the end of the bytes, at a header without its signature, at
/// a name that runs past the end, or once every wanted name was found.
pub open spec fn scan_entries(
    b: Seq<u8>,
    names: Seq<Seq<u8>>,
    pos: int,
    found: Seq<(Seq<u8>, CdEntry)>,
) -> Seq<(Seq<u8>, CdEntry)>
    decreases b.len() - pos,
{
    if pos < 0 || pos + 46 > b.len() || u32_at(b, pos) != Some(cen_sig()) || name_end(b, pos)
        > b.len() {
        found
    } else {
        let name = b.subrange(pos + 46, name_end(b, pos));
        if names.contains(name) {
            let found2 = record_entry(found, name, entry_at(b, pos));
            if found2.len() == names.len() || next_entry(b, pos) > b.len() {
                found2
            } else {
                scan_entries(b, names, next_entry(b, pos), found2)
            }
        } else if next_entry(b, pos) > b.len() {
            found
        } else {
            scan_entries(b, names, next_entry(b, pos), found)
        }
    }
}

/// The byte views of the names.
pub open spec fn name_bytes(names: Seq<&str>) -> Seq<Seq<u8>> {
    names.map_values(|s: &str| encode_utf8(s@))
}

/// The found entries as byte names and entries.
pub open spec fn found_view(v: Seq<(String, CdEntry)>) -> Seq<(Seq<u8>, CdEntry)> {
    v.map_values(|p: (String, CdEntry)| (encode_utf8(p.0@), p.1))
}

/// Whether two byte slices are equal.
fn bytes_eq(a: &[u8], b: &[u8]) -> (r: bool)
    ensures
        r == (a@ == b@),
{
    if a.len() != b.len() {
        return false;
    }
    let mut i: usize = 0;
    while i < a.len()
        invariant
            i <= a.len(),
            a.len() == b.len(),
            forall|j: int| 0 <= j < i ==> a@[j] == b@[j],
        decreases a.len() - i,
    {
        if a[i] != b[i] {
            return false;
        }
        i = i + 1;
    }
    proof {
        assert(a@ =~= b@);
    }
    true
}

/// Whether the bytes from `start` to `end` spell `name`.
fn range_eq(bytes: &[u8], start: usize, end: usize, name: &[u8]) -> (r: bool)
    requires
        start <= end <= bytes.len(),
    ensures
        r == (bytes@.subrange(start as int, end as int) == name@),
{
    if end - start != name.len() {
        return false;
    }
    let mut i: usize = 0;
    while i < name.len()
        invariant
            i <= name.len(),
            end - start == name.len(),
            start <= end <= bytes.len(),
            forall|j: int| 0 <= j < i ==> bytes@[start + j] == name@[j],
        decreases name.len() - i,
    {
        if bytes[start + i] != name[i] {
            proof {
                assert(bytes@.subrange(start as int, end as int)[i as int] != name@[i as int]);
            }
            return false;
        }
        i = i + 1;
    }
    proof {
        assert(bytes@.subrange(start as int, end as int) =~= name@);
    }
    true
}

/// Index of the wanted name the bytes spell, if any.
fn match_name(bytes: &[u8], start: usize, end: usize, names: &[&str]) -> (r: Option<usize>)
    requires
        start <= end <= bytes.len(),
    ensures
        match r {
            Some(k) => k < names.len() && encode_utf8(names@[k as int]@) == bytes@.subrange(
                start as int,
                end as int,
            ),
            None => !name_bytes(names@).contains(bytes@.subrange(start as int, end as int)),
        },
{
    let mut k: usize = 0;
    while k < names.len()
        invariant
            k <= names.len(),
            start <= end <= bytes.len(),
            forall|j: int|
                0 <= j < k ==> encode_utf8(names@[j]@) != bytes@.subrange(start as int, end as int),
        decreases names.len() - k,
    {
        if range_eq(bytes, start, end, names[k].as_bytes()) {
            return Some(k);
        }
        k = k + 1;
    }
    proof {
        let nb = name_bytes(names@);
        if nb.contains(bytes@.subrange(start as int, end as int)) {
            let j = choose|j: int|
                0 <= j < nb.len() && nb[j] == bytes@.subrange(start as int, end as int);
            assert(nb[j] == encode_utf8(names@[j]@));
        }
    }
    None
}

/// Records an entry of a name, replacing an earlier entry of that name.
fn record(found: &mut Vec<(String, CdEntry)>, name: &str, e: CdEntry)
    ensures
        found_view(final(found)@) == record_entry(found_view(old(found)@), encode_utf8(name@), e),
{
    let ghost f0 = found_view(found@);
    let mut k: usize = 0;
    while k < found.len()
        invariant
            k <= found.len(),
            found_view(found@) == f0,
            f0 == found_view(old(found)@),
            slot_of(f0, encode_utf8(name@), 0) == slot_of(f0, encode_utf8(name@), k as int),
        decreases found.len() - k,
    {
        if bytes_eq(found[k].0.as_str().as_bytes(), name.as_bytes()) {
            proof {
                assert(f0[k as int].0 == encode_utf8(name@));
                assert(slot_of(f0, encode_utf8(name@), k as int) == k);
            }
            found.set(k, (name.to_owned(), e));
            proof {
                assert(found_view(found@) =~= f0.update(k as int, (encode_utf8(name@), e)));
                assert(record_entry(f0, encode_utf8(name@), e) == f0.update(
                    k as int,
                    (encode_utf8(name@), e),
                ));
            }
            return;
        }
        proof {
            assert(f0[k as int].0 != encode_utf8(name@));
        }
        k = k + 1;
    }
    found.push((name.to_owned(), e));
    proof {
        assert(slot_of(f0, encode_utf8(name@), k as int) == f0.len());
        assert(found_view(found@) =~= f0.push((encode_utf8(name@), e)));
    }
}

/// The entries of the wanted names in a central directory, each with the
/// name it was found under, in the order first found.
///
/// A name is compared with the directory byte for byte.
pub fn locate_entries(bytes: &[u8], names: &[&str]) -> (r: Vec<(String, CdEntry)>)
    ensures
        found_view(r@) == scan_entries(bytes@, name_bytes(names@), 0, Seq::empty()),
{
    let mut results: Vec<(String, CdEntry)> = Vec::new();
    let mut pos: usize = 0;
    proof {
        assert(found_view(results@) =~= Seq::<(Seq<u8>, CdEntry)>::empty());
    }
    while pos <= bytes.len() && bytes.len() - pos >= 46
        invariant
            scan_entries(bytes@, name_bytes(names@), pos as int, found_view(results@))
                == scan_entries(bytes@, name_bytes(names@), 0, Seq::empty()),
        ensures
            scan_entries(bytes@, name_bytes(names@), pos as int, found_view(results@))
                == found_view(results@),
        decreases bytes.len() - pos,
    {
        if get_u32_le(bytes, pos) != Some(0x02014b50u32) {
            break;
        }
        let method = match get_u16_le(bytes, pos + 10) {
            Some(v) => v,
            None => 0,
        };
        let uncompressed_size = match get_u32_le(bytes, pos + 24) {
            Some(v) => v,
            None => 0,
        };
        let file_name_len = match get_u16_le(bytes, pos + 28) {
            Some(v) => v,
            None => 0,
        };
        let extra_len = match get_u16_le(bytes, pos + 30) {
            Some(v) => v,
            None => 0,
        };
        let comment_len = match get_u16_le(bytes, pos + 32) {
            Some(v) => v,
            None => 0,
        };
        let local_header_offset = match get_u32_le(bytes, pos + 42) {
            Some(v) => v,
            None => 0,
        };
        let name_start = pos + 46;
        if file_name_len as usize > bytes.len() - name_start {
            proof {
                assert(name_end(bytes@, pos as int) > bytes.len());
            }
            break;
        }
        let name_end_pos = name_start + file_name_len as usize;
        let e = CdEntry {
            local_header_offset: local_header_offset as i64,
            uncompressed_size: uncompressed_size as i64,
            method,
        };
        let ghost before = found_view(results@);
        let ghost name = bytes@.subrange(name_start as int, name_end_pos as int);
        proof {
            assert(e == entry_at(bytes@, pos as int));
        }
        match match_name(bytes, name_start, name_end_pos, names) {
            Some(k) => {
                proof {
                    assert(name_bytes(names@)[k as int] == encode_utf8(names@[k as int]@));
                    assert(name_bytes(names@).contains(name));
                }
                record(&mut results, names[k], e);
                if results.len() == names.len() {
                    return results;
                }
            },
            None => {},
        }
        if extra_len as usize + comment_len as usize > bytes.len() - name_end_pos {
            proof {
                assert(next_entry(bytes@, pos as int) > bytes.len());
            }
            pos = bytes.len();
        } else {
            pos = name_end_pos + extra_len as usize + comment_len as usize;
        }
    }
    results
}

/// Where the data of a local file starts, from the start of its header; `-1`
/// without a local header there.
pub open spec fn local_offset_spec(b: Seq<u8>) -> i64 {
    if b.len() < 30 || u32_at(b, 0) != Some(0x04034b50u32) {
        -1i64
    } else {
        (30 + or_u16(u16_at(b, 26), 0) + or_u16(u16_at(b, 28), 0)) as i64
    }
}

/// An entry's data starts after the 30-byte local file header, its file
/// name and its extra field, whose lengths are the little-endian 16-bit
/// numbers at bytes 26 and 28; bytes that do not hold a whole local header
/// give no offset.
pub proof fn lemma_local_data_offset(b: Seq<u8>)
    ensures
        b.len() >= 30 && b[0] == 0x50 && b[1] == 0x4b && b[2] == 3 && b[3] == 4 ==> local_offset_spec(b)
            == 30 + (b[26] + 256 * b[27]) + (b[28] + 256 * b[29]),
        b.len() < 30 ==> local_offset_spec(b) == -1,
{
    reveal_with_fuel(le_value, 5);
    if b.len() >= 30 {
        assert(le_value(b, 26, 2) == b[26] + 256 * b[27]);
        assert(le_value(b, 28, 2) == b[28] + 256 * b[29]);
        if b[0] == 0x50 && b[1] == 0x4b && b[2] == 3 && b[3] == 4 {
            assert(le_value(b, 0, 4) == 0x04034b50);
        }
    }
}

pub fn locate_local_file_offset(bytes: &[u8]) -> (r: i64)
    ensures
        r == local_offset_spec(bytes@),
{
    if bytes.len() < 30 || get_u32_le(bytes, 0) != Some(0x04034b50u32) {
        return -1;
    }
    let file_name_len = match get_u16_le(bytes, 26) {
        Some(v) => v,
        None => 0,
    };
    let extra_len = match get_u16_le(bytes, 28) {
        Some(v) => v,
        None => 0,
    };
    30 + file_name_len as i64 + extra_len as i64
}

} // verus!
