//! Reading TIFF structures and finding embedded images in raw bytes.

use vstd::prelude::*;

verus! {

/// The 16-bit value at `off`, in the given byte order; 0 when the bytes run
/// past the end of `data`.
pub open spec fn r16(data: Seq<u8>, off: int, le: bool) -> u16 {
    if off < 0 || off + 2 > data.len() {
        0
    } else if le {
        (data[off] as u16 + data[off + 1] as u16 * 256) as u16
    } else {
        (data[off] as u16 * 256 + data[off + 1] as u16) as u16
    }
}

/// The 32-bit value at `off`, in the given byte order; 0 when the bytes run
/// past the end of `data`.
pub open spec fn r32(data: Seq<u8>, off: int, le: bool) -> u32 {
    if off < 0 || off + 4 > data.len() {
        0
    } else if le {
        (data[off] as u32 + data[off + 1] as u32 * 256 + data[off + 2] as u32 * 65536
            + data[off + 3] as u32 * 16777216) as u32
    } else {
        (data[off] as u32 * 16777216 + data[off + 1] as u32 * 65536 + data[off + 2] as u32 * 256
            + data[off + 3] as u32) as u32
    }
}

/// Reads a 16-bit value (`u16::from_le_bytes` / `from_be_bytes`).
pub fn tiff_r16(data: &[u8], off: usize, le: bool) -> (v: u16)
    ensures
        v == r16(data@, off as int, le),
{
    if off > data.len() || data.len() - off < 2 {
        return 0;
    }
    let a = data[off] as u16;
    let b = data[off + 1] as u16;
    if le { a + b * 256 } else { a * 256 + b }
}

/// Reads a 32-bit value (`u32::from_le_bytes` / `from_be_bytes`).
pub fn tiff_r32(data: &[u8], off: usize, le: bool) -> (v: u32)
    ensures
        v == r32(data@, off as int, le),
{
    if off > data.len() || data.len() - off < 4 {
        return 0;
    }
    let a = data[off] as u32;
    let b = data[off + 1] as u32;
    let c = data[off + 2] as u32;
    let d = data[off + 3] as u32;
    if le { a + b * 256 + c * 65536 + d * 16777216 } else { a * 16777216 + b * 65536 + c * 256 + d }
}

/// The byte at `i`, or 0 past the end.
pub open spec fn byte_or_zero(data: Seq<u8>, i: int) -> u32 {
    if 0 <= i < data.len() { data[i] as u32 } else { 0 }
}

/// The value of a one-element TIFF field of type `typ` whose value is at `vpos`.
pub open spec fn scalar_spec(data: Seq<u8>, le: bool, typ: u16, vpos: int) -> u32 {
    if typ == 1 || typ == 6 || typ == 7 {
        byte_or_zero(data, vpos)
    } else if typ == 3 || typ == 8 {
        r16(data, vpos, le) as u32
    } else {
        r32(data, vpos, le)
    }
}

pub fn tiff_scalar(data: &[u8], le: bool, typ: u16, vpos: usize) -> (v: u32)
    ensures
        v == scalar_spec(data@, le, typ, vpos as int),
{
    if typ == 1 || typ == 6 || typ == 7 {
        if vpos < data.len() { data[vpos] as u32 } else { 0 }
    } else if typ == 3 || typ == 8 {
        tiff_r16(data, vpos, le) as u32
    } else {
        tiff_r32(data, vpos, le)
    }
}

/// Size in bytes of one value of TIFF type `typ`.
pub open spec fn item_size(typ: u16) -> nat {
    if typ == 1 || typ == 2 || typ == 6 || typ == 7 { 1 } else if typ == 3 || typ == 8 { 2 } else { 4 }
}

/// Where the values of a field live: inline at `vpos` when they fit in four
/// bytes, else at the offset stored there.
pub open spec fn array_base(data: Seq<u8>, le: bool, typ: u16, count: u32, vpos: int) -> int {
    if item_size(typ) * count <= 4 { vpos } else { r32(data, vpos, le) as int }
}

/// Element `i` of a TIFF array field.
pub open spec fn array_elem(data: Seq<u8>, le: bool, typ: u16, base: int, i: int) -> u32 {
    if typ == 1 || typ == 6 || typ == 7 {
        byte_or_zero(data, base + i)
    } else if typ == 3 || typ == 8 {
        r16(data, base + i * 2, le) as u32
    } else {
        r32(data, base + i * 4, le)
    }
}

fn read_at(data: &[u8], pos: u128, le: bool, typ: u16) -> (v: u32)
    ensures
        v == (if typ == 1 || typ == 6 || typ == 7 { byte_or_zero(data@, pos as int) }
            else if typ == 3 || typ == 8 { r16(data@, pos as int, le) as u32 }
            else { r32(data@, pos as int, le) }),
{
    if pos >= data.len() as u128 {
        proof {
            assert(r16(data@, pos as int, le) == 0);
            assert(r32(data@, pos as int, le) == 0);
        }
        return 0;
    }
    let p = pos as usize;
    if typ == 1 || typ == 6 || typ == 7 {
        data[p] as u32
    } else if typ == 3 || typ == 8 {
        tiff_r16(data, p, le) as u32
    } else {
        tiff_r32(data, p, le)
    }
}

/// The `count` values of a TIFF array field whose value (or offset) is at `vpos`.
pub open spec fn array_values(data: Seq<u8>, le: bool, typ: u16, count: u32, vpos: int) -> Seq<u32> {
    Seq::new(count as nat, |i: int| array_elem(data, le, typ, array_base(data, le, typ, count, vpos), i))
}

/// The `count` values of a TIFF array field whose value (or offset) is at `vpos`.
pub fn tiff_array_u32(data: &[u8], le: bool, typ: u16, count: u32, vpos: usize) -> (v: Vec<u32>)
    ensures
        v@ == array_values(data@, le, typ, count, vpos as int),
        v@.len() == count,
        forall|i: int| 0 <= i < count ==> #[trigger] v@[i] == array_elem(data@, le, typ,
            array_base(data@, le, typ, count, vpos as int), i),
{
    let size: u64 = if typ == 1 || typ == 2 || typ == 6 || typ == 7 { 1 } else if typ == 3 || typ == 8 { 2 } else { 4 };
    let total: u64 = size * count as u64;
    let base: u128 = if total <= 4 { vpos as u128 } else { tiff_r32(data, vpos, le) as u128 };
    let mut v: Vec<u32> = Vec::new();
    let mut i: u32 = 0;
    while i < count
        invariant
            i <= count,
            v@.len() == i,
            base as int == array_base(data@, le, typ, count, vpos as int),
            base <= u64::MAX,
            forall|k: int| 0 <= k < i ==> #[trigger] v@[k] == array_elem(data@, le, typ, base as int, k),
        decreases count - i,
    {
        let pos: u128 = if typ == 1 || typ == 6 || typ == 7 {
            base + i as u128
        } else if typ == 3 || typ == 8 {
            base + i as u128 * 2
        } else {
            base + i as u128 * 4
        };
        let x = read_at(data, pos, le, typ);
        v.push(x);
        i = i + 1;
    }
    proof { assert(v@ =~= array_values(data@, le, typ, count, vpos as int)); }
    v
}

/// `needle` occurs in `hay` at `i`.
pub open spec fn bytes_at(hay: Seq<u8>, needle: Seq<u8>, i: int) -> bool {
    0 <= i && i + needle.len() <= hay.len() && hay.subrange(i, i + needle.len()) == needle
}

/// The first position of `needle` in `hay` at or after `from`.
#[verifier::opaque]
pub open spec fn first_bytes_from(hay: Seq<u8>, needle: Seq<u8>, from: int) -> Option<int> {
    if exists|i: int| from <= i && bytes_at(hay, needle, i) {
        Some(choose|i: int| from <= i && bytes_at(hay, needle, i)
            && forall|j: int| from <= j < i ==> !bytes_at(hay, needle, j))
    } else {
        None
    }
}

fn bytes_match(hay: &[u8], needle: &[u8], at: usize) -> (b: bool)
    requires
        at + needle@.len() <= hay@.len(),
    ensures
        b == bytes_at(hay@, needle@, at as int),
{
    let hay_len = hay.len();
    let mut k: usize = 0;
    while k < needle.len()
        invariant
            hay_len == hay@.len(),
            at + needle@.len() <= hay@.len(),
            k <= needle@.len(),
            forall|m: int| 0 <= m < k ==> hay@[at + m] == needle@[m],
        decreases needle@.len() - k,
    {
        if hay[at + k] != needle[k] {
            proof { assert(hay@.subrange(at as int, at + needle@.len())[k as int] != needle@[k as int]); }
            return false;
        }
        k = k + 1;
    }
    proof { assert(hay@.subrange(at as int, at + needle@.len()) =~= needle@); }
    true
}

/// A position that the search finds holds the needle.
pub proof fn lemma_first_bytes_found(hay: Seq<u8>, needle: Seq<u8>, from: int)
    ensures
        first_bytes_from(hay, needle, from) matches Some(i) ==> bytes_at(hay, needle, i),
{
    reveal(first_bytes_from);
    if exists|i: int| from <= i && bytes_at(hay, needle, i) {
        let w = choose|i: int| from <= i && bytes_at(hay, needle, i);
        lemma_least_match(hay, needle, from, w);
    }
}

/// Some match has a first one.
proof fn lemma_least_match(hay: Seq<u8>, needle: Seq<u8>, from: int, w: int)
    requires
        from <= w,
        bytes_at(hay, needle, w),
    ensures
        exists|i: int| from <= i && bytes_at(hay, needle, i) && forall|j: int| from <= j < i ==> !bytes_at(hay, needle, j),
    decreases w - from,
{
    if exists|j: int| from <= j < w && bytes_at(hay, needle, j) {
        let j = choose|j: int| from <= j < w && bytes_at(hay, needle, j);
        lemma_least_match(hay, needle, from, j);
    } else {
        assert(from <= w && bytes_at(hay, needle, w) && forall|j: int| from <= j < w ==> !bytes_at(hay, needle, j));
    }
}

proof fn lemma_first_bytes(hay: Seq<u8>, needle: Seq<u8>, from: int, i: int)
    requires
        from <= i,
        bytes_at(hay, needle, i),
        forall|j: int| from <= j < i ==> !bytes_at(hay, needle, j),
    ensures
        first_bytes_from(hay, needle, from) == Some(i),
{
    reveal(first_bytes_from);
    let w = choose|w: int| from <= w && bytes_at(hay, needle, w)
        && forall|j: int| from <= j < w ==> !bytes_at(hay, needle, j);
    assert(bytes_at(hay, needle, w));
    if w < i { } else if w > i { assert(!bytes_at(hay, needle, i)); }
}

/// The first position at or after `from` where `needle` occurs in `hay`.
pub fn find_bytes_from(hay: &[u8], needle: &[u8], from: usize) -> (r: Option<usize>)
    ensures
        match r {
            Some(i) => first_bytes_from(hay@, needle@, from as int) == Some(i as int)
                && from <= i && bytes_at(hay@, needle@, i as int),
            None => first_bytes_from(hay@, needle@, from as int) is None,
        },
{
    reveal(first_bytes_from);
    if from > hay.len() || needle.len() > hay.len() - from {
        proof {
            if exists|i: int| from <= i && bytes_at(hay@, needle@, i) {
                let i = choose|i: int| from <= i && bytes_at(hay@, needle@, i);
                assert(false);
            }
        }
        return None;
    }
    let last = hay.len() - needle.len();
    let mut i = from;
    while i < last
        invariant
            last + needle@.len() == hay@.len(),
            from <= i <= last,
            forall|j: int| from <= j < i ==> !bytes_at(hay@, needle@, j),
        decreases last - i,
    {
        if bytes_match(hay, needle, i) {
            proof { lemma_first_bytes(hay@, needle@, from as int, i as int); }
            return Some(i);
        }
        i = i + 1;
    }
    if bytes_match(hay, needle, last) {
        proof { lemma_first_bytes(hay@, needle@, from as int, last as int); }
        Some(last)
    } else {
        proof {
            if exists|k: int| from <= k && bytes_at(hay@, needle@, k) {
                let k = choose|k: int| from <= k && bytes_at(hay@, needle@, k);
                assert(k <= last);
                assert(!bytes_at(hay@, needle@, k));
            }
        }
        None
    }
}

/// The first position of `needle` in `haystack` (`haystack.windows(n).position(..)`).
pub fn find_subsequence(haystack: &[u8], needle: &[u8]) -> (r: Option<usize>)
    requires
        needle@.len() > 0,
    ensures
        match r {
            Some(i) => first_bytes_from(haystack@, needle@, 0) == Some(i as int),
            None => first_bytes_from(haystack@, needle@, 0) is None,
        },
{
    find_bytes_from(haystack, needle, 0)
}

pub open spec fn tiff_le_magic() -> Seq<u8> {
    seq![0x49u8, 0x49u8, 0x2Au8, 0x00u8]
}

pub open spec fn tiff_be_magic() -> Seq<u8> {
    seq![0x4Du8, 0x4Du8, 0x00u8, 0x2Au8]
}

/// Where a TIFF header starts: the first little-endian header if there is
/// one, else the first big-endian header.
pub open spec fn tiff_header_spec(data: Seq<u8>) -> Option<int> {
    match first_bytes_from(data, tiff_le_magic(), 0) {
        Some(i) => Some(i),
        None => first_bytes_from(data, tiff_be_magic(), 0),
    }
}

/// Finds the offset of TIFF magic bytes in the start of a file (the caller
/// reads up to its first megabyte).
pub fn find_tiff_header(data: &[u8]) -> (r: Option<usize>)
    ensures
        match r {
            Some(i) => tiff_header_spec(data@) == Some(i as int),
            None => tiff_header_spec(data@) is None,
        },
{
    let le: [u8; 4] = [0x49, 0x49, 0x2A, 0x00];
    let be: [u8; 4] = [0x4D, 0x4D, 0x00, 0x2A];
    proof {
        assert(le@ =~= tiff_le_magic());
        assert(be@ =~= tiff_be_magic());
    }
    match find_subsequence(data, &le) {
        Some(i) => Some(i),
        None => find_subsequence(data, &be),
    }
}

pub open spec fn soi() -> Seq<u8> {
    seq![0xFFu8, 0xD8u8, 0xFFu8]
}

pub open spec fn eoi() -> Seq<u8> {
    seq![0xFFu8, 0xD9u8]
}

/// The JPEG that starts at `s`, if an end marker follows: `(s, end)`.
pub open spec fn jpeg_from(data: Seq<u8>, s: int) -> Option<(int, int)> {
    match first_bytes_from(data, eoi(), s) {
        Some(e) => Some((s, e + 2)),
        None => None,
    }
}

/// The embedded JPEGs that the scan from `from` on finds, in order: each
/// start marker found is paired with the first end marker after it, and
/// the search resumes three bytes after the start marker (stopping once
/// that is past `data.len() - 3`).
pub open spec fn jpeg_spans(data: Seq<u8>, from: int) -> Seq<(int, int)>
    decreases data.len() - from,
{
    if from < 0 || from > data.len() {
        Seq::empty()
    } else {
        match first_bytes_from(data, soi(), from) {
            None => Seq::empty(),
            Some(s) => {
                let here = match jpeg_from(data, s) {
                    Some(p) => seq![p],
                    None => Seq::empty(),
                };
                let next = s + 3;
                let limit = if data.len() >= 3 { data.len() - 3 } else { 0 };
                if next > limit || next <= from { here } else { here + jpeg_spans(data, next) }
            },
        }
    }
}

/// The embedded JPEGs of `data` (start and end of their bytes), in the
/// order the scan finds them (see [`jpeg_spans`]).
pub fn embedded_jpeg_spans(data: &[u8]) -> (r: Vec<(usize, usize)>)
    ensures
        r@.len() == jpeg_spans(data@, 0).len(),
        forall|i: int| 0 <= i < r@.len() ==> (#[trigger] r@[i]).0 < r@[i].1 <= data@.len()
            && jpeg_spans(data@, 0)[i] == (r@[i].0 as int, r@[i].1 as int),
{
    let soi_m: [u8; 3] = [0xFF, 0xD8, 0xFF];
    let eoi_m: [u8; 2] = [0xFF, 0xD9];
    proof {
        assert(soi_m@ =~= soi());
        assert(eoi_m@ =~= eoi());
    }
    let dlen = data.len();
    let mut spans: Vec<(usize, usize)> = Vec::new();
    let mut search_pos: usize = 0;
    let ghost found: Seq<(int, int)> = Seq::empty();
    loop
        invariant_except_break
            jpeg_spans(data@, 0) == found + jpeg_spans(data@, search_pos as int),
        invariant
            dlen == data@.len(),
            soi_m@ == soi(),
            eoi_m@ == eoi(),
            search_pos <= data@.len(),
            spans@.len() == found.len(),
            forall|i: int| 0 <= i < spans@.len() ==> (#[trigger] spans@[i]).0 < spans@[i].1 <= data@.len()
                && found[i] == (spans@[i].0 as int, spans@[i].1 as int),
        ensures
            spans@.len() == found.len(),
            forall|i: int| 0 <= i < spans@.len() ==> (#[trigger] spans@[i]).0 < spans@[i].1 <= data@.len()
                && found[i] == (spans@[i].0 as int, spans@[i].1 as int),
            jpeg_spans(data@, 0) == found,
        decreases data@.len() - search_pos,
    {
        let start = match find_bytes_from(data, &soi_m, search_pos) {
            None => {
                proof { assert(found + Seq::<(int, int)>::empty() =~= found); }
                break;
            },
            Some(start) => start,
        };
        let ghost before = found;
        let ghost here: Seq<(int, int)> = Seq::empty();
        match find_bytes_from(data, &eoi_m, start) {
            Some(end_pos) => {
                spans.push((start, end_pos + 2));
                proof {
                    here = seq![(start as int, end_pos + 2)];
                    found = found + here;
                }
            },
            None => {},
        }
        let limit = if dlen >= 3 { dlen - 3 } else { 0 };
        if start + 3 > limit {
            proof { assert(jpeg_spans(data@, 0) =~= found); }
            break;
        }
        proof {
            assert(jpeg_spans(data@, search_pos as int) == here + jpeg_spans(data@, start + 3));
            assert(before + (here + jpeg_spans(data@, start + 3)) =~= found + jpeg_spans(data@, start + 3));
        }
        search_pos = start + 3;
    }
    spans
}

/// Whether the little-endian marker `II` opens the data.
pub open spec fn is_le(bytes: Seq<u8>) -> bool {
    bytes.len() >= 2 && bytes[0] == 0x49 && bytes[1] == 0x49
}

/// Entry `i` of the IFD at `ifd` lies within the data.
pub open spec fn entry_in_data(bytes: Seq<u8>, ifd: int, i: int) -> bool {
    ifd + 2 + i * 12 + 12 <= bytes.len()
}

/// Entry `i` of the IFD at `ifd` has the Orientation tag (0x0112).
pub open spec fn entry_is_orientation(bytes: Seq<u8>, ifd: int, le: bool, i: int) -> bool {
    r16(bytes, ifd + 2 + i * 12, le) == 0x0112
}

/// The entry index of the first Orientation (tag 0x0112) entry of the first
/// IFD, scanning entries until the count or the end of the data.
pub open spec fn orientation_entry(bytes: Seq<u8>) -> Option<int> {
    let le = is_le(bytes);
    let ifd = r32(bytes, 4, le) as int;
    let count = r16(bytes, ifd, le) as int;
    if bytes.len() < 8 || ifd + 2 > bytes.len() {
        None
    } else if exists|i: int| 0 <= i < count && entry_in_data(bytes, ifd, i) && #[trigger] entry_is_orientation(bytes, ifd, le, i) {
        Some(choose|i: int| 0 <= i < count && entry_in_data(bytes, ifd, i) && #[trigger] entry_is_orientation(bytes, ifd, le, i)
            && forall|j: int| 0 <= j < i ==> !#[trigger] entry_is_orientation(bytes, ifd, le, j))
    } else {
        None
    }
}

/// The two bytes of `v` in the byte order of the data.
pub open spec fn encode16(v: u16, le: bool) -> (u8, u8) {
    if le { ((v % 256) as u8, (v / 256) as u8) } else { ((v / 256) as u8, (v % 256) as u8) }
}

/// `bytes` with the value of its Orientation entry set to `v` (in the byte
/// order of the data), when it has such an entry.
pub open spec fn patched_orientation(bytes: Seq<u8>, v: u16) -> Seq<u8> {
    match orientation_entry(bytes) {
        Some(k) => {
            let le = is_le(bytes);
            let ifd = r32(bytes, 4, le) as int;
            let at = ifd + 2 + k * 12 + 8;
            let (b0, b1) = encode16(v, le);
            bytes.update(at, b0).update(at + 1, b1)
        },
        None => bytes,
    }
}

/// Overwrites the value of the Orientation entry of TIFF-structured EXIF
/// bytes. Returns `false` (and leaves the bytes alone) when there is no
/// such entry.
pub fn patch_exif_orientation(bytes: &mut Vec<u8>, new_value: u16) -> (patched: bool)
    ensures
        patched == (orientation_entry(old(bytes)@) is Some),
        final(bytes)@ == patched_orientation(old(bytes)@, new_value),
        final(bytes)@.len() == old(bytes)@.len(),
        !patched ==> final(bytes)@ == old(bytes)@,
        patched ==> ({
            let le = is_le(old(bytes)@);
            let ifd = r32(old(bytes)@, 4, le) as int;
            let v = ifd + 2 + orientation_entry(old(bytes)@)->0 * 12 + 8;
            let (b0, b1) = encode16(new_value, le);
            final(bytes)@ == old(bytes)@.update(v, b0).update(v + 1, b1)
        }),
{
    if bytes.len() < 8 {
        return false;
    }
    let little_endian = bytes[0] == 0x49u8 && bytes[1] == 0x49u8;
    let ifd_offset = tiff_r32(bytes.as_slice(), 4, little_endian) as usize;
    if ifd_offset > bytes.len() || bytes.len() - ifd_offset < 2 {
        return false;
    }
    let entry_count = tiff_r16(bytes.as_slice(), ifd_offset, little_endian) as usize;
    let ghost b = bytes@;
    let blen = bytes.len() as u64;
    let mut i: usize = 0;
    while i < entry_count
        invariant
            bytes@ == b,
            b == old(bytes)@,
            blen == b.len(),
            b.len() <= usize::MAX,
            b.len() >= 8,
            little_endian == is_le(b),
            ifd_offset == r32(b, 4, little_endian),
            ifd_offset + 2 <= b.len(),
            entry_count == r16(b, ifd_offset as int, little_endian),
            i <= entry_count,
            forall|j: int| 0 <= j < i ==> !#[trigger] entry_is_orientation(b, ifd_offset as int, little_endian, j),
        decreases entry_count - i,
    {
        let entry_off64: u64 = ifd_offset as u64 + 2 + i as u64 * 12;
        if entry_off64 + 12 > blen {
            proof {
                assert forall|k: int| i <= k implies !entry_in_data(b, ifd_offset as int, k) by {}
                if exists|k: int| 0 <= k < entry_count && entry_in_data(b, ifd_offset as int, k) && #[trigger] entry_is_orientation(b, ifd_offset as int, little_endian, k) {
                    let k = choose|k: int| 0 <= k < entry_count && entry_in_data(b, ifd_offset as int, k) && #[trigger] entry_is_orientation(b, ifd_offset as int, little_endian, k);
                    if k < i { assert(!entry_is_orientation(b, ifd_offset as int, little_endian, k)); }
                }
            }
            return false;
        }
        let entry_off = entry_off64 as usize;
        let tag = tiff_r16(bytes.as_slice(), entry_off, little_endian);
        if tag == 0x0112 {
            let val_off = entry_off + 8;
            let encoded: (u8, u8) = if little_endian {
                ((new_value % 256) as u8, (new_value / 256) as u8)
            } else {
                ((new_value / 256) as u8, (new_value % 256) as u8)
            };
            bytes.set(val_off, encoded.0);
            bytes.set(val_off + 1, encoded.1);
            proof {
                let ifd = ifd_offset as int;
                assert(entry_in_data(b, ifd, i as int) && entry_is_orientation(b, ifd, little_endian, i as int));
                let w = choose|k: int| 0 <= k < entry_count && entry_in_data(b, ifd, k) && #[trigger] entry_is_orientation(b, ifd, little_endian, k)
                    && forall|j: int| 0 <= j < k ==> !#[trigger] entry_is_orientation(b, ifd, little_endian, j);
                assert(entry_is_orientation(b, ifd, little_endian, w));
                if w < i { assert(!entry_is_orientation(b, ifd, little_endian, w)); }
                if w > i { assert(!entry_is_orientation(b, ifd, little_endian, i as int)); }
            }
            return true;
        }
        i = i + 1;
    }
    proof {
        if exists|k: int| 0 <= k < entry_count && entry_in_data(b, ifd_offset as int, k) && #[trigger] entry_is_orientation(b, ifd_offset as int, little_endian, k) {
            let k = choose|k: int| 0 <= k < entry_count && entry_in_data(b, ifd_offset as int, k) && #[trigger] entry_is_orientation(b, ifd_offset as int, little_endian, k);
            assert(!entry_is_orientation(b, ifd_offset as int, little_endian, k));
        }
    }
    false
}

/// The minimal TIFF data that holds only an Orientation entry: little-endian
/// header, one IFD at offset 8 with one SHORT entry, and a zero terminator.
pub open spec fn minimal_exif(o: u16) -> Seq<u8> {
    seq![0x49u8, 0x49, 42, 0, 8, 0, 0, 0, 1, 0, 0x12, 0x01, 3, 0, 1, 0, 0, 0,
        (o % 256) as u8, (o / 256) as u8, 0, 0, 0, 0, 0, 0]
}

/// Builds minimal TIFF data containing only the Orientation tag.
pub fn build_minimal_exif(orientation: u16) -> (b: Vec<u8>)
    ensures
        b@ == minimal_exif(orientation),
{
    let lo = (orientation % 256) as u8;
    let hi = (orientation / 256) as u8;
    let b: Vec<u8> = vec![0x49u8, 0x49, 42, 0, 8, 0, 0, 0, 1, 0, 0x12, 0x01, 3, 0, 1, 0, 0, 0,
        lo, hi, 0, 0, 0, 0, 0, 0];
    proof { assert(b@ =~= minimal_exif(orientation)); }
    b
}

} // verus!
