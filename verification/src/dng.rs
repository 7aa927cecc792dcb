//! Finding the JPEG-compressed images of a TIFF/DNG file: a walk over all
//! its image file directories (IFDs), chained ones and SubIFDs alike.

use vstd::prelude::*;
use crate::tiff::{r16, r32, scalar_spec, array_values, tiff_r16, tiff_r32, tiff_scalar, tiff_array_u32};
use crate::order::{SortKeys, stable_order, is_permutation};

verus! {

/// What the walk reads from one IFD.
pub struct IfdInfo {
    pub width: u32,
    pub height: u32,
    pub compression: u32,
    pub subfile: u32,
    pub offsets: Seq<u32>,
    pub counts: Seq<u32>,
    pub tile_w: Option<u32>,
    pub tile_h: Option<u32>,
    /// SubIFD offsets, in the order of their entries.
    pub subifds: Seq<u32>,
}

pub open spec fn empty_info() -> IfdInfo {
    IfdInfo {
        width: 0,
        height: 0,
        compression: 0,
        subfile: 0,
        offsets: Seq::empty(),
        counts: Seq::empty(),
        tile_w: None,
        tile_h: None,
        subifds: Seq::empty(),
    }
}

/// Where entry `i` of the IFD at `ifd` starts.
pub open spec fn entry_pos(ifd: int, i: int) -> int {
    ifd + 2 + i * 12
}

/// The IFD information after applying one entry (later entries override
/// earlier ones; SubIFD entries add offsets).
pub open spec fn apply_entry(info: IfdInfo, data: Seq<u8>, le: bool, e: int) -> IfdInfo {
    let tag = r16(data, e, le);
    let typ = r16(data, e + 2, le);
    let cnt = r32(data, e + 4, le);
    let vp = e + 8;
    if tag == 254 {
        IfdInfo { subfile: scalar_spec(data, le, typ, vp), ..info }
    } else if tag == 256 {
        IfdInfo { width: scalar_spec(data, le, typ, vp), ..info }
    } else if tag == 257 {
        IfdInfo { height: scalar_spec(data, le, typ, vp), ..info }
    } else if tag == 259 {
        IfdInfo { compression: scalar_spec(data, le, typ, vp), ..info }
    } else if tag == 278 || tag == 324 {
        IfdInfo { offsets: array_values(data, le, typ, cnt, vp), ..info }
    } else if tag == 279 || tag == 325 {
        IfdInfo { counts: array_values(data, le, typ, cnt, vp), ..info }
    } else if tag == 322 {
        IfdInfo { tile_w: Some(scalar_spec(data, le, typ, vp)), ..info }
    } else if tag == 323 {
        IfdInfo { tile_h: Some(scalar_spec(data, le, typ, vp)), ..info }
    } else if tag == 330 {
        IfdInfo { subifds: info.subifds + array_values(data, le, typ, cnt, vp), ..info }
    } else {
        info
    }
}

/// The IFD information from its first `n` entries; entries that run past
/// the end of the data are ignored.
pub open spec fn scan_entries(data: Seq<u8>, le: bool, ifd: int, n: int) -> IfdInfo
    decreases n,
{
    if n <= 0 {
        empty_info()
    } else {
        let prev = scan_entries(data, le, ifd, n - 1);
        let e = entry_pos(ifd, n - 1);
        if e + 12 > data.len() { prev } else { apply_entry(prev, data, le, e) }
    }
}

/// The information of the IFD at `ifd`.
pub open spec fn parse_ifd(data: Seq<u8>, le: bool, ifd: int) -> IfdInfo {
    scan_entries(data, le, ifd, r16(data, ifd, le) as int)
}

/// The IFD holds JPEG-compressed image data.
pub open spec fn is_jpeg_ifd(info: IfdInfo) -> bool {
    (info.compression == 34892 || info.compression == 7 || info.compression == 6)
        && info.width > 0 && info.height > 0 && info.offsets.len() > 0 && info.counts.len() > 0
}

/// A candidate as `(width, height, offsets, counts, tile_w, tile_h, subfile)`.
pub open spec fn candidate_of(info: IfdInfo) -> (u32, u32, Seq<u32>, Seq<u32>, Option<u32>, Option<u32>, u32) {
    (info.width, info.height, info.offsets, info.counts, info.tile_w, info.tile_h, info.subfile)
}

/// The state of the walk: the stack of IFD offsets still to visit, the
/// offsets visited, and the candidates found.
pub struct WalkState {
    pub stack: Seq<u32>,
    pub seen: Seq<u32>,
    pub cands: Seq<(u32, u32, Seq<u32>, Seq<u32>, Option<u32>, Option<u32>, u32)>,
}

/// One step of the walk: pop an offset; skip it when it is 0, runs past the
/// data or was visited; else visit it: push its SubIFD offsets and then the
/// offset of the next chained IFD (when not 0), and keep it as a candidate
/// when it holds JPEG data.
pub open spec fn walk_step(data: Seq<u8>, le: bool, s: WalkState) -> WalkState {
    if s.stack.len() == 0 {
        s
    } else {
        let off = s.stack.last();
        let rest = s.stack.drop_last();
        if off == 0 || off + 2 > data.len() || s.seen.contains(off) {
            WalkState { stack: rest, ..s }
        } else {
            let info = parse_ifd(data, le, off as int);
            let n = r16(data, off as int, le);
            let next = r32(data, entry_pos(off as int, n as int), le);
            let pushed = rest + info.subifds;
            WalkState {
                stack: if next != 0 { pushed.push(next) } else { pushed },
                seen: s.seen.push(off),
                cands: if is_jpeg_ifd(info) { s.cands.push(candidate_of(info)) } else { s.cands },
            }
        }
    }
}

/// The walk after `n` steps.
pub open spec fn walk_n(data: Seq<u8>, le: bool, s: WalkState, n: nat) -> WalkState
    decreases n,
{
    if n == 0 { s } else { walk_n(data, le, walk_step(data, le, s), (n - 1) as nat) }
}

/// The walk starts at the first IFD, whose offset the header holds.
pub open spec fn walk_start(data: Seq<u8>, le: bool) -> WalkState {
    WalkState { stack: seq![r32(data, 4, le)], seen: Seq::empty(), cands: Seq::empty() }
}

/// The candidates of a walk run until its stack is empty.
pub open spec fn walk_result(data: Seq<u8>, le: bool, cands: Seq<(u32, u32, Seq<u32>, Seq<u32>, Option<u32>, Option<u32>, u32)>)
    -> bool
{
    exists|n: nat| #[trigger] walk_n(data, le, walk_start(data, le), n).stack.len() == 0
        && walk_n(data, le, walk_start(data, le), n).cands == cands
}

// ---------------------------------------------------------------------------
// The walk
// ---------------------------------------------------------------------------

/// A JPEG-compressed image of the file: its size, where its strips or
/// tiles are and how long they are, its tile size, and its subfile type
/// (0 for the main image, non-zero for thumbnails and the like).
pub struct DngCandidate {
    pub width: u32,
    pub height: u32,
    pub offsets: Vec<u32>,
    pub counts: Vec<u32>,
    pub tile_w: Option<u32>,
    pub tile_h: Option<u32>,
    pub subfile: u32,
}

pub open spec fn cand_view(c: DngCandidate) -> (u32, u32, Seq<u32>, Seq<u32>, Option<u32>, Option<u32>, u32) {
    (c.width, c.height, c.offsets@, c.counts@, c.tile_w, c.tile_h, c.subfile)
}

pub open spec fn cands_view(v: Seq<DngCandidate>) -> Seq<(u32, u32, Seq<u32>, Seq<u32>, Option<u32>, Option<u32>, u32)> {
    v.map_values(|c: DngCandidate| cand_view(c))
}

/// Candidates are tried main images first, then the larger ones first.
pub open spec fn cand_key(c: (u32, u32, Seq<u32>, Seq<u32>, Option<u32>, Option<u32>, u32)) -> int {
    c.6 as int * 0x1_0000_0000_0000_0000 + (0xFFFF_FFFF_FFFF_FFFF - c.0 as int * c.1 as int)
}

struct IfdFields {
    width: u32,
    height: u32,
    compression: u32,
    subfile: u32,
    offsets: Vec<u32>,
    counts: Vec<u32>,
    tile_w: Option<u32>,
    tile_h: Option<u32>,
}

spec fn fields_match(f: IfdFields, info: IfdInfo) -> bool {
    &&& f.width == info.width
    &&& f.height == info.height
    &&& f.compression == info.compression
    &&& f.subfile == info.subfile
    &&& f.offsets@ == info.offsets
    &&& f.counts@ == info.counts
    &&& f.tile_w == info.tile_w
    &&& f.tile_h == info.tile_h
}

/// Reads the IFD at `ifd`, pushing its SubIFD offsets onto `queue`.
fn read_ifd(data: &[u8], le: bool, ifd: usize, queue: &mut Vec<u32>) -> (f: IfdFields)
    requires
        ifd + 2 <= data@.len(),
    ensures
        fields_match(f, parse_ifd(data@, le, ifd as int)),
        final(queue)@ == old(queue)@ + parse_ifd(data@, le, ifd as int).subifds,
{
    let nentries = tiff_r16(data, ifd, le);
    let len = data.len() as u64;
    let mut f = IfdFields {
        width: 0,
        height: 0,
        compression: 0,
        subfile: 0,
        offsets: Vec::new(),
        counts: Vec::new(),
        tile_w: None,
        tile_h: None,
    };
    let ghost q0 = queue@;
    let mut i: u16 = 0;
    while i < nentries
        invariant
            i <= nentries,
            nentries == r16(data@, ifd as int, le),
            len == data@.len(),
            data@.len() <= usize::MAX,
            ifd + 2 <= data@.len(),
            fields_match(f, scan_entries(data@, le, ifd as int, i as int)),
            queue@ == q0 + scan_entries(data@, le, ifd as int, i as int).subifds,
        decreases nentries - i,
    {
        let e128: u128 = ifd as u128 + 2 + i as u128 * 12;
        let ghost prev = scan_entries(data@, le, ifd as int, i as int);
        if e128 + 12 <= len as u128 {
            let e = e128 as usize;
            let tag = tiff_r16(data, e, le);
            let typ = tiff_r16(data, e + 2, le);
            let cnt = tiff_r32(data, e + 4, le);
            let vp = e + 8;
            if tag == 254 {
                f.subfile = tiff_scalar(data, le, typ, vp);
            } else if tag == 256 {
                f.width = tiff_scalar(data, le, typ, vp);
            } else if tag == 257 {
                f.height = tiff_scalar(data, le, typ, vp);
            } else if tag == 259 {
                f.compression = tiff_scalar(data, le, typ, vp);
            } else if tag == 278 || tag == 324 {
                f.offsets = tiff_array_u32(data, le, typ, cnt, vp);
            } else if tag == 279 || tag == 325 {
                f.counts = tiff_array_u32(data, le, typ, cnt, vp);
            } else if tag == 322 {
                f.tile_w = Some(tiff_scalar(data, le, typ, vp));
            } else if tag == 323 {
                f.tile_h = Some(tiff_scalar(data, le, typ, vp));
            } else if tag == 330 {
                let mut subs = tiff_array_u32(data, le, typ, cnt, vp);
                queue.append(&mut subs);
            }
            proof {
                assert(e == entry_pos(ifd as int, i as int));
            }
        }
        i = i + 1;
        proof {
            assert(scan_entries(data@, le, ifd as int, i as int)
                == if entry_pos(ifd as int, i - 1) + 12 > data@.len() { prev }
                   else { apply_entry(prev, data@, le, entry_pos(ifd as int, i - 1)) });
            assert(queue@ =~= q0 + scan_entries(data@, le, ifd as int, i as int).subifds);
        }
    }
    f
}

proof fn lemma_walk_n_step(data: Seq<u8>, le: bool, s: WalkState, n: nat)
    ensures
        walk_n(data, le, s, n + 1) == walk_step(data, le, walk_n(data, le, s, n)),
    decreases n,
{
    assert(walk_n(data, le, s, n + 1) == walk_n(data, le, walk_step(data, le, s), n));
    if n > 0 {
        lemma_walk_n_step(data, le, walk_step(data, le, s), (n - 1) as nat);
        assert(walk_n(data, le, s, n) == walk_n(data, le, walk_step(data, le, s), (n - 1) as nat));
    }
}

/// `s` has no repeats and all its values are below `bound`: it has at
/// most `bound` values.
proof fn lemma_distinct_bound(s: Seq<u32>, bound: int)
    requires
        0 <= bound,
        s.no_duplicates(),
        forall|i: int| 0 <= i < s.len() ==> (#[trigger] s[i]) < bound,
    ensures
        s.len() <= bound,
{
    let t = s.map_values(|x: u32| x as int);
    assert(t.no_duplicates()) by {
        assert forall|i: int, j: int| 0 <= i < t.len() && 0 <= j < t.len() && i != j implies t[i] != t[j] by {
            assert(s[i] != s[j]);
        }
    }
    t.unique_seq_to_set();
    vstd::set_lib::lemma_int_range(0, bound);
    assert(t.to_set().subset_of(vstd::set_lib::set_int_range(0, bound))) by {
        assert forall|x: int| t.to_set().contains(x) implies vstd::set_lib::set_int_range(0, bound).contains(x) by {
            let i = choose|i: int| 0 <= i < t.len() && t[i] == x;
            assert(s[i] < bound);
        }
    }
    vstd::set_lib::lemma_len_subset(t.to_set(), vstd::set_lib::set_int_range(0, bound));
}

fn seen_before(visited: &Vec<u32>, off: u32) -> (b: bool)
    ensures
        b == visited@.contains(off),
{
    let mut i: usize = 0;
    while i < visited.len()
        invariant
            i <= visited.len(),
            forall|k: int| 0 <= k < i ==> visited@[k] != off,
        decreases visited.len() - i,
    {
        if visited[i] == off {
            proof { assert(visited@[i as int] == off); }
            return true;
        }
        i = i + 1;
    }
    false
}

fn copy_u32s(v: &Vec<u32>) -> (r: Vec<u32>)
    ensures
        r@ == v@,
{
    let mut out: Vec<u32> = Vec::new();
    let mut i: usize = 0;
    while i < v.len()
        invariant
            i <= v.len(),
            out@ == v@.take(i as int),
        decreases v.len() - i,
    {
        out.push(v[i]);
        i = i + 1;
        proof { assert(out@ =~= v@.take(i as int)); }
    }
    proof { assert(v@.take(v.len() as int) =~= v@); }
    out
}

/// Walks the IFDs of TIFF data whose byte order is `le` and collects the
/// JPEG-compressed ones, in the order the walk meets them.
fn walk_ifds(data: &[u8], le: bool) -> (r: Vec<DngCandidate>)
    ensures
        walk_result(data@, le, cands_view(r@)),
{
    let len = data.len() as u64;
    let mut queue: Vec<u32> = Vec::new();
    queue.push(tiff_r32(data, 4, le));
    let mut visited: Vec<u32> = Vec::new();
    let mut cands: Vec<DngCandidate> = Vec::new();
    let ghost mut steps: nat = 0;
    proof {
        assert(cands_view(cands@) =~= Seq::empty());
        assert(walk_n(data@, le, walk_start(data@, le), 0) == walk_start(data@, le));
        assert(queue@ =~= seq![r32(data@, 4, le)]);
    }
    loop
        invariant
            len == data@.len(),
            data@.len() <= usize::MAX,
            walk_n(data@, le, walk_start(data@, le), steps)
                == (WalkState { stack: queue@, seen: visited@, cands: cands_view(cands@) }),
            visited@.no_duplicates(),
            forall|k: int| 0 <= k < visited@.len() ==> 1 <= #[trigger] visited@[k] && visited@[k] + 2 <= data@.len(),
        ensures
            walk_result(data@, le, cands_view(cands@)),
        decreases data@.len() + 1 - visited@.len(), queue@.len(),
    {
        let ghost before = WalkState { stack: queue@, seen: visited@, cands: cands_view(cands@) };
        proof {
            lemma_distinct_bound(visited@, data@.len() as int);
            lemma_walk_n_step(data@, le, walk_start(data@, le), steps);
        }
        if queue.len() == 0 {
            proof { assert(walk_n(data@, le, walk_start(data@, le), steps).stack.len() == 0); }
            break;
        }
        let off = queue.pop().unwrap();
        proof { assert(off == before.stack.last() && queue@ == before.stack.drop_last()); }
        if off == 0 || off as u64 + 2 > len || seen_before(&visited, off) {
            proof { steps = steps + 1; }
        } else {
            let ghost vis_before = visited@;
            visited.push(off);
            proof {
                assert(!vis_before.contains(off));
                assert forall|a: int, b: int| 0 <= a < visited@.len() && 0 <= b < visited@.len() && a != b
                    implies visited@[a] != visited@[b] by {
                    if a < vis_before.len() && b < vis_before.len() {
                        assert(visited@[a] == vis_before[a] && visited@[b] == vis_before[b]);
                    } else if a < vis_before.len() {
                        assert(visited@[a] == vis_before[a]);
                    } else if b < vis_before.len() {
                        assert(visited@[b] == vis_before[b]);
                    }
                }
            }
            let f = read_ifd(data, le, off as usize, &mut queue);
            let n = tiff_r16(data, off as usize, le);
            let pos: u64 = off as u64 + 2 + n as u64 * 12;
            let next: u32 = if pos + 4 > len { 0 } else { tiff_r32(data, pos as usize, le) };
            proof {
                assert(pos == entry_pos(off as int, n as int));
                assert(next == r32(data@, entry_pos(off as int, n as int), le));
            }
            if next != 0 {
                queue.push(next);
            }
            let ghost cands_before = cands@;
            if (f.compression == 34892 || f.compression == 7 || f.compression == 6)
                && f.width > 0 && f.height > 0 && f.offsets.len() > 0 && f.counts.len() > 0
            {
                cands.push(DngCandidate {
                    width: f.width,
                    height: f.height,
                    offsets: f.offsets,
                    counts: f.counts,
                    tile_w: f.tile_w,
                    tile_h: f.tile_h,
                    subfile: f.subfile,
                });
            }
            proof {
                steps = steps + 1;
                assert(cands_view(cands@) =~= walk_step(data@, le, before).cands);
            }
        }
    }
    cands
}

/// The JPEG-compressed images of TIFF/DNG data (see [`walk_result`]), main
/// images first and, among those of one kind, the larger first (a stable
/// sort). Errors: data shorter than 8 bytes, no `II`/`MM` byte-order mark,
/// no TIFF magic number 42, or no JPEG-compressed image.
pub fn dng_jpeg_candidates(data: &[u8]) -> (r: Result<Vec<DngCandidate>, String>)
    ensures
        data@.len() < 8 ==> (r matches Err(e) && e@ == "file too small"@),
        data@.len() >= 8 && !((data@[0] == 0x49 && data@[1] == 0x49) || (data@[0] == 0x4D && data@[1] == 0x4D))
            ==> (r matches Err(e) && e@ == "not a TIFF/DNG file"@),
        data@.len() >= 8 && ((data@[0] == 0x49 && data@[1] == 0x49) || (data@[0] == 0x4D && data@[1] == 0x4D)) ==> ({
            let le = data@[0] == 0x49;
            if r16(data@, 2, le) != 42 {
                r matches Err(e) && e@ == "TIFF magic mismatch"@
            } else {
                exists|cands: Seq<(u32, u32, Seq<u32>, Seq<u32>, Option<u32>, Option<u32>, u32)>|
                    #[trigger] walk_result(data@, le, cands) && {
                    &&& cands.len() == 0 ==> (r matches Err(e) && e@ == "no JPEG-compressed IFD found in DNG"@)
                    &&& cands.len() > 0 ==> (r matches Ok(v) && exists|p: Seq<usize>| {
                        &&& #[trigger] is_permutation(p, cands.len())
                        &&& v@.len() == p.len()
                        &&& forall|i: int| 0 <= i < p.len() ==> cand_view(#[trigger] v@[i]) == cands[p[i] as int]
                        &&& forall|i: int, j: int| 0 <= i < j < p.len() ==>
                            cand_key(cands[p[i] as int]) < cand_key(cands[p[j] as int])
                            || (cand_key(cands[p[i] as int]) == cand_key(cands[p[j] as int]) && p[i] < p[j])
                    })
                }
            }
        }),
{
    if data.len() < 8 {
        return Err("file too small".to_owned());
    }
    let le = if data[0] == 0x49 && data[1] == 0x49 {
        true
    } else if data[0] == 0x4D && data[1] == 0x4D {
        false
    } else {
        return Err("not a TIFF/DNG file".to_owned());
    };
    if tiff_r16(data, 2, le) != 42 {
        return Err("TIFF magic mismatch".to_owned());
    }
    let cands = walk_ifds(data, le);
    if cands.len() == 0 {
        return Err("no JPEG-compressed IFD found in DNG".to_owned());
    }
    let ghost cv = cands_view(cands@);
    let mut keys: Vec<i128> = Vec::new();
    let mut i: usize = 0;
    while i < cands.len()
        invariant
            i <= cands.len(),
            cv == cands_view(cands@),
            keys@.len() == i,
            forall|k: int| 0 <= k < i ==> keys@[k] as int == cand_key(#[trigger] cv[k]),
        decreases cands.len() - i,
    {
        let c = &cands[i];
        let w = c.width as u64;
        let h = c.height as u64;
        proof {
            assert(w * h <= 0xFFFF_FFFF_FFFF_FFFF) by (nonlinear_arith)
                requires w <= 0xFFFF_FFFF, h <= 0xFFFF_FFFF;
        }
        let area: u64 = w * h;
        let key: i128 = c.subfile as i128 * 0x1_0000_0000_0000_0000i128 + (0xFFFF_FFFF_FFFF_FFFFi128 - area as i128);
        keys.push(key);
        i = i + 1;
    }
    let sort_keys = SortKeys::Numbers(keys);
    let order = stable_order(&sort_keys);
    let mut out: Vec<DngCandidate> = Vec::new();
    let mut j: usize = 0;
    while j < order.len()
        invariant
            j <= order.len(),
            cv == cands_view(cands@),
            is_permutation(order@, cands@.len() as nat),
            out@.len() == j,
            forall|m: int| 0 <= m < j ==> cand_view(#[trigger] out@[m]) == cv[order@[m] as int],
        decreases order.len() - j,
    {
        let c = &cands[order[j]];
        out.push(DngCandidate {
            width: c.width,
            height: c.height,
            offsets: copy_u32s(&c.offsets),
            counts: copy_u32s(&c.counts),
            tile_w: c.tile_w,
            tile_h: c.tile_h,
            subfile: c.subfile,
        });
        j = j + 1;
    }
    proof {
        let p = order@;
        assert forall|a: int, b: int| 0 <= a < b < p.len() implies
            cand_key(cv[p[a] as int]) < cand_key(cv[p[b] as int])
            || (cand_key(cv[p[a] as int]) == cand_key(cv[p[b] as int]) && p[a] < p[b]) by {
            assert(sort_keys.before(p[a] as int, p[b] as int));
        }
    }
    Ok(out)
}

} // verus!
