//! Carrying the metadata of a source image over to a re-encoded copy of it:
//! the EXIF data of a JPEG, and the text and EXIF chunks of a PNG.

use vstd::prelude::*;
use crate::jpegedit::{
    jpeg_segments, jpeg_segments_of, jpeg_with_exif, jpeg_with_exif_of, segments_exif, exif_of_segments,
    non_exif_count,
};

verus! {

/// `dst`, a JPEG, with the EXIF data of the JPEG `src`: `Some(None)` when
/// there is nothing to carry (`src` does not read or has no EXIF data) or
/// `dst` does not read; `None` when `dst` has fewer than three segments
/// besides EXIF ones, where `img_parts` cannot place an EXIF segment.
pub open spec fn jpeg_carry_spec(src: Seq<u8>, dst: Seq<u8>) -> Option<Option<Seq<u8>>> {
    match jpeg_segments_of(src) {
        Ok(ss) => match exif_of_segments(ss) {
            Some(x) => match jpeg_segments_of(dst) {
                Ok(ds) => if non_exif_count(ds) >= 3 {
                    Some(Some(jpeg_with_exif_of(dst, Some(x))))
                } else {
                    None
                },
                Err(_) => Some(None),
            },
            None => Some(None),
        },
        Err(_) => Some(None),
    }
}

pub open spec fn opt_opt_bytes(r: Option<Option<Vec<u8>>>) -> Option<Option<Seq<u8>>> {
    match r {
        Some(Some(v)) => Some(Some(v@)),
        Some(None) => Some(None),
        None => None,
    }
}

/// The JPEG `dst` with the EXIF data of the JPEG `src` (see
/// [`jpeg_carry_spec`]).
pub fn jpeg_with_source_exif(src: &[u8], dst: &[u8]) -> (r: Option<Option<Vec<u8>>>)
    ensures
        opt_opt_bytes(r) == jpeg_carry_spec(src@, dst@),
{
    let segs = match jpeg_segments(src) {
        Ok(s) => s,
        Err(_) => return Some(None),
    };
    let (exif, _) = segments_exif(&segs);
    proof { crate::jpegedit::lemma_exif_fits(crate::jpegedit::segments_view(segs@)); }
    let x = match exif {
        Some(x) => x,
        None => return Some(None),
    };
    let dsegs = match jpeg_segments(dst) {
        Ok(s) => s,
        Err(_) => return Some(None),
    };
    let (_, others) = segments_exif(&dsegs);
    if others < 3 {
        return None;
    }
    match jpeg_with_exif(dst, Some(x)) {
        Ok(v) => Some(Some(v)),
        Err(_) => Some(None),
    }
}

/// The chunks, as `(type, contents)`, that `img_parts::png::Png::from_bytes`
/// reads from `bytes`; `None` when it fails.
pub uninterp spec fn png_chunks_of(bytes: Seq<u8>) -> Option<Seq<(Seq<u8>, Seq<u8>)>>;

pub open spec fn chunks_view(v: Seq<([u8; 4], Vec<u8>)>) -> Seq<(Seq<u8>, Seq<u8>)> {
    Seq::new(v.len(), |i: int| (v[i].0@, v[i].1@))
}

/// Chunk contents short enough for the 32-bit chunk length.
pub open spec fn chunks_fit(c: Seq<(Seq<u8>, Seq<u8>)>) -> bool {
    forall|i: int| 0 <= i < c.len() ==> (#[trigger] c[i]).1.len() <= 0xFFFF_FFFF
}

/// `Png::from_bytes`, then `Png::chunks` with each chunk's `kind` and
/// `contents`. Trusted: the result is named by [`png_chunks_of`], a
/// function of the bytes alone. The contents it reads fit the 32-bit length
/// field: `PngChunk::from_bytes` reads a `u32` length and takes that many
/// bytes.
#[verifier::external_body]
fn png_chunks(bytes: &[u8]) -> (r: Option<Vec<([u8; 4], Vec<u8>)>>)
    ensures
        match r {
            Some(v) => png_chunks_of(bytes@) == Some(chunks_view(v@)) && chunks_fit(chunks_view(v@)),
            None => png_chunks_of(bytes@) is None,
        },
{
    let png = img_parts::png::Png::from_bytes(img_parts::Bytes::copy_from_slice(bytes)).ok()?;
    Some(png.chunks().iter().map(|c| (c.kind(), c.contents().to_vec())).collect())
}

/// The bytes `img_parts` encodes for the PNG read from `bytes` once its
/// chunks are `chunks`.
pub uninterp spec fn png_with_chunks_of(bytes: Seq<u8>, chunks: Seq<(Seq<u8>, Seq<u8>)>) -> Seq<u8>;

/// `Png::from_bytes`, the chunk list replaced through `Png::chunks_mut` by
/// chunks made with `PngChunk::new`, and `Png::encoder().bytes()`. Trusted:
/// the result is named by [`png_with_chunks_of`] and it fails exactly when
/// reading fails. (`PngChunk::new` computes each chunk's CRC; chunks that
/// `from_bytes` read passed that same CRC check, so they encode as read.)
/// Encoding writes each chunk's length as a `u32` and panics on longer
/// contents: the `requires` rules that out.
#[verifier::external_body]
fn png_with_chunks(bytes: &[u8], chunks: Vec<([u8; 4], Vec<u8>)>) -> (r: Option<Vec<u8>>)
    requires
        chunks_fit(chunks_view(chunks@)),
    ensures
        match r {
            Some(v) => png_chunks_of(bytes@) is Some && v@ == png_with_chunks_of(bytes@, chunks_view(chunks@)),
            None => png_chunks_of(bytes@) is None,
        },
{
    let mut png = img_parts::png::Png::from_bytes(img_parts::Bytes::copy_from_slice(bytes)).ok()?;
    *png.chunks_mut() =
        chunks.into_iter().map(|(k, c)| img_parts::png::PngChunk::new(k, img_parts::Bytes::from(c))).collect();
    Some(png.encoder().bytes().to_vec())
}

/// The chunk types carried over: `tEXt`, `iTXt`, `zTXt` and `eXIf`.
pub open spec fn carried_kind(k: Seq<u8>) -> bool {
    k == seq![0x74u8, 0x45u8, 0x58u8, 0x74u8] || k == seq![0x69u8, 0x54u8, 0x58u8, 0x74u8]
        || k == seq![0x7Au8, 0x54u8, 0x58u8, 0x74u8] || k == seq![0x65u8, 0x58u8, 0x49u8, 0x66u8]
}

/// `dst` after the carried chunks of `src`, in order, were each inserted
/// before its last chunk (the image end), or appended when it has none.
pub open spec fn carry_chunks(dst: Seq<(Seq<u8>, Seq<u8>)>, src: Seq<(Seq<u8>, Seq<u8>)>) -> Seq<(Seq<u8>, Seq<u8>)>
    decreases src.len(),
{
    if src.len() == 0 {
        dst
    } else {
        let d = carry_chunks(dst, src.drop_last());
        let c = src.last();
        if carried_kind(c.0) {
            if d.len() > 0 { d.insert(d.len() - 1, c) } else { d.push(c) }
        } else {
            d
        }
    }
}

/// The PNG `dst` with the text and EXIF chunks of the PNG `src`; `None`
/// (nothing to carry) when either does not read.
pub open spec fn png_carry_spec(src: Seq<u8>, dst: Seq<u8>) -> Option<Seq<u8>> {
    match (png_chunks_of(src), png_chunks_of(dst)) {
        (Some(s), Some(d)) => Some(png_with_chunks_of(dst, carry_chunks(d, s))),
        _ => None,
    }
}

fn is_carried_kind(k: &[u8; 4]) -> (b: bool)
    ensures
        b == carried_kind(k@),
{
    let (a, b, c, d) = (k[0], k[1], k[2], k[3]);
    let r = (a == 0x74 && b == 0x45 && c == 0x58 && d == 0x74) || (a == 0x69 && b == 0x54 && c == 0x58 && d == 0x74)
        || (a == 0x7A && b == 0x54 && c == 0x58 && d == 0x74) || (a == 0x65 && b == 0x58 && c == 0x49 && d == 0x66);
    proof {
        assert(k@.len() == 4);
        if r {
            assert(k@ =~= seq![a, b, c, d]);
        } else {
            assert(k@[0] == a && k@[1] == b && k@[2] == c && k@[3] == d);
        }
    }
    r
}

fn copy_bytes(v: &Vec<u8>) -> (r: Vec<u8>)
    ensures
        r@ == v@,
{
    let mut out: Vec<u8> = Vec::new();
    let mut i: usize = 0;
    while i < v.len()
        invariant
            i <= v.len(),
            out@ == v@.take(i as int),
        decreases v.len() - i,
    {
        out.push(v[i]);
        i = i + 1;
        proof { assert(out@ =~= v@.take(i as int)); }
    }
    proof { assert(v@.take(v.len() as int) =~= v@); }
    out
}

/// The PNG `dst` with the text and EXIF chunks of the PNG `src` (see
/// [`png_carry_spec`]).
pub fn png_with_source_text(src: &[u8], dst: &[u8]) -> (r: Option<Vec<u8>>)
    ensures
        match png_carry_spec(src@, dst@) {
            Some(v) => r matches Some(x) && x@ == v,
            None => r is None,
        },
{
    let s = match png_chunks(src) {
        Some(s) => s,
        None => return None,
    };
    let mut d = match png_chunks(dst) {
        Some(d) => d,
        None => return None,
    };
    let ghost d0 = chunks_view(d@);
    let mut i: usize = 0;
    while i < s.len()
        invariant
            i <= s.len(),
            chunks_view(d@) == carry_chunks(d0, chunks_view(s@).take(i as int)),
            chunks_fit(chunks_view(d@)),
            chunks_fit(chunks_view(s@)),
        decreases s.len() - i,
    {
        proof {
            assert(chunks_view(s@).take(i + 1).drop_last() =~= chunks_view(s@).take(i as int));
            assert(chunks_view(s@).take(i + 1).last() == chunks_view(s@)[i as int]);
        }
        if is_carried_kind(&s[i].0) {
            let chunk = (s[i].0, copy_bytes(&s[i].1));
            let ghost before = chunks_view(d@);
            let n = d.len();
            if n > 0 {
                d.insert(n - 1, chunk);
                proof {
                    assert(chunks_view(d@) =~= before.insert(n - 1, chunks_view(s@)[i as int]));
                    assert forall|j: int| 0 <= j < chunks_view(d@).len() implies
                        (#[trigger] chunks_view(d@)[j]).1.len() <= 0xFFFF_FFFF by {
                        if j < n - 1 { assert(chunks_view(d@)[j] == before[j]); }
                        else if j == n - 1 { assert(chunks_view(d@)[j] == chunks_view(s@)[i as int]); }
                        else { assert(chunks_view(d@)[j] == before[j - 1]); }
                    }
                }
            } else {
                d.push(chunk);
                proof {
                    assert(chunks_view(d@) =~= before.push(chunks_view(s@)[i as int]));
                    assert forall|j: int| 0 <= j < chunks_view(d@).len() implies
                        (#[trigger] chunks_view(d@)[j]).1.len() <= 0xFFFF_FFFF by {
                        if j < before.len() { assert(chunks_view(d@)[j] == before[j]); }
                    }
                }
            }
        }
        i = i + 1;
    }
    proof { assert(chunks_view(s@).take(s.len() as int) =~= chunks_view(s@)); }
    match png_with_chunks(dst, d) {
        Some(v) => Some(v),
        None => None,
    }
}

} // verus!
