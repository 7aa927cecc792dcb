//! Rewriting the EXIF block of a JPEG: saving a rotation losslessly in the
//! Orientation tag, or removing the EXIF data altogether.

use vstd::prelude::*;
use img_parts::ImageEXIF;
use crate::text::lowercase_of;
use crate::formats::extension_spec;
use crate::rotation::{Rotation, rotation_of_orientation, orientation_of_rotation, compose,
    exif_orientation_to_rotation, rotation_to_exif_orientation, combine_rotations};
use crate::tiff::{patch_exif_orientation, patched_orientation, orientation_entry, minimal_exif, build_minimal_exif};

verus! {

/// Why `img_parts` could not read an image.
#[derive(Clone, Copy, Debug, PartialEq, Eq, Structural)]
pub enum JpegError {
    WrongSignature,
    BadCrc,
    Truncated,
}

impl JpegError {
    /// The message `img_parts` gives for the error (its `Display`).
    pub open spec fn message_spec(self) -> Seq<char> {
        match self {
            JpegError::WrongSignature => "the file signature didn't match the expected signature"@,
            JpegError::BadCrc => "the chunk CRC didn't match the expected calculated CRC"@,
            JpegError::Truncated => "a truncated chunk was read"@,
        }
    }

    pub fn message(&self) -> (s: String)
        ensures
            s@ == self.message_spec(),
    {
        match self {
            JpegError::WrongSignature => "the file signature didn't match the expected signature".to_owned(),
            JpegError::BadCrc => "the chunk CRC didn't match the expected calculated CRC".to_owned(),
            JpegError::Truncated => "a truncated chunk was read".to_owned(),
        }
    }
}

/// The segments, as `(marker, contents)`, that
/// `img_parts::jpeg::Jpeg::from_bytes` reads from `bytes`, or the message of
/// the error it gives.
pub uninterp spec fn jpeg_segments_of(bytes: Seq<u8>) -> Result<Seq<(u8, Seq<u8>)>, Seq<char>>;

pub open spec fn segments_view(v: Seq<(u8, Vec<u8>)>) -> Seq<(u8, Seq<u8>)> {
    Seq::new(v.len(), |i: int| (v[i].0, v[i].1@))
}

/// Segment contents short enough for the 16-bit segment length (which
/// counts its own two bytes).
pub open spec fn segments_fit(segs: Seq<(u8, Seq<u8>)>) -> bool {
    forall|i: int| 0 <= i < segs.len() ==> (#[trigger] segs[i]).1.len() <= 65533
}

/// `Jpeg::from_bytes`, then `Jpeg::segments` with each segment's `marker`
/// and `contents`; the error's variant is told apart. Trusted: the result
/// is named by [`jpeg_segments_of`], a function of the bytes alone, and an
/// error's message is the one `img_parts` displays for it. The contents it
/// reads fit the 16-bit length field: `JpegSegment::from_bytes` reads a
/// `u16` length and keeps that length less two bytes (none for markers
/// without a length).
#[verifier::external_body]
pub(crate) fn jpeg_segments(bytes: &[u8]) -> (r: Result<Vec<(u8, Vec<u8>)>, JpegError>)
    ensures
        match r {
            Ok(v) => jpeg_segments_of(bytes@) == Ok::<Seq<(u8, Seq<u8>)>, Seq<char>>(segments_view(v@))
                && segments_fit(segments_view(v@)),
            Err(k) => jpeg_segments_of(bytes@) == Err::<Seq<(u8, Seq<u8>)>, Seq<char>>(k.message_spec()),
        },
{
    match img_parts::jpeg::Jpeg::from_bytes(img_parts::Bytes::copy_from_slice(bytes)) {
        Ok(jpeg) => Ok(jpeg.segments().iter().map(|s| (s.marker(), s.contents().to_vec())).collect()),
        Err(img_parts::Error::WrongSignature) => Err(JpegError::WrongSignature),
        Err(img_parts::Error::BadCRC) => Err(JpegError::BadCrc),
        Err(img_parts::Error::Truncated) => Err(JpegError::Truncated),
    }
}

/// The bytes `img_parts` encodes for the JPEG read from `bytes` after its
/// EXIF data was replaced by `exif` (removed when `None`).
pub uninterp spec fn jpeg_with_exif_of(bytes: Seq<u8>, exif: Option<Seq<u8>>) -> Seq<u8>;

/// The prefix that marks an APP1 segment as EXIF data.
pub open spec fn exif_prefix() -> Seq<u8> {
    seq![0x45u8, 0x78u8, 0x69u8, 0x66u8, 0u8, 0u8]
}

/// An APP1 segment whose contents start with the EXIF prefix.
pub open spec fn is_exif_segment(s: (u8, Seq<u8>)) -> bool {
    s.0 == 0xE1 && s.1.len() >= 6 && s.1.subrange(0, 6) == exif_prefix()
}

/// The number of segments that are not EXIF segments.
pub open spec fn non_exif_count(segs: Seq<(u8, Seq<u8>)>) -> nat
    decreases segs.len(),
{
    if segs.len() == 0 {
        0
    } else {
        non_exif_count(segs.drop_last()) + if is_exif_segment(segs.last()) { 0nat } else { 1nat }
    }
}

/// The EXIF data of the first EXIF segment (its contents after the prefix).
pub open spec fn exif_of_segments(segs: Seq<(u8, Seq<u8>)>) -> Option<Seq<u8>>
    decreases segs.len(),
{
    if segs.len() == 0 {
        None
    } else if is_exif_segment(segs[0]) {
        Some(segs[0].1.subrange(6, segs[0].1.len() as int))
    } else {
        exif_of_segments(segs.drop_first())
    }
}

/// EXIF data taken from segments that fit the length field fits an EXIF
/// segment again.
pub proof fn lemma_exif_fits(segs: Seq<(u8, Seq<u8>)>)
    requires
        segments_fit(segs),
    ensures
        exif_of_segments(segs) matches Some(x) ==> x.len() <= 65527,
    decreases segs.len(),
{
    if segs.len() > 0 && !is_exif_segment(segs[0]) {
        assert(segments_fit(segs.drop_first())) by {
            assert forall|i: int| 0 <= i < segs.drop_first().len() implies
                (#[trigger] segs.drop_first()[i]).1.len() <= 65533 by {
                assert(segs.drop_first()[i] == segs[i + 1]);
            }
        }
        lemma_exif_fits(segs.drop_first());
    } else if segs.len() > 0 {
        assert(segs[0].1.len() <= 65533);
    }
}

pub open spec fn opt_bytes(o: Option<Vec<u8>>) -> Option<Seq<u8>> {
    match o {
        Some(v) => Some(v@),
        None => None,
    }
}

/// `Jpeg::from_bytes`, `ImageEXIF::set_exif` and `Jpeg::encoder().bytes()`.
/// Trusted: the result is named by [`jpeg_with_exif_of`] and it fails
/// exactly when reading fails, with the error [`jpeg_segments`] gives.
/// `set_exif` inserts the new segment at index 3, which panics when fewer
/// than three other segments are left, and encoding writes each segment's
/// length as a `u16`, which panics for EXIF data longer than 65527 bytes
/// (65535 less the length field and the 6-byte EXIF prefix): the `requires`
/// rules both out.
#[verifier::external_body]
pub(crate) fn jpeg_with_exif(bytes: &[u8], exif: Option<Vec<u8>>) -> (r: Result<Vec<u8>, JpegError>)
    requires
        exif is Some ==> (jpeg_segments_of(bytes@) matches Ok(segs) ==> non_exif_count(segs) >= 3),
        exif matches Some(x) ==> x@.len() <= 65527,
    ensures
        match r {
            Ok(v) => jpeg_segments_of(bytes@) is Ok && v@ == jpeg_with_exif_of(bytes@, opt_bytes(exif)),
            Err(k) => jpeg_segments_of(bytes@) == Err::<Seq<(u8, Seq<u8>)>, Seq<char>>(k.message_spec()),
        },
{
    match img_parts::jpeg::Jpeg::from_bytes(img_parts::Bytes::copy_from_slice(bytes)) {
        Ok(mut jpeg) => {
            jpeg.set_exif(exif.map(img_parts::Bytes::from));
            Ok(jpeg.encoder().bytes().to_vec())
        },
        Err(img_parts::Error::WrongSignature) => Err(JpegError::WrongSignature),
        Err(img_parts::Error::BadCRC) => Err(JpegError::BadCrc),
        Err(img_parts::Error::Truncated) => Err(JpegError::Truncated),
    }
}

fn is_exif_segment_exec(s: &(u8, Vec<u8>)) -> (b: bool)
    ensures
        b == is_exif_segment((s.0, s.1@)),
{
    let c = &s.1;
    if s.0 != 0xE1 || c.len() < 6 {
        return false;
    }
    let ok = c[0] == 0x45 && c[1] == 0x78 && c[2] == 0x69 && c[3] == 0x66 && c[4] == 0 && c[5] == 0;
    proof {
        if ok {
            assert(c@.subrange(0, 6) =~= exif_prefix());
        } else {
            assert(c@.subrange(0, 6) != exif_prefix()) by {
                if c@.subrange(0, 6) == exif_prefix() {
                    assert(c@.subrange(0, 6)[0] == c@[0]);
                    assert(c@.subrange(0, 6)[1] == c@[1]);
                    assert(c@.subrange(0, 6)[2] == c@[2]);
                    assert(c@.subrange(0, 6)[3] == c@[3]);
                    assert(c@.subrange(0, 6)[4] == c@[4]);
                    assert(c@.subrange(0, 6)[5] == c@[5]);
                }
            }
        }
    }
    ok
}

pub(crate) fn segments_exif(segs: &Vec<(u8, Vec<u8>)>) -> (r: (Option<Vec<u8>>, usize))
    ensures
        opt_bytes(r.0) == exif_of_segments(segments_view(segs@)),
        r.1 == non_exif_count(segments_view(segs@)),
{
    let ghost sv = segments_view(segs@);
    let mut found: Option<Vec<u8>> = None;
    let mut count: usize = 0;
    let mut i: usize = 0;
    proof {
        assert(sv.skip(0) =~= sv);
        assert(sv.take(0) =~= Seq::<(u8, Seq<u8>)>::empty());
    }
    while i < segs.len()
        invariant
            i <= segs.len(),
            sv == segments_view(segs@),
            count == non_exif_count(sv.take(i as int)),
            count <= i,
            exif_of_segments(sv) == match found {
                Some(v) => Some(v@),
                None => exif_of_segments(sv.skip(i as int)),
            },
        decreases segs.len() - i,
    {
        proof {
            assert(sv.take(i + 1).drop_last() =~= sv.take(i as int));
            assert(sv.take(i + 1).last() == sv[i as int]);
            assert(sv.skip(i as int).drop_first() =~= sv.skip(i + 1));
            assert(sv.skip(i as int)[0] == sv[i as int]);
        }
        let is_exif = is_exif_segment_exec(&segs[i]);
        if is_exif {
            if found.is_none() {
                let c = &segs[i].1;
                found = Some(bytes_from(c, 6));
            }
        } else {
            count = count + 1;
        }
        i = i + 1;
    }
    proof { assert(sv.take(segs.len() as int) =~= sv); }
    (found, count)
}

/// The message when a JPEG has EXIF data but no Orientation tag.
pub open spec fn no_orientation_message() -> Seq<char> {
    "JPEG has EXIF data but no Orientation tag; cannot save rotation without risking metadata loss"@
}

/// The Orientation value a JPEG gets when `rotation` is saved on top of the
/// orientation it has (`current`, from its metadata).
pub open spec fn saved_orientation(current: Option<u32>, rotation: Rotation) -> u16 {
    let base = match current {
        Some(o) => rotation_of_orientation(o),
        None => Rotation::Cw0,
    };
    orientation_of_rotation(compose(base, rotation))
}

/// The EXIF data written for a new orientation: the existing data with its
/// Orientation value replaced, or a minimal block when there was none.
/// `None` when there is EXIF data without an Orientation entry.
pub open spec fn rotated_exif(existing: Option<Seq<u8>>, o: u16) -> Option<Seq<u8>> {
    match existing {
        Some(b) => if orientation_entry(b) is Some { Some(patched_orientation(b, o)) } else { None },
        None => Some(minimal_exif(o)),
    }
}

/// A JPEG with `rotation` saved in its EXIF Orientation tag, on top of the
/// orientation `current` it has (its pixels are not touched).
///
/// `None` when the JPEG is read but has fewer than three segments besides
/// its EXIF data, where `img_parts` cannot place a new EXIF segment.
#[verifier::rlimit(30)]
pub fn jpeg_with_rotation(data: &[u8], current: Option<u32>, rotation: Rotation) -> (r: Option<Result<Vec<u8>, String>>)
    ensures
        match jpeg_segments_of(data@) {
            Err(m) => r matches Some(Err(e)) && e@ == m,
            Ok(segs) => {
                let o = saved_orientation(current, rotation);
                match rotated_exif(exif_of_segments(segs), o) {
                    None => r matches Some(Err(e)) && e@ == no_orientation_message(),
                    Some(x) => if non_exif_count(segs) >= 3 {
                        r matches Some(Ok(v)) && v@ == jpeg_with_exif_of(data@, Some(x))
                    } else {
                        r is None
                    },
                }
            },
        },
{
    let segs = match jpeg_segments(data) {
        Ok(s) => s,
        Err(k) => return Some(Err(k.message())),
    };
    let current_rot = match current {
        Some(o) => exif_orientation_to_rotation(o),
        None => Rotation::Cw0,
    };
    let total = combine_rotations(current_rot, rotation);
    let new_orientation = rotation_to_exif_orientation(total);
    let (existing, others) = segments_exif(&segs);
    proof { lemma_exif_fits(segments_view(segs@)); }
    let exif_bytes = match existing {
        Some(b) => {
            let mut bytes = b;
            let ghost before = bytes@;
            if !patch_exif_orientation(&mut bytes, new_orientation) {
                return Some(Err(
                    "JPEG has EXIF data but no Orientation tag; cannot save rotation without risking metadata loss"
                        .to_owned()));
            }
            proof { assert(bytes@.len() == before.len()); }
            bytes
        },
        None => build_minimal_exif(new_orientation),
    };
    assert(exif_bytes@.len() <= 65527);
    if others < 3 {
        return None;
    }
    match jpeg_with_exif(data, Some(exif_bytes)) {
        Ok(v) => Some(Ok(v)),
        Err(k) => Some(Err(k.message())),
    }
}

/// A JPEG without its EXIF data.
pub fn jpeg_without_exif(data: &[u8]) -> (r: Result<Vec<u8>, String>)
    ensures
        match jpeg_segments_of(data@) {
            Err(m) => r matches Err(e) && e@ == m,
            Ok(_) => r matches Ok(v) && v@ == jpeg_with_exif_of(data@, None),
        },
{
    match jpeg_with_exif(data, None) {
        Ok(v) => Ok(v),
        Err(k) => Err(k.message()),
    }
}

/// EXIF data is stripped only from files whose extension, lower-cased, is
/// `jpg` or `jpeg`.
pub open spec fn strips_exif(path: Seq<char>) -> bool {
    match extension_spec(path) {
        Some(e) => lowercase_of(e) == "jpg"@ || lowercase_of(e) == "jpeg"@,
        None => false,
    }
}

/// Whether EXIF data is stripped from the file at `path` (see [`strips_exif`]).
pub fn should_strip_exif(path: &str) -> (b: bool)
    ensures
        b == strips_exif(path@),
{
    match crate::formats::lowercase_extension(path) {
        Some(l) => {
            let jpg = "jpg".to_owned();
            let jpeg = "jpeg".to_owned();
            l == jpg || l == jpeg
        },
        None => false,
    }
}

fn bytes_from(v: &Vec<u8>, start: usize) -> (r: Vec<u8>)
    requires
        start <= v.len(),
    ensures
        r@ == v@.subrange(start as int, v.len() as int),
{
    let mut out: Vec<u8> = Vec::new();
    let mut i = start;
    while i < v.len()
        invariant
            start <= i <= v.len(),
            out@ == v@.subrange(start as int, i as int),
        decreases v.len() - i,
    {
        out.push(v[i]);
        i = i + 1;
        proof { assert(out@ =~= v@.subrange(start as int, i as int)); }
    }
    out
}

} // verus!
