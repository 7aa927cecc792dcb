use rivett::camera::get_orientation_from_bytes;
use rivett::dng::dng_jpeg_candidates;
use rivett::jpegedit::{jpeg_with_rotation, jpeg_without_exif, should_strip_exif, JpegError};
use rivett::rotation::Rotation;
use rivett::tiff::{
    build_minimal_exif, find_subsequence, find_tiff_header, embedded_jpeg_spans, patch_exif_orientation,
    tiff_array_u32, tiff_r16, tiff_r32, tiff_scalar,
};

#[test]
fn tiff_readers_respect_byte_order() {
    let d = [0x01, 0x02, 0x03, 0x04];
    assert_eq!(tiff_r16(&d, 0, true), 0x0201);
    assert_eq!(tiff_r16(&d, 0, false), 0x0102);
    assert_eq!(tiff_r32(&d, 0, true), 0x0403_0201);
    assert_eq!(tiff_r32(&d, 0, false), 0x0102_0304);
    assert_eq!(tiff_r16(&d, 3, true), 0);
    assert_eq!(tiff_r32(&d, 1, true), 0);
    assert_eq!(tiff_scalar(&d, true, 1, 2), 3);
    assert_eq!(tiff_scalar(&d, true, 3, 2), 0x0403);
    assert_eq!(tiff_scalar(&d, true, 1, 9), 0);
}

#[test]
fn tiff_arrays_inline_and_indirect() {
    // Two SHORTs inline at 0.
    let d = [0x05, 0x00, 0x06, 0x00];
    assert_eq!(tiff_array_u32(&d, true, 3, 2, 0), vec![5, 6]);
    // Three LONGs: the offset (4) is stored at 0.
    let mut e = vec![4, 0, 0, 0];
    e.extend_from_slice(&[1, 0, 0, 0, 2, 0, 0, 0, 3, 0, 0, 0]);
    assert_eq!(tiff_array_u32(&e, true, 4, 3, 0), vec![1, 2, 3]);
    // Values past the end read as 0.
    assert_eq!(tiff_array_u32(&e, true, 4, 5, 0), vec![1, 2, 3, 0, 0]);
}

#[test]
fn subsequence_search() {
    assert_eq!(find_subsequence(b"abcabc", b"ca"), Some(2));
    assert_eq!(find_subsequence(b"abc", b"x"), None);
    assert_eq!(find_subsequence(b"ab", b"abc"), None);
}

#[test]
fn tiff_header_prefers_little_endian() {
    let mut d = vec![0u8; 10];
    d.extend_from_slice(&[0x4D, 0x4D, 0x00, 0x2A]);
    d.extend_from_slice(&[0x49, 0x49, 0x2A, 0x00]);
    assert_eq!(find_tiff_header(&d), Some(14));
    assert_eq!(find_tiff_header(&d[..14]), Some(10));
    assert_eq!(find_tiff_header(b"nothing"), None);
}

#[test]
fn embedded_jpegs_are_found_in_order() {
    let mut d = vec![0u8; 3];
    d.extend_from_slice(&[0xFF, 0xD8, 0xFF, 1, 0xFF, 0xD9]); // 3..9
    d.extend_from_slice(&[0, 0]);
    d.extend_from_slice(&[0xFF, 0xD8, 0xFF, 1, 2, 3, 4, 0xFF, 0xD9]); // 11..20
    d.extend_from_slice(&[0, 0, 0]);
    assert_eq!(embedded_jpeg_spans(&d), vec![(3, 9), (11, 20)]);
    assert!(embedded_jpeg_spans(&[0xFF, 0xD8, 0xFF, 0]).is_empty());
    assert!(embedded_jpeg_spans(&[]).is_empty());
}

#[test]
fn minimal_exif_layout() {
    let b = build_minimal_exif(6);
    assert_eq!(b.len(), 26);
    assert_eq!(&b[..4], &[0x49, 0x49, 42, 0]);
    assert_eq!(&b[10..12], &[0x12, 0x01]);
    assert_eq!(b[18], 6);
}

#[test]
fn orientation_is_patched_in_place() {
    let mut b = build_minimal_exif(1);
    assert!(patch_exif_orientation(&mut b, 8));
    assert_eq!(b[18], 8);
    assert_eq!(get_orientation_from_bytes(&b), Some(8));
    let mut no_tag = build_minimal_exif(1);
    no_tag[10] = 0x13; // another tag
    let before = no_tag.clone();
    assert!(!patch_exif_orientation(&mut no_tag, 8));
    assert_eq!(no_tag, before);
    let mut short = vec![0x49, 0x49];
    assert!(!patch_exif_orientation(&mut short, 8));
}

#[test]
fn big_endian_orientation_is_patched() {
    let mut b = vec![0x4D, 0x4D, 0, 42, 0, 0, 0, 8, 0, 1, 0x01, 0x12, 0, 3, 0, 0, 0, 1, 0, 1, 0, 0, 0, 0, 0, 0];
    assert!(patch_exif_orientation(&mut b, 6));
    assert_eq!(&b[18..20], &[0, 6]);
}

/// A little-endian TIFF with one IFD of the given (tag, type, count, value) entries.
fn tiff_with(entries: &[(u16, u16, u32, u32)], tail: &[u8]) -> Vec<u8> {
    let mut d = vec![0x49, 0x49, 42, 0, 8, 0, 0, 0];
    d.extend_from_slice(&(entries.len() as u16).to_le_bytes());
    for (tag, typ, cnt, val) in entries {
        d.extend_from_slice(&tag.to_le_bytes());
        d.extend_from_slice(&typ.to_le_bytes());
        d.extend_from_slice(&cnt.to_le_bytes());
        d.extend_from_slice(&val.to_le_bytes());
    }
    d.extend_from_slice(&[0, 0, 0, 0]);
    d.extend_from_slice(tail);
    d
}

#[test]
fn dng_candidates_found_and_ordered() {
    // IFD0: a JPEG thumbnail (subfile 1, 10x10) pointing to a SubIFD with the main image.
    let ifd0_len = 8 + 2 + 6 * 12 + 4;
    let sub = ifd0_len as u32;
    let mut d = tiff_with(
        &[(254, 4, 1, 1), (256, 3, 1, 10), (257, 3, 1, 10), (259, 3, 1, 7), (273, 4, 1, 200), (330, 4, 1, sub)],
        &[],
    );
    // Strip offsets use tag 273 in TIFF, which the walk ignores; add 278-based ones to the SubIFD.
    let sub_entries: [(u16, u16, u32, u32); 5] =
        [(256, 4, 1, 4000), (257, 4, 1, 3000), (259, 3, 1, 34892), (324, 4, 1, 500), (325, 4, 1, 600)];
    d.extend_from_slice(&(sub_entries.len() as u16).to_le_bytes());
    for (tag, typ, cnt, val) in sub_entries {
        d.extend_from_slice(&tag.to_le_bytes());
        d.extend_from_slice(&typ.to_le_bytes());
        d.extend_from_slice(&cnt.to_le_bytes());
        d.extend_from_slice(&val.to_le_bytes());
    }
    d.extend_from_slice(&[0, 0, 0, 0]);
    let c = dng_jpeg_candidates(&d).unwrap();
    assert_eq!(c.len(), 1);
    assert_eq!((c[0].width, c[0].height, c[0].subfile), (4000, 3000, 0));
    assert_eq!(c[0].offsets, vec![500]);
    assert_eq!(c[0].counts, vec![600]);
}

#[test]
fn dng_errors() {
    assert_eq!(dng_jpeg_candidates(&[0; 4]).err().unwrap(), "file too small");
    assert_eq!(dng_jpeg_candidates(&[0; 8]).err().unwrap(), "not a TIFF/DNG file");
    assert_eq!(dng_jpeg_candidates(&[0x49, 0x49, 43, 0, 8, 0, 0, 0]).err().unwrap(), "TIFF magic mismatch");
    let d = tiff_with(&[(256, 3, 1, 10)], &[]);
    assert_eq!(dng_jpeg_candidates(&d).err().unwrap(), "no JPEG-compressed IFD found in DNG");
}

#[test]
fn dng_larger_main_image_first() {
    // IFD0 at 8 (small main image) chained to IFD1 (large main image).
    let mut d = vec![0x49, 0x49, 42, 0, 8, 0, 0, 0];
    let entries = |w: u32, h: u32| -> Vec<(u16, u16, u32, u32)> {
        vec![(256, 4, 1, w), (257, 4, 1, h), (259, 3, 1, 6), (273 + 5, 4, 1, 1), (279, 4, 1, 2)]
    };
    let ifd_len = 2 + 5 * 12 + 4;
    let first = entries(10, 10);
    d.extend_from_slice(&(first.len() as u16).to_le_bytes());
    for (tag, typ, cnt, val) in &first {
        d.extend_from_slice(&tag.to_le_bytes());
        d.extend_from_slice(&typ.to_le_bytes());
        d.extend_from_slice(&cnt.to_le_bytes());
        d.extend_from_slice(&val.to_le_bytes());
    }
    d.extend_from_slice(&((8 + ifd_len) as u32).to_le_bytes());
    let second = entries(100, 50);
    d.extend_from_slice(&(second.len() as u16).to_le_bytes());
    for (tag, typ, cnt, val) in &second {
        d.extend_from_slice(&tag.to_le_bytes());
        d.extend_from_slice(&typ.to_le_bytes());
        d.extend_from_slice(&cnt.to_le_bytes());
        d.extend_from_slice(&val.to_le_bytes());
    }
    // A next pointer back to the first IFD: visited IFDs are not walked twice.
    d.extend_from_slice(&8u32.to_le_bytes());
    let c = dng_jpeg_candidates(&d).unwrap();
    assert_eq!(c.len(), 2);
    assert_eq!((c[0].width, c[1].width), (100, 10));
}

/// A small JPEG: SOI, APP0, DQT, SOF0, SOS with a little entropy data, EOI.
fn tiny_jpeg(extra_app1: Option<&[u8]>) -> Vec<u8> {
    let mut d = vec![0xFF, 0xD8];
    d.extend_from_slice(&[0xFF, 0xE0, 0x00, 0x10, b'J', b'F', b'I', b'F', 0, 1, 1, 0, 0, 1, 0, 1, 0, 0]);
    if let Some(app1) = extra_app1 {
        d.extend_from_slice(&[0xFF, 0xE1]);
        d.extend_from_slice(&((app1.len() + 2) as u16).to_be_bytes());
        d.extend_from_slice(app1);
    }
    d.extend_from_slice(&[0xFF, 0xDB, 0x00, 0x04, 0x00, 0x01]);
    d.extend_from_slice(&[0xFF, 0xC0, 0x00, 0x05, 8, 0, 1]);
    d.extend_from_slice(&[0xFF, 0xDA, 0x00, 0x04, 0x01, 0x00, 0x12, 0x34]);
    d.extend_from_slice(&[0xFF, 0xD9]);
    d
}

#[test]
fn rotation_written_to_new_exif_block() {
    let data = tiny_jpeg(None);
    let out = jpeg_with_rotation(&data, None, Rotation::Cw90).unwrap().unwrap();
    assert!(find_subsequence(&out, b"Exif\0\0").is_some());
    assert_eq!(get_orientation_from_bytes(&out), Some(6));
}

#[test]
fn rotation_added_to_existing_orientation() {
    let mut app1 = b"Exif\0\0".to_vec();
    app1.extend_from_slice(&build_minimal_exif(6));
    let data = tiny_jpeg(Some(&app1));
    let out = jpeg_with_rotation(&data, Some(6), Rotation::Cw90).unwrap().unwrap();
    assert_eq!(get_orientation_from_bytes(&out), Some(3));
}

#[test]
fn rotation_refused_without_orientation_tag() {
    let mut exif = build_minimal_exif(1);
    exif[10] = 0x13;
    let mut app1 = b"Exif\0\0".to_vec();
    app1.extend_from_slice(&exif);
    let data = tiny_jpeg(Some(&app1));
    let r = jpeg_with_rotation(&data, None, Rotation::Cw180).unwrap();
    assert_eq!(
        r.err().unwrap(),
        "JPEG has EXIF data but no Orientation tag; cannot save rotation without risking metadata loss"
    );
}

#[test]
fn not_a_jpeg_is_an_error() {
    let r = jpeg_with_rotation(b"PNG?", None, Rotation::Cw90).unwrap();
    assert_eq!(r.err().unwrap(), JpegError::WrongSignature.message());
    assert!(jpeg_without_exif(b"nope").is_err());
}

#[test]
fn exif_is_stripped() {
    let mut app1 = b"Exif\0\0".to_vec();
    app1.extend_from_slice(&build_minimal_exif(6));
    let data = tiny_jpeg(Some(&app1));
    let out = jpeg_without_exif(&data).unwrap();
    assert!(find_subsequence(&out, b"Exif\0\0").is_none());
    assert_eq!(out, tiny_jpeg(None));
}

#[test]
fn only_jpegs_are_stripped() {
    assert!(should_strip_exif("/a/b.JPG"));
    assert!(should_strip_exif("/a/b.jpeg"));
    assert!(!should_strip_exif("/a/b.png"));
    assert!(!should_strip_exif("/a/jpg"));
}
