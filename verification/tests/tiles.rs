use rivett::dng::DngCandidate;
use rivett::tiles::{
    assemble_jpeg_strips, assemble_jpeg_tiles, candidate_is_usable, decode_candidate, decode_first_candidate,
    decode_jpeg_strip, largest_decodable_jpeg,
};

/// A solid-colour JPEG of the given size.
fn jpeg(width: u32, height: u32, rgb: [u8; 3]) -> Vec<u8> {
    let img = image::RgbImage::from_pixel(width, height, image::Rgb(rgb));
    let mut out = std::io::Cursor::new(Vec::new());
    image::DynamicImage::ImageRgb8(img).write_to(&mut out, image::ImageFormat::Jpeg).unwrap();
    out.into_inner()
}

/// What the decoder makes of `bytes`, as RGBA.
fn decoded(bytes: &[u8]) -> image::RgbaImage {
    image::load_from_memory_with_format(bytes, image::ImageFormat::Jpeg).unwrap().to_rgba8()
}

/// `data` with `pieces` appended; their offsets and byte counts.
fn append(data: &mut Vec<u8>, pieces: &[Vec<u8>]) -> (Vec<u32>, Vec<u32>) {
    let mut offsets = vec![];
    let mut counts = vec![];
    for p in pieces {
        offsets.push(data.len() as u32);
        counts.push(p.len() as u32);
        data.extend_from_slice(p);
    }
    (offsets, counts)
}

#[test]
fn strip_out_of_bounds_and_bad_marker() {
    let j = jpeg(8, 8, [10, 20, 30]);
    let mut data = vec![0u8; 4];
    data.extend_from_slice(&j);
    assert_eq!(decode_jpeg_strip(&data, 4, j.len() + 1).err().unwrap(), "strip offset out of bounds");
    assert_eq!(decode_jpeg_strip(&data, usize::MAX, 2).err().unwrap(), "strip offset out of bounds");
    assert_eq!(decode_jpeg_strip(&data, 0, 8).err().unwrap(), "not a JPEG marker");
    assert_eq!(decode_jpeg_strip(&data, 4, 1).err().unwrap(), "not a JPEG marker");
    let p = decode_jpeg_strip(&data, 4, j.len()).unwrap();
    assert_eq!((p.width, p.height), (8, 8));
    assert_eq!(p.pixels, decoded(&j).into_raw());
}

#[test]
fn strip_that_does_not_decode_gives_the_decoder_error() {
    let data = vec![0xFF, 0xD8, 0x00, 0x00, 0x00];
    let err = decode_jpeg_strip(&data, 0, 5).err().unwrap();
    assert!(!err.is_empty());
}

#[test]
fn tiles_are_laid_out_row_by_row_and_clipped() {
    // A 12×10 canvas of 8×8 tiles: two across, two down; the right and
    // bottom tiles are clipped.
    let colours = [[255, 0, 0], [0, 255, 0], [0, 0, 255], [255, 255, 255]];
    let tiles: Vec<Vec<u8>> = colours.iter().map(|c| jpeg(8, 8, *c)).collect();
    let mut data = vec![0u8; 2];
    let (offsets, counts) = append(&mut data, &tiles);
    let p = assemble_jpeg_tiles(&data, &offsets, &counts, 12, 10, 8, 8).unwrap();
    assert_eq!((p.width, p.height), (12, 10));
    assert_eq!(p.pixels.len(), 12 * 10 * 4);
    let px = |x: usize, y: usize| &p.pixels[(y * 12 + x) * 4..(y * 12 + x) * 4 + 4];
    for (i, t) in tiles.iter().enumerate() {
        let d = decoded(t);
        let (x0, y0) = ((i % 2) * 8, (i / 2) * 8);
        for y in y0..(y0 + 8).min(10) {
            for x in x0..(x0 + 8).min(12) {
                assert_eq!(px(x, y), &d.get_pixel((x - x0) as u32, (y - y0) as u32).0[..]);
            }
        }
    }
}

#[test]
fn missing_tiles_leave_the_canvas_blank() {
    let t = jpeg(8, 8, [200, 200, 200]);
    let mut data = vec![];
    let (offsets, counts) = append(&mut data, &[t]);
    let p = assemble_jpeg_tiles(&data, &offsets, &counts, 16, 8, 8, 8).unwrap();
    assert!(p.pixels[(8 * 4)..(16 * 4)].iter().all(|b| *b == 0));
    assert!(p.pixels[..4].iter().any(|b| *b != 0));
}

#[test]
fn first_bad_tile_gives_the_error() {
    let t = jpeg(8, 8, [1, 2, 3]);
    let mut data = vec![];
    let (mut offsets, mut counts) = append(&mut data, &[t.clone(), t]);
    offsets.push(0);
    counts.push(data.len() as u32 + 10);
    offsets.insert(1, 1);
    counts.insert(1, 4);
    let err = assemble_jpeg_tiles(&data, &offsets, &counts, 16, 16, 8, 8).err().unwrap();
    assert_eq!(err, "not a JPEG marker");
}

#[test]
fn oversized_canvas_is_a_size_mismatch() {
    assert_eq!(
        assemble_jpeg_tiles(&[], &[], &[], 70_000, 70_000, 256, 256).err().unwrap(),
        "buffer size mismatch for tiled assembly"
    );
    assert_eq!(
        assemble_jpeg_strips(&[], &[], &[], 70_000, 70_000).err().unwrap(),
        "buffer size mismatch for strip assembly"
    );
}

#[test]
fn strips_stack_top_to_bottom_until_the_bottom() {
    let top = jpeg(10, 4, [255, 0, 0]);
    let bottom = jpeg(10, 4, [0, 0, 255]);
    let mut data = vec![];
    let (mut offsets, mut counts) = append(&mut data, &[top.clone(), bottom.clone()]);
    // A third strip that does not decode is never reached: the first two
    // already fill the canvas.
    offsets.push(0);
    counts.push(1);
    let p = assemble_jpeg_strips(&data, &offsets, &counts, 8, 6).unwrap();
    assert_eq!((p.width, p.height, p.pixels.len()), (8, 6, 8 * 6 * 4));
    let (dt, db) = (decoded(&top), decoded(&bottom));
    for y in 0..6u32 {
        for x in 0..8u32 {
            let want = if y < 4 { dt.get_pixel(x, y) } else { db.get_pixel(x, y - 4) };
            let at = ((y * 8 + x) * 4) as usize;
            assert_eq!(&p.pixels[at..at + 4], &want.0[..]);
        }
    }
}

#[test]
fn strip_error_before_the_bottom() {
    let top = jpeg(8, 2, [9, 9, 9]);
    let mut data = vec![];
    let (mut offsets, mut counts) = append(&mut data, &[top]);
    offsets.push(0);
    counts.push(1);
    assert_eq!(assemble_jpeg_strips(&data, &offsets, &counts, 8, 6).err().unwrap(), "not a JPEG marker");
}

fn candidate(offsets: Vec<u32>, counts: Vec<u32>, w: u32, h: u32, tile: Option<(u32, u32)>) -> DngCandidate {
    DngCandidate {
        width: w,
        height: h,
        offsets,
        counts,
        tile_w: tile.map(|t| t.0),
        tile_h: tile.map(|t| t.1),
        subfile: 0,
    }
}

#[test]
fn candidates_are_tried_in_order() {
    let j = jpeg(16, 16, [50, 100, 150]);
    let mut data = vec![0u8; 3];
    let (offsets, counts) = append(&mut data, &[j.clone()]);
    let broken = candidate(vec![0], vec![3], 16, 16, None);
    let single = candidate(offsets.clone(), counts.clone(), 99, 99, None);
    let tiled = candidate(offsets.clone(), counts.clone(), 16, 16, Some((16, 16)));
    assert!(decode_candidate(&data, &broken).is_err());
    // A single strip is the whole image, whatever size the IFD states.
    let p = decode_candidate(&data, &single).unwrap();
    assert_eq!((p.width, p.height), (16, 16));
    let broken_too = candidate(vec![0], vec![3], 16, 16, None);
    let p = decode_first_candidate(&data, &[broken_too, tiled]).unwrap();
    assert_eq!(p.pixels, decoded(&j).into_raw());
    assert_eq!(
        decode_first_candidate(&data, &[broken]).err().unwrap(),
        "failed to decode any JPEG-compressed IFD from DNG"
    );
}

#[test]
fn usable_candidates() {
    assert!(!candidate_is_usable(&candidate(vec![1], vec![1], 8, 8, Some((0, 8)))));
    assert!(!candidate_is_usable(&candidate(vec![1], vec![1], 0, 8, Some((8, 8)))));
    assert!(candidate_is_usable(&candidate(vec![], vec![1], 0, 8, Some((8, 8)))));
    assert!(!candidate_is_usable(&candidate(vec![1], vec![], 8, 8, None)));
    assert!(candidate_is_usable(&candidate(vec![1, 2], vec![], 8, 8, None)));
}

#[test]
fn largest_decodable_embedded_jpeg_is_chosen() {
    let small = jpeg(8, 8, [10, 200, 10]);
    let big = jpeg(32, 32, [200, 10, 10]);
    // A longer span that does not decode: a start marker, junk, an end marker.
    let mut junk = vec![0xFF, 0xD8, 0xFF];
    junk.extend(std::iter::repeat(7u8).take(big.len() + 50));
    junk.extend([0xFF, 0xD9]);
    let mut data = vec![1u8, 2, 3];
    let s_small = data.len();
    data.extend_from_slice(&small);
    data.extend_from_slice(&junk);
    let s_big = data.len();
    data.extend_from_slice(&big);
    data.extend_from_slice(&[0, 0]);
    let (s, e, p) = largest_decodable_jpeg(&data).unwrap();
    assert_eq!((s, e), (s_big, s_big + big.len()));
    assert_eq!((p.width, p.height), (32, 32));
    // Without the big one, the junk is tried first and the small one decodes.
    let cut = &data[..s_big];
    let (s, _, p) = largest_decodable_jpeg(cut).unwrap();
    assert_eq!(s, s_small);
    assert_eq!((p.width, p.height), (8, 8));
}

#[test]
fn embedded_jpeg_errors() {
    assert_eq!(
        largest_decodable_jpeg(&[0, 1, 2, 3]).err().unwrap(),
        "Could not find any embedded JPEG preview in file"
    );
    let bad = [0xFF, 0xD8, 0xFF, 0x00, 0x00, 0xFF, 0xD9];
    assert!(largest_decodable_jpeg(&bad).err().unwrap().starts_with("failed to decode extracted preview: "));
}
