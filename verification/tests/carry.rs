use img_parts::png::{Png, PngChunk};
use img_parts::Bytes;
use rivett::camera::get_orientation_from_bytes;
use rivett::carry::{jpeg_with_source_exif, png_with_source_text};
use rivett::jpegedit::jpeg_with_rotation;
use rivett::rotation::Rotation;

fn encoded(width: u32, height: u32, format: image::ImageFormat) -> Vec<u8> {
    let img = image::RgbImage::from_pixel(width, height, image::Rgb([90, 120, 150]));
    let mut out = std::io::Cursor::new(Vec::new());
    image::DynamicImage::ImageRgb8(img).write_to(&mut out, format).unwrap();
    out.into_inner()
}

#[test]
fn jpeg_exif_is_carried_over() {
    let plain = encoded(8, 8, image::ImageFormat::Jpeg);
    let with_exif = jpeg_with_rotation(&plain, None, Rotation::Cw90).unwrap().unwrap();
    assert_eq!(get_orientation_from_bytes(&with_exif), Some(6));
    let copy = encoded(16, 16, image::ImageFormat::Jpeg);
    assert_eq!(get_orientation_from_bytes(&copy), None);
    let carried = jpeg_with_source_exif(&with_exif, &copy).unwrap().unwrap();
    assert_eq!(get_orientation_from_bytes(&carried), Some(6));
    // The pixels are the copy's.
    let d = image::load_from_memory(&carried).unwrap();
    assert_eq!((d.width(), d.height()), (16, 16));
}

#[test]
fn jpeg_without_exif_or_unreadable_leaves_the_copy() {
    let plain = encoded(8, 8, image::ImageFormat::Jpeg);
    let copy = encoded(8, 8, image::ImageFormat::Jpeg);
    assert_eq!(jpeg_with_source_exif(&plain, &copy), Some(None));
    assert_eq!(jpeg_with_source_exif(b"not a jpeg", &copy), Some(None));
    let with_exif = jpeg_with_rotation(&plain, None, Rotation::Cw180).unwrap().unwrap();
    assert_eq!(jpeg_with_source_exif(&with_exif, b"not a jpeg"), Some(None));
}

fn with_chunk(png: &[u8], kind: &[u8; 4], contents: &[u8]) -> Vec<u8> {
    let mut p = Png::from_bytes(Bytes::copy_from_slice(png)).unwrap();
    let n = p.chunks().len();
    p.chunks_mut().insert(n - 1, PngChunk::new(*kind, Bytes::copy_from_slice(contents)));
    p.encoder().bytes().to_vec()
}

fn kinds(png: &[u8]) -> Vec<[u8; 4]> {
    Png::from_bytes(Bytes::copy_from_slice(png)).unwrap().chunks().iter().map(|c| c.kind()).collect()
}

#[test]
fn png_text_chunks_are_carried_before_the_end() {
    let src = with_chunk(&encoded(4, 4, image::ImageFormat::Png), b"tEXt", b"Comment\0hello");
    let src = with_chunk(&src, b"tIME", &[7, 234, 1, 1, 0, 0, 0]);
    let dst = encoded(6, 6, image::ImageFormat::Png);
    let out = png_with_source_text(&src, &dst).unwrap();
    let k = kinds(&out);
    assert_eq!(k.last(), Some(b"IEND"));
    assert_eq!(k[k.len() - 2], *b"tEXt");
    assert!(!k.contains(b"tIME"));
    let p = Png::from_bytes(Bytes::from(out)).unwrap();
    let text = p.chunks().iter().find(|c| c.kind() == *b"tEXt").unwrap();
    assert_eq!(&text.contents()[..], b"Comment\0hello");
    assert_eq!(image::load_from_memory(&p.encoder().bytes()).unwrap().width(), 6);
}

#[test]
fn png_that_does_not_read_carries_nothing() {
    let dst = encoded(6, 6, image::ImageFormat::Png);
    assert_eq!(png_with_source_text(b"junk", &dst), None);
    assert_eq!(png_with_source_text(&dst, b"junk"), None);
}
