use img_parts::png::{Png, PngChunk};
use img_parts::Bytes;
use rivett::camera::{exif_fields_of_file, orientation_of_file, CONTEXT_TIFF};
use rivett::formats::{output_format, SupportedFormat};
use rivett::jpegedit::jpeg_with_rotation;
use rivett::meta::{metadata_source, png_metadata, MetadataSource};
use rivett::rotation::Rotation;
use rivett::tiff::build_minimal_exif;

fn encoded(format: image::ImageFormat) -> Vec<u8> {
    let img = image::RgbImage::from_pixel(4, 4, image::Rgb([1, 2, 3]));
    let mut out = std::io::Cursor::new(Vec::new());
    image::DynamicImage::ImageRgb8(img).write_to(&mut out, format).unwrap();
    out.into_inner()
}

fn rotated_jpeg() -> Vec<u8> {
    jpeg_with_rotation(&encoded(image::ImageFormat::Jpeg), None, Rotation::Cw90).unwrap().unwrap()
}

#[test]
fn exif_fields_of_a_jpeg() {
    let fields = exif_fields_of_file(&rotated_jpeg()).unwrap();
    let o = fields.iter().find(|f| f.context == CONTEXT_TIFF && f.number == 0x112).unwrap();
    assert!(o.primary);
    assert_eq!(o.first_uint, Some(6));
    assert_eq!(o.name, "Orientation");
    assert!(o.rationals.is_empty());
    assert!(exif_fields_of_file(&encoded(image::ImageFormat::Jpeg)).is_none());
}

#[test]
fn exif_is_read_from_a_buried_tiff_header() {
    let mut raw = b"RAWHEADERjunk".to_vec();
    raw.extend_from_slice(&build_minimal_exif(8));
    let fields = exif_fields_of_file(&raw).unwrap();
    assert_eq!(fields.iter().find(|f| f.number == 0x112).unwrap().first_uint, Some(8));
    assert_eq!(orientation_of_file(&raw), Some(8));
}

#[test]
fn orientation_of_files() {
    assert_eq!(orientation_of_file(&rotated_jpeg()), Some(6));
    assert_eq!(orientation_of_file(&encoded(image::ImageFormat::Jpeg)), None);
    assert_eq!(orientation_of_file(b"no header here"), None);
}

fn png_with_text() -> Vec<u8> {
    let mut p = Png::from_bytes(Bytes::from(encoded(image::ImageFormat::Png))).unwrap();
    let n = p.chunks().len();
    p.chunks_mut().insert(1, PngChunk::new(*b"tEXt", Bytes::from_static(b"parameters\0a cat")));
    assert!(n > 1);
    p.encoder().bytes().to_vec()
}

#[test]
fn png_text_becomes_entries() {
    let entries = png_metadata(&png_with_text());
    assert_eq!(entries.len(), 1);
    assert_eq!(entries[0].key, "parameters");
    assert_eq!(entries[0].value, "a cat");
    assert!(!entries[0].is_header);
    assert!(png_metadata(b"not a png").is_empty());
}

#[test]
fn metadata_reader_by_content_and_extension() {
    assert_eq!(metadata_source(&png_with_text(), "x.jpg"), MetadataSource::Png);
    assert_eq!(metadata_source(&rotated_jpeg(), "x.png"), MetadataSource::Exif);
    assert_eq!(metadata_source(&encoded(image::ImageFormat::Bmp), "x.bmp"), MetadataSource::Nothing);
    assert_eq!(metadata_source(b"????", "shot.CR3"), MetadataSource::Exif);
    assert_eq!(metadata_source(b"????", "notes.txt"), MetadataSource::Nothing);
}

#[test]
fn output_formats() {
    assert_eq!(output_format("/out/a.JPG"), Some(SupportedFormat::Jpeg));
    assert_eq!(output_format("/out/a.jpeg"), Some(SupportedFormat::Jpeg));
    assert_eq!(output_format("/out/a.png"), Some(SupportedFormat::Png));
    assert_eq!(output_format("/out/a.webp"), None);
    assert_eq!(output_format("/out/a"), None);
}
