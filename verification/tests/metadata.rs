use rivett::camera::{combine_make_model, curate_exif, format_iso_timestamp, get_orientation_from_bytes, ExifField};
use rivett::meta::{
    extract_ai_prompt, extract_comfyui_prompt, inject_ai_prompts, png_text_entries, post_process_metadata,
    prompt_from_graph, GraphNode, MetaEntry,
};
use rivett::prompt::extract_a1111_prompt;
use rivett::tiff::build_minimal_exif;

fn entry(key: &str, value: &str) -> MetaEntry {
    MetaEntry { key: key.to_string(), value: value.to_string(), is_header: false }
}

fn pair(p: &str, n: Option<&str>) -> Option<(String, Option<String>)> {
    Some((p.to_string(), n.map(|s| s.to_string())))
}

#[test]
fn a1111_with_negative_prompt() {
    let params = "a cat on a mat\nNegative prompt: blurry, dark\nSteps: 20, Sampler: Euler";
    assert_eq!(extract_a1111_prompt(params), pair("a cat on a mat", Some("blurry, dark")));
}

#[test]
fn a1111_without_negative_prompt() {
    let params = "  sunset over hills \nSteps: 30, CFG scale: 7";
    assert_eq!(extract_a1111_prompt(params), pair("sunset over hills", None));
}

#[test]
fn a1111_settings_line_may_be_indented() {
    let params = "castle\n   Model: sdxl";
    assert_eq!(extract_a1111_prompt(params), pair("castle", None));
}

#[test]
fn a1111_empty_negative_is_none() {
    let params = "tree\nNegative prompt:\nSampler: DDIM";
    assert_eq!(extract_a1111_prompt(params), pair("tree", None));
}

#[test]
fn a1111_empty_positive_is_none() {
    assert_eq!(extract_a1111_prompt("Steps: 20"), None);
    assert_eq!(extract_a1111_prompt("Negative prompt: x"), None);
    assert_eq!(extract_a1111_prompt(""), None);
}

#[test]
fn a1111_crlf_lines() {
    let params = "dog\r\nSteps: 5";
    assert_eq!(extract_a1111_prompt(params), pair("dog", None));
}

#[test]
fn comfyui_positive_and_negative() {
    let json = r#"{
        "3": {"class_type": "KSampler", "inputs": {}},
        "6": {"class_type": "CLIPTextEncode", "inputs": {"text": " a red fox "}, "_meta": {"title": "Positive"}},
        "7": {"class_type": "CLIPTextEncode", "inputs": {"text": "ugly"}, "_meta": {"title": "CLIP Text Encode (NEGATIVE)"}},
        "8": {"class_type": "CLIPTextEncode", "inputs": {"text": "snow"}}
    }"#;
    assert_eq!(extract_comfyui_prompt(json), pair("a red fox\n\nsnow", Some("ugly")));
}

#[test]
fn comfyui_without_text_nodes() {
    assert_eq!(extract_comfyui_prompt(r#"{"1": {"class_type": "KSampler"}}"#), None);
    assert_eq!(extract_comfyui_prompt("not json"), None);
    assert_eq!(extract_comfyui_prompt("[1, 2]"), None);
}

#[test]
fn graph_prompt_from_nodes() {
    let nodes = vec![
        GraphNode { class_type: Some("CLIPTextEncode".into()), text: Some("one".into()), title: None },
        GraphNode { class_type: Some("CLIPTextEncode".into()), text: Some("  ".into()), title: None },
        GraphNode { class_type: Some("Other".into()), text: Some("skip".into()), title: None },
        GraphNode { class_type: Some("CLIPTextEncode".into()), text: Some("two".into()), title: Some("x".into()) },
    ];
    assert_eq!(prompt_from_graph(&nodes), pair("one\n\ntwo", None));
}

#[test]
fn ai_prompt_prefers_parameters() {
    let entries = vec![entry("Description", "caption"), entry("parameters", "hello\nSteps: 1")];
    assert_eq!(extract_ai_prompt(&entries), pair("hello", None));
}

#[test]
fn ai_prompt_falls_back_to_description() {
    let entries = vec![entry("prompt", "plain text"), entry("Description", "a lighthouse")];
    assert_eq!(extract_ai_prompt(&entries), pair("a lighthouse", None));
    assert_eq!(extract_ai_prompt(&vec![entry("Description", "")]), None);
    assert_eq!(extract_ai_prompt(&vec![]), None);
}

#[test]
fn inject_puts_prompts_first() {
    let mut entries = vec![entry("Software", "x"), entry("parameters", "owl\nNegative prompt: bad\nSteps: 3")];
    inject_ai_prompts(&mut entries);
    assert_eq!(entries.len(), 4);
    assert_eq!((entries[0].key.as_str(), entries[0].value.as_str()), ("Prompt", "owl"));
    assert_eq!((entries[1].key.as_str(), entries[1].value.as_str()), ("Negative Prompt", "bad"));
    assert_eq!(entries[2].key, "Software");
    assert_eq!(entries[3].key, "parameters");
}

#[test]
fn inject_without_prompt_changes_nothing() {
    let mut entries = vec![entry("Software", "x")];
    inject_ai_prompts(&mut entries);
    assert_eq!(entries.len(), 1);
}

#[test]
fn json_values_are_pretty_printed() {
    let mut entries = vec![
        entry("workflow", " {\"a\":1}"),
        entry("broken", "{not json"),
        MetaEntry { key: "hdr".into(), value: "{\"b\":2}".into(), is_header: true },
        entry("text", "plain"),
    ];
    post_process_metadata(&mut entries);
    assert_eq!(entries[0].value, "{\n  \"a\": 1\n}");
    assert_eq!(entries[1].value, "{not json");
    assert_eq!(entries[2].value, "{\"b\":2}");
    assert_eq!(entries[3].value, "plain");
}

#[test]
fn png_entries_skip_empty_utf8_text() {
    let latin1 = vec![("parameters".to_string(), "p".to_string())];
    let utf8 = vec![("a".to_string(), String::new()), ("b".to_string(), "v".to_string())];
    let e = png_text_entries(&latin1, &utf8);
    let keys: Vec<_> = e.iter().map(|m| m.key.as_str()).collect();
    assert_eq!(keys, vec!["parameters", "b"]);
}

#[test]
fn make_and_model_are_combined() {
    assert_eq!(combine_make_model(Some("Canon ".into()), Some(" Canon EOS R5".into())), Some("Canon EOS R5".into()));
    assert_eq!(combine_make_model(Some("SONY".into()), Some("ILCE-7M3".into())), Some("SONY ILCE-7M3".into()));
    assert_eq!(combine_make_model(Some("NIKON".into()), Some("nikon z6".into())), Some("nikon z6".into()));
    assert_eq!(combine_make_model(Some(" Fuji ".into()), None), Some("Fuji".into()));
    assert_eq!(combine_make_model(None, Some("X100V".into())), Some("X100V".into()));
    assert_eq!(combine_make_model(None, None), None);
}

#[test]
fn iso_timestamps() {
    assert_eq!(
        format_iso_timestamp(Some("2024:05:01 12:30:45".into()), Some("+02:00".into()), Some(" 123".into())),
        Some("2024-05-01T12:30:45.123+02:00".into())
    );
    assert_eq!(
        format_iso_timestamp(Some("2024:05:01 12:30:45".into()), Some("05:00".into()), None),
        Some("2024-05-01T12:30:45+05:00".into())
    );
    assert_eq!(format_iso_timestamp(Some("garbage".into()), None, None), Some("garbage".into()));
    assert_eq!(format_iso_timestamp(None, Some("+01:00".into()), None), None);
}

fn field(context: u8, number: u16, name: &str, display: &str, first_uint: Option<u32>) -> ExifField {
    ExifField {
        context,
        number,
        primary: true,
        name: name.to_string(),
        display: display.to_string(),
        display_with_unit: format!("{display} u"),
        first_uint,
        rationals: vec![],
    }
}

#[test]
fn exif_entries_are_curated() {
    let fields = vec![
        field(0, 0x10f, "Make", "Canon", None),
        field(0, 0x110, "Model", "Canon EOS R5", None),
        field(1, 0x829d, "FNumber", "2.8", None),
        field(0, 0x112, "Orientation", "row 0 at right", Some(6)),
        field(0, 0x100, "ImageWidth", "4000", Some(4000)),
        field(0, 0x11a, "XResolution", "72", None),
        ExifField { primary: false, ..field(0, 0x131, "Software", "thumb", None) },
    ];
    let entries = curate_exif(&fields, None, Some("1.000000°".into()), None, None);
    let pairs: Vec<_> = entries.iter().map(|e| (e.key.as_str(), e.value.as_str(), e.is_header)).collect();
    assert_eq!(
        pairs,
        vec![
            ("Device", "Canon EOS R5", false),
            ("Aperture", "f/2.8", false),
            ("Latitude", "1.000000°", false),
            ("Orientation", "90° CW", false),
            ("Other Metadata", "", true),
            ("XResolution", "72 u", false),
        ]
    );
}

#[test]
fn exif_exposure_uses_formatted_value() {
    let fields = vec![field(1, 0x829a, "ExposureTime", "1/250 s", None), field(2, 0x11, "GPSImgDirection", "90", None)];
    let entries = curate_exif(&fields, Some("1/250".into()), None, None, None);
    let pairs: Vec<_> = entries.iter().map(|e| (e.key.as_str(), e.value.as_str())).collect();
    assert_eq!(pairs, vec![("Exposure", "1/250"), ("Direction", "90°")]);
}

#[test]
fn orientation_read_from_tiff_bytes() {
    let data = build_minimal_exif(6);
    assert_eq!(get_orientation_from_bytes(&data), Some(6));
    assert_eq!(get_orientation_from_bytes(&[1, 2, 3]), None);
}

#[test]
fn a1111_prompt_ends_at_the_settings_line_with_crlf() {
    let params = "x\r\ny\r\nz\r\néé\r\nSteps: 1";
    assert_eq!(extract_a1111_prompt(params), pair("x\r\ny\r\nz\r\néé", None));
    let params = "up\r\nNegative prompt: dark\r\nmore\r\nSampler: Euler";
    assert_eq!(extract_a1111_prompt(params), pair("up", Some("dark\r\nmore")));
}
