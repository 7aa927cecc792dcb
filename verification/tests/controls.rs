use rivett::controls::{
    delete_confirm_alive, entry_layout, keyboard_actions, toast_alive, orientation_transform, rating_line, rating_toast, save_plan, window_title, Action,
    EntryLayout, KeyInput, PixelTransform, SavePlan,
};
use rivett::meta::MetaEntry;
use rivett::formats::SupportedFormat;
use rivett::rotation::Rotation;

fn keys() -> KeyInput {
    KeyInput {
        escape: false,
        question_mark: false,
        shift: false,
        alt: false,
        ctrl: false,
        no_modifiers: true,
        right: false,
        left: false,
        down: false,
        page_down: false,
        up: false,
        page_up: false,
        home: false,
        end: false,
        key_i: false,
        digits: [false; 6],
        key_h: false,
        open_bracket: false,
        close_bracket: false,
        key_f: false,
        delete: false,
        key_r: false,
        key_s: false,
        widget_focused: false,
    }
}

#[test]
fn arrows_navigate() {
    let k = KeyInput { right: true, ..keys() };
    assert_eq!(keyboard_actions(&k, false, false, false), vec![Action::Next { preserve_zoom: false }]);
    let k = KeyInput { left: true, shift: true, no_modifiers: false, ..keys() };
    assert_eq!(keyboard_actions(&k, false, false, false), vec![Action::Prev { preserve_zoom: true }]);
    let k = KeyInput { page_down: true, ..keys() };
    assert_eq!(keyboard_actions(&k, false, false, false), vec![Action::NextN { n: 10, preserve_zoom: false }]);
}

#[test]
fn alt_up_goes_to_parent() {
    let k = KeyInput { up: true, alt: true, no_modifiers: false, ..keys() };
    assert_eq!(
        keyboard_actions(&k, false, false, false),
        vec![Action::PrevN { n: 10, preserve_zoom: false }, Action::Parent]
    );
}

#[test]
fn digits_rate_without_modifiers() {
    let k = KeyInput { digits: [true, false, false, true, false, false], ..keys() };
    assert_eq!(
        keyboard_actions(&k, false, false, false),
        vec![Action::SetRating { rating: None }, Action::SetRating { rating: Some(3) }]
    );
    let k = KeyInput { digits: [false, true, false, false, false, false], no_modifiers: false, ctrl: true, ..keys() };
    assert!(keyboard_actions(&k, false, false, false).is_empty());
}

#[test]
fn escape_closes_help_first() {
    let k = KeyInput { escape: true, right: true, ..keys() };
    assert_eq!(keyboard_actions(&k, true, true, true), vec![Action::CloseHelp]);
}

#[test]
fn escape_cancels_armed_delete() {
    let k = KeyInput { escape: true, delete: true, ..keys() };
    assert_eq!(
        keyboard_actions(&k, false, true, true),
        vec![Action::CancelDelete, Action::ConfirmDelete]
    );
}

#[test]
fn second_delete_within_window_deletes() {
    let k = KeyInput { delete: true, ..keys() };
    assert_eq!(keyboard_actions(&k, false, false, false), vec![Action::ConfirmDelete]);
    assert_eq!(keyboard_actions(&k, false, true, true), vec![Action::ExecuteDelete]);
    assert_eq!(keyboard_actions(&k, false, true, false), vec![Action::ConfirmDelete]);
}

#[test]
fn focused_widget_blocks_hotkeys() {
    let k = KeyInput { widget_focused: true, right: true, delete: true, key_h: true, ..keys() };
    assert!(keyboard_actions(&k, false, true, true).is_empty());
    let k = KeyInput { widget_focused: true, escape: true, ..keys() };
    assert_eq!(keyboard_actions(&k, false, true, true), vec![Action::CancelDelete]);
}

#[test]
fn question_mark_toggles_help_alone() {
    let k = KeyInput { question_mark: true, right: true, ..keys() };
    assert_eq!(keyboard_actions(&k, false, false, false), vec![Action::ToggleHelp]);
}

#[test]
fn refresh_and_save_shortcuts() {
    let k = KeyInput { ctrl: true, key_r: true, no_modifiers: false, ..keys() };
    assert_eq!(keyboard_actions(&k, false, false, false), vec![Action::SoftRefresh]);
    let k = KeyInput { ctrl: true, shift: true, key_r: true, no_modifiers: false, ..keys() };
    assert_eq!(keyboard_actions(&k, false, false, false), vec![Action::HardRefresh]);
    let k = KeyInput { ctrl: true, key_s: true, no_modifiers: false, ..keys() };
    assert_eq!(keyboard_actions(&k, false, false, false), vec![Action::SaveChanges]);
    let k = KeyInput { ctrl: true, shift: true, key_s: true, no_modifiers: false, ..keys() };
    assert_eq!(keyboard_actions(&k, false, false, false), vec![Action::SaveAs]);
}

#[test]
fn view_and_edit_keys_in_order() {
    let k = KeyInput { key_i: true, key_h: true, open_bracket: true, close_bracket: true, key_f: true, home: true, end: true, ..keys() };
    assert_eq!(
        keyboard_actions(&k, false, false, false),
        vec![
            Action::First { preserve_zoom: false },
            Action::Last { preserve_zoom: false },
            Action::ToggleInfoPanel,
            Action::Hide,
            Action::RotateCcw,
            Action::RotateCw,
            Action::ToggleFit,
        ]
    );
}

#[test]
fn save_plans() {
    assert_eq!(save_plan(Rotation::Cw0, false, Some(SupportedFormat::Jpeg)), SavePlan::NoChanges);
    assert_eq!(save_plan(Rotation::Cw90, false, None), SavePlan::UnknownFormat);
    assert_eq!(save_plan(Rotation::Cw0, true, Some(SupportedFormat::Png)), SavePlan::ReencodeWithoutMetadata);
    assert_eq!(save_plan(Rotation::Cw90, false, Some(SupportedFormat::Jpeg)), SavePlan::JpegOrientation);
    assert_eq!(save_plan(Rotation::Cw90, false, Some(SupportedFormat::Svg)), SavePlan::RefuseSvg);
    assert_eq!(save_plan(Rotation::Cw270, false, Some(SupportedFormat::Raw)), SavePlan::RefuseRaw);
    assert_eq!(save_plan(Rotation::Cw180, false, Some(SupportedFormat::Png)), SavePlan::PixelRotation);
}

#[test]
fn orientation_transforms() {
    assert_eq!(orientation_transform(1), PixelTransform::Identity);
    assert_eq!(orientation_transform(6), PixelTransform::Rotate90);
    assert_eq!(orientation_transform(5), PixelTransform::Rotate90ThenFlipHorizontal);
    assert_eq!(orientation_transform(9), PixelTransform::Identity);
}

#[test]
fn toast_texts() {
    assert_eq!(rating_toast(Some(3)), "Rated: ★★★ stars");
    assert_eq!(rating_toast(None), "Rating cleared");
}

#[test]
fn titles() {
    assert_eq!(window_title(None, None, false), "Rivett");
    assert_eq!(window_title(Some("/a/b.png"), None, false), "/a/b.png — Rivett");
    assert_eq!(window_title(Some("/a/b.png"), Some(4), true), "/a/b.png — Rivett (Library: ★ 4+)");
    assert_eq!(window_title(None, Some(2), false), "Rivett (Folder: ★ 2+)");
}

#[test]
fn rating_line_shows_stars_and_number() {
    assert_eq!(rating_line(None), "—");
    assert_eq!(rating_line(Some(3)), "★★★ (3)");
    assert_eq!(rating_line(Some(1)), "★ (1)");
}

fn entry(key: &str, value: &str, is_header: bool) -> MetaEntry {
    MetaEntry { key: key.to_string(), value: value.to_string(), is_header }
}

#[test]
fn metadata_entries_are_laid_out_by_kind_and_length() {
    assert!(matches!(entry_layout(&entry("EXIF", "", true)), EntryLayout::Heading));
    match entry_layout(&entry("Camera: Make", "Canon", false)) {
        EntryLayout::Line { label } => assert_eq!(label, "Camera Make"),
        _ => panic!("expected a line"),
    }
    assert!(matches!(entry_layout(&entry("Prompt", "a\nb", false)), EntryLayout::Folded { open: true }));
    assert!(matches!(entry_layout(&entry("Negative Prompt", "x\ny", false)), EntryLayout::Folded { open: true }));
    assert!(matches!(entry_layout(&entry("Workflow", "x\ny", false)), EntryLayout::Folded { open: false }));
    // Long but on one line: folded, closed even under a prompt key.
    let long = "w".repeat(121);
    assert!(matches!(entry_layout(&entry("Prompt", &long, false)), EntryLayout::Folded { open: false }));
    // 120 bytes exactly stay on one line; the length counts bytes, not characters.
    assert!(matches!(entry_layout(&entry("K", &"w".repeat(120), false)), EntryLayout::Line { .. }));
    assert!(matches!(entry_layout(&entry("K", &"é".repeat(61), false)), EntryLayout::Folded { open: false }));
}

#[test]
fn delete_stays_armed_for_four_seconds() {
    let k = KeyInput { delete: true, ..keys() };
    let just_in = delete_confirm_alive(3_999_999_999);
    assert_eq!(keyboard_actions(&k, false, true, just_in), vec![Action::ExecuteDelete]);
    let too_late = delete_confirm_alive(4_000_000_000);
    assert_eq!(keyboard_actions(&k, false, true, too_late), vec![Action::ConfirmDelete]);
    assert!(toast_alive(2_999_999_999));
    assert!(!toast_alive(3_000_000_000));
}
