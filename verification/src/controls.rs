//! What the viewer does in answer to the keyboard, how it saves the edits of
//! an image, and the texts it shows.

use vstd::prelude::*;
use crate::text::{push_decimal, push_str, string_of, decimal, chars_of, lowercase, lowercase_of};
use crate::paths::chars_eq;
use crate::meta::MetaEntry;
use vstd::utf8::encode_utf8;
use crate::rotation::Rotation;
use crate::formats::SupportedFormat;

verus! {

/// The keys and modifiers of one frame of input.
pub struct KeyInput {
    pub escape: bool,
    /// A `?` was typed.
    pub question_mark: bool,
    pub shift: bool,
    pub alt: bool,
    pub ctrl: bool,
    /// No modifier is held at all.
    pub no_modifiers: bool,
    pub right: bool,
    pub left: bool,
    pub down: bool,
    pub page_down: bool,
    pub up: bool,
    pub page_up: bool,
    pub home: bool,
    pub end: bool,
    pub key_i: bool,
    /// The digit keys 0 to 5.
    pub digits: [bool; 6],
    pub key_h: bool,
    pub open_bracket: bool,
    pub close_bracket: bool,
    pub key_f: bool,
    pub delete: bool,
    pub key_r: bool,
    pub key_s: bool,
    /// A text field has the keyboard focus.
    pub widget_focused: bool,
}

/// What the viewer does, in the order it does it.
#[derive(Clone, Copy, Debug, PartialEq, Eq, Structural)]
pub enum Action {
    CloseHelp,
    CancelDelete,
    ToggleHelp,
    Next { preserve_zoom: bool },
    Prev { preserve_zoom: bool },
    NextN { n: usize, preserve_zoom: bool },
    PrevN { n: usize, preserve_zoom: bool },
    Parent,
    First { preserve_zoom: bool },
    Last { preserve_zoom: bool },
    ToggleInfoPanel,
    SetRating { rating: Option<u8> },
    Hide,
    RotateCcw,
    RotateCw,
    ToggleFit,
    ExecuteDelete,
    ConfirmDelete,
    HardRefresh,
    SoftRefresh,
    SaveChanges,
    SaveAs,
}

pub open spec fn action_if(b: bool, a: Action) -> Seq<Action> {
    if b { seq![a] } else { Seq::empty() }
}

/// The actions of the table whose condition holds, in table order.
pub open spec fn chosen(table: Seq<(bool, Action)>) -> Seq<Action>
    decreases table.len(),
{
    if table.len() == 0 {
        Seq::empty()
    } else {
        chosen(table.drop_last()) + action_if(table.last().0, table.last().1)
    }
}

/// Each key with the action it triggers, in the order the viewer checks
/// them. `alive` tells whether a pending delete is still alive; the rating
/// digits count only with no modifier held (0 clears the rating).
pub open spec fn key_table(k: KeyInput, alive: bool) -> Seq<(bool, Action)> {
    let z = k.shift;
    let m = k.no_modifiers;
    seq![
        (k.right, Action::Next { preserve_zoom: z }),
        (k.left, Action::Prev { preserve_zoom: z }),
        (k.down || k.page_down, Action::NextN { n: 10, preserve_zoom: z }),
        (k.up || k.page_up, Action::PrevN { n: 10, preserve_zoom: z }),
        (k.alt && k.up, Action::Parent),
        (k.home, Action::First { preserve_zoom: z }),
        (k.end, Action::Last { preserve_zoom: z }),
        (k.key_i, Action::ToggleInfoPanel),
        (m && k.digits[0], Action::SetRating { rating: None }),
        (m && k.digits[1], Action::SetRating { rating: Some(1u8) }),
        (m && k.digits[2], Action::SetRating { rating: Some(2u8) }),
        (m && k.digits[3], Action::SetRating { rating: Some(3u8) }),
        (m && k.digits[4], Action::SetRating { rating: Some(4u8) }),
        (m && k.digits[5], Action::SetRating { rating: Some(5u8) }),
        (k.key_h, Action::Hide),
        (k.open_bracket, Action::RotateCcw),
        (k.close_bracket, Action::RotateCw),
        (k.key_f, Action::ToggleFit),
        (k.delete, if alive { Action::ExecuteDelete } else { Action::ConfirmDelete }),
        (k.ctrl && k.key_r, if k.shift { Action::HardRefresh } else { Action::SoftRefresh }),
        (k.ctrl && !k.shift && k.key_s, Action::SaveChanges),
        (k.ctrl && k.shift && k.key_s, Action::SaveAs)
    ]
}

/// The actions for the keys of one frame. Escape closes the help overlay
/// (and nothing else happens) or cancels a pending delete; with a text
/// field focused nothing more happens; `?` toggles the help overlay alone.
/// Otherwise the keys act by [`key_table`]; Delete executes a pending
/// delete that is still alive (and not cancelled just now), else asks for
/// confirmation.
pub open spec fn keyboard_spec(k: KeyInput, show_help: bool, delete_pending: bool, delete_alive: bool) -> Seq<Action> {
    if k.escape && show_help {
        seq![Action::CloseHelp]
    } else {
        let cancelled = k.escape && delete_pending;
        let esc = action_if(cancelled, Action::CancelDelete);
        let alive = delete_pending && delete_alive && !cancelled;
        if k.widget_focused {
            esc
        } else if k.question_mark {
            esc + seq![Action::ToggleHelp]
        } else {
            esc + chosen(key_table(k, alive))
        }
    }
}

fn table_of(k: &KeyInput, alive: bool) -> (t: Vec<(bool, Action)>)
    ensures
        t@ == key_table(*k, alive),
{
    let z = k.shift;
    let m = k.no_modifiers;
    let t = vec![
        (k.right, Action::Next { preserve_zoom: z }),
        (k.left, Action::Prev { preserve_zoom: z }),
        (k.down || k.page_down, Action::NextN { n: 10, preserve_zoom: z }),
        (k.up || k.page_up, Action::PrevN { n: 10, preserve_zoom: z }),
        (k.alt && k.up, Action::Parent),
        (k.home, Action::First { preserve_zoom: z }),
        (k.end, Action::Last { preserve_zoom: z }),
        (k.key_i, Action::ToggleInfoPanel),
        (m && k.digits[0], Action::SetRating { rating: None }),
        (m && k.digits[1], Action::SetRating { rating: Some(1u8) }),
        (m && k.digits[2], Action::SetRating { rating: Some(2u8) }),
        (m && k.digits[3], Action::SetRating { rating: Some(3u8) }),
        (m && k.digits[4], Action::SetRating { rating: Some(4u8) }),
        (m && k.digits[5], Action::SetRating { rating: Some(5u8) }),
        (k.key_h, Action::Hide),
        (k.open_bracket, Action::RotateCcw),
        (k.close_bracket, Action::RotateCw),
        (k.key_f, Action::ToggleFit),
        (k.delete, if alive { Action::ExecuteDelete } else { Action::ConfirmDelete }),
        (k.ctrl && k.key_r, if k.shift { Action::HardRefresh } else { Action::SoftRefresh }),
        (k.ctrl && !k.shift && k.key_s, Action::SaveChanges),
        (k.ctrl && k.shift && k.key_s, Action::SaveAs)
    ];
    proof { assert(t@ =~= key_table(*k, alive)); }
    t
}

/// The actions for the keys of one frame (see [`keyboard_spec`]).
pub fn keyboard_actions(k: &KeyInput, show_help: bool, delete_pending: bool, delete_alive: bool) -> (r: Vec<Action>)
    ensures
        r@ == keyboard_spec(*k, show_help, delete_pending, delete_alive),
{
    let mut out: Vec<Action> = Vec::new();
    if k.escape && show_help {
        out.push(Action::CloseHelp);
        proof { assert(out@ =~= seq![Action::CloseHelp]); }
        return out;
    }
    let cancelled = k.escape && delete_pending;
    if cancelled {
        out.push(Action::CancelDelete);
    }
    proof { assert(out@ =~= action_if(cancelled, Action::CancelDelete)); }
    if k.widget_focused {
        return out;
    }
    if k.question_mark {
        out.push(Action::ToggleHelp);
        return out;
    }
    let alive = delete_pending && delete_alive && !cancelled;
    let table = table_of(k, alive);
    let ghost head = out@;
    let mut i: usize = 0;
    proof { assert(table@.take(0) =~= Seq::<(bool, Action)>::empty()); }
    while i < table.len()
        invariant
            i <= table.len(),
            out@ == head + chosen(table@.take(i as int)),
        decreases table.len() - i,
    {
        proof { assert(table@.take(i + 1).drop_last() =~= table@.take(i as int)); }
        let (b, a) = table[i];
        if b {
            out.push(a);
        }
        i = i + 1;
        proof { assert(out@ =~= head + chosen(table@.take(i as int))); }
    }
    proof { assert(table@.take(table.len() as int) =~= table@); }
    out
}

// ---------------------------------------------------------------------------
// Saving edits
// ---------------------------------------------------------------------------

/// How the edits of an image are saved.
#[derive(Clone, Copy, Debug, PartialEq, Eq, Structural)]
pub enum SavePlan {
    /// Nothing to save.
    NoChanges,
    /// The format is unknown; nothing is saved.
    UnknownFormat,
    /// Re-encode the pixels (rotated) to the same path, dropping metadata.
    ReencodeWithoutMetadata,
    /// Write the rotation into the JPEG's EXIF Orientation tag.
    JpegOrientation,
    /// SVG files cannot be saved.
    RefuseSvg,
    /// RAW files cannot be saved.
    RefuseRaw,
    /// Rotate the pixels and re-encode in the same format.
    PixelRotation,
}

pub open spec fn save_plan_spec(rotation: Rotation, strip_metadata: bool, format: Option<SupportedFormat>) -> SavePlan {
    if rotation == Rotation::Cw0 && !strip_metadata {
        SavePlan::NoChanges
    } else {
        match format {
            None => SavePlan::UnknownFormat,
            Some(f) => if strip_metadata {
                SavePlan::ReencodeWithoutMetadata
            } else {
                match f {
                    SupportedFormat::Jpeg => SavePlan::JpegOrientation,
                    SupportedFormat::Svg => SavePlan::RefuseSvg,
                    SupportedFormat::Raw => SavePlan::RefuseRaw,
                    _ => SavePlan::PixelRotation,
                }
            },
        }
    }
}

/// How to save a pending rotation and metadata strip of an image of `format`.
pub fn save_plan(rotation: Rotation, strip_metadata: bool, format: Option<SupportedFormat>) -> (p: SavePlan)
    ensures
        p == save_plan_spec(rotation, strip_metadata, format),
{
    if rotation.is_identity() && !strip_metadata {
        return SavePlan::NoChanges;
    }
    match format {
        None => SavePlan::UnknownFormat,
        Some(f) => if strip_metadata {
            SavePlan::ReencodeWithoutMetadata
        } else {
            match f {
                SupportedFormat::Jpeg => SavePlan::JpegOrientation,
                SupportedFormat::Svg => SavePlan::RefuseSvg,
                SupportedFormat::Raw => SavePlan::RefuseRaw,
                _ => SavePlan::PixelRotation,
            }
        },
    }
}

// ---------------------------------------------------------------------------
// Orientation of decoded pixels
// ---------------------------------------------------------------------------

/// The pixel operation that undoes an EXIF orientation.
#[derive(Clone, Copy, Debug, PartialEq, Eq, Structural)]
pub enum PixelTransform {
    Identity,
    FlipHorizontal,
    Rotate180,
    FlipVertical,
    Rotate90ThenFlipHorizontal,
    Rotate90,
    Rotate270ThenFlipHorizontal,
    Rotate270,
}

pub open spec fn transform_spec(o: u32) -> PixelTransform {
    if o == 2 { PixelTransform::FlipHorizontal }
    else if o == 3 { PixelTransform::Rotate180 }
    else if o == 4 { PixelTransform::FlipVertical }
    else if o == 5 { PixelTransform::Rotate90ThenFlipHorizontal }
    else if o == 6 { PixelTransform::Rotate90 }
    else if o == 7 { PixelTransform::Rotate270ThenFlipHorizontal }
    else if o == 8 { PixelTransform::Rotate270 }
    else { PixelTransform::Identity }
}

/// The pixel operation for an EXIF Orientation value (values other than
/// 2–8 leave the pixels as they are).
pub fn orientation_transform(o: u32) -> (t: PixelTransform)
    ensures
        t == transform_spec(o),
{
    match o {
        2 => PixelTransform::FlipHorizontal,
        3 => PixelTransform::Rotate180,
        4 => PixelTransform::FlipVertical,
        5 => PixelTransform::Rotate90ThenFlipHorizontal,
        6 => PixelTransform::Rotate90,
        7 => PixelTransform::Rotate270ThenFlipHorizontal,
        8 => PixelTransform::Rotate270,
        _ => PixelTransform::Identity,
    }
}

// ---------------------------------------------------------------------------
// Texts
// ---------------------------------------------------------------------------

pub open spec fn stars(n: nat) -> Seq<char>
    decreases n,
{
    if n == 0 { Seq::empty() } else { stars((n - 1) as nat).push('★') }
}

/// The toast shown after a rating change.
pub open spec fn rating_toast_spec(rating: Option<u8>) -> Seq<char> {
    match rating {
        Some(r) => "Rated: "@ + stars(r as nat) + " stars"@,
        None => "Rating cleared"@,
    }
}

pub fn rating_toast(rating: Option<u8>) -> (s: String)
    ensures
        s@ == rating_toast_spec(rating),
{
    match rating {
        Some(r) => {
            let mut out: Vec<char> = Vec::new();
            push_str(&mut out, "Rated: ");
            let ghost head = out@;
            let mut i: u8 = 0;
            while i < r
                invariant
                    i <= r,
                    out@ == head + stars(i as nat),
                decreases r - i,
            {
                out.push('★');
                i = i + 1;
                proof { assert(out@ =~= head + stars(i as nat)); }
            }
            push_str(&mut out, " stars");
            proof { assert(out@ =~= rating_toast_spec(rating)); }
            string_of(out.as_slice())
        },
        None => "Rating cleared".to_owned(),
    }
}

/// The rating line of the info panel: a dash without a rating, else one
/// star a point and the number, e.g. "★★★ (3)".
pub open spec fn rating_line_spec(rating: Option<u8>) -> Seq<char> {
    match rating {
        Some(r) => stars(r as nat) + " ("@ + decimal(r as nat) + ")"@,
        None => "—"@,
    }
}

pub fn rating_line(rating: Option<u8>) -> (s: String)
    ensures
        s@ == rating_line_spec(rating),
{
    match rating {
        Some(r) => {
            let mut out: Vec<char> = Vec::new();
            let mut i: u8 = 0;
            while i < r
                invariant
                    i <= r,
                    out@ == stars(i as nat),
                decreases r - i,
            {
                out.push('★');
                i = i + 1;
                proof { assert(out@ =~= stars(i as nat)); }
            }
            push_str(&mut out, " (");
            push_decimal(&mut out, r as u64);
            push_str(&mut out, ")");
            proof { assert(out@ =~= rating_line_spec(rating)); }
            string_of(out.as_slice())
        },
        None => "—".to_owned(),
    }
}

/// How the info panel shows a metadata entry.
pub enum EntryLayout {
    /// A section heading.
    Heading,
    /// A foldable block of text, open at first or not.
    Folded { open: bool },
    /// One line with a label (the key without its colons) and the value.
    Line { label: String },
}

/// Values on more than one line, or longer than 120 bytes, are folded.
pub open spec fn folds(value: Seq<char>) -> bool {
    value.contains('\n') || encode_utf8(value).len() > 120
}

/// The entries that hold a prompt open folded, when on several lines.
pub open spec fn is_prompt_key(key: Seq<char>) -> bool {
    let k = lowercase_of(key);
    k == "parameters"@ || k == "prompt"@ || k == "negative prompt"@
}

pub open spec fn without_colons(s: Seq<char>) -> Seq<char>
    decreases s.len(),
{
    if s.len() == 0 {
        Seq::empty()
    } else {
        let rest = without_colons(s.drop_last());
        if s.last() == ':' { rest } else { rest.push(s.last()) }
    }
}

fn has_newline(v: &Vec<char>) -> (b: bool)
    ensures
        b == v@.contains('\n'),
{
    let mut i: usize = 0;
    while i < v.len()
        invariant
            i <= v.len(),
            forall|k: int| 0 <= k < i ==> v@[k] != '\n',
        decreases v.len() - i,
    {
        if v[i] == '\n' {
            return true;
        }
        i = i + 1;
    }
    false
}

fn colons_removed(v: &Vec<char>) -> (r: Vec<char>)
    ensures
        r@ == without_colons(v@),
{
    let mut out: Vec<char> = Vec::new();
    let mut i: usize = 0;
    while i < v.len()
        invariant
            i <= v.len(),
            out@ == without_colons(v@.take(i as int)),
        decreases v.len() - i,
    {
        proof { assert(v@.take(i + 1).drop_last() =~= v@.take(i as int)); }
        if v[i] != ':' {
            out.push(v[i]);
        }
        i = i + 1;
    }
    proof { assert(v@.take(v.len() as int) =~= v@); }
    out
}

/// How the info panel shows `entry`: headers as headings; values that
/// [`folds`] folded, open when on several lines under a prompt key; the
/// rest as a labelled line.
pub fn entry_layout(entry: &MetaEntry) -> (l: EntryLayout)
    ensures
        entry.is_header ==> l is Heading,
        !entry.is_header && folds(entry.value@)
            ==> l == (EntryLayout::Folded { open: entry.value@.contains('\n') && is_prompt_key(entry.key@) }),
        !entry.is_header && !folds(entry.value@)
            ==> (l matches EntryLayout::Line { label } && label@ == without_colons(entry.key@)),
{
    if entry.is_header {
        return EntryLayout::Heading;
    }
    let multiline = has_newline(&chars_of(entry.value.as_str()));
    let long = entry.value.as_str().as_bytes().len() > 120;
    if multiline || long {
        let open = if multiline {
            let k = chars_of(lowercase(entry.key.as_str()).as_str());
            chars_eq(&k, &chars_of("parameters")) || chars_eq(&k, &chars_of("prompt"))
                || chars_eq(&k, &chars_of("negative prompt"))
        } else {
            false
        };
        EntryLayout::Folded { open }
    } else {
        let label = colons_removed(&chars_of(entry.key.as_str()));
        EntryLayout::Line { label: string_of(label.as_slice()) }
    }
}

/// The window title: the current path and the app name, and the rating
/// filter in force with its scope.
pub open spec fn window_title_spec(current: Option<Seq<char>>, filter_value: Option<u8>, library: bool) -> Seq<char> {
    let base = match current {
        Some(p) => p + " — Rivett"@,
        None => "Rivett"@,
    };
    match filter_value {
        Some(v) => base + " ("@ + (if library { "Library"@ } else { "Folder"@ }) + ": ★ "@ + decimal(v as nat) + "+)"@,
        None => base,
    }
}

pub fn window_title(current: Option<&str>, filter_value: Option<u8>, library: bool) -> (s: String)
    ensures
        s@ == window_title_spec(match current { Some(p) => Some(p@), None => None }, filter_value, library),
{
    let mut out: Vec<char> = Vec::new();
    match current {
        Some(p) => {
            push_str(&mut out, p);
            push_str(&mut out, " — Rivett");
        },
        None => push_str(&mut out, "Rivett"),
    }
    match filter_value {
        Some(v) => {
            push_str(&mut out, " (");
            if library {
                push_str(&mut out, "Library");
            } else {
                push_str(&mut out, "Folder");
            }
            push_str(&mut out, ": ★ ");
            push_decimal(&mut out, v as u64);
            push_str(&mut out, "+)");
        },
        None => {},
    }
    proof {
        assert(out@ =~= window_title_spec(match current { Some(p) => Some(p@), None => None }, filter_value, library));
    }
    string_of(out.as_slice())
}

/// A delete armed by a first Delete press stays armed for 4 seconds.
pub open spec fn delete_armed(elapsed_nanos: u128) -> bool {
    elapsed_nanos < 4_000_000_000
}

/// Whether a delete armed `elapsed_nanos` nanoseconds ago is still armed.
pub fn delete_confirm_alive(elapsed_nanos: u128) -> (b: bool)
    ensures
        b == delete_armed(elapsed_nanos),
{
    elapsed_nanos < 4_000_000_000
}

/// Whether a toast shown `elapsed_nanos` nanoseconds ago is still shown
/// (for 3 seconds).
pub fn toast_alive(elapsed_nanos: u128) -> (b: bool)
    ensures
        b == (elapsed_nanos < 3_000_000_000),
{
    elapsed_nanos < 3_000_000_000
}

/// Law: the second Delete press moves the file to the trash only within 4
/// seconds of the first.
pub proof fn law_delete_window(k: KeyInput, show_help: bool, delete_pending: bool, elapsed_nanos: u128)
    ensures
        keyboard_spec(k, show_help, delete_pending, delete_armed(elapsed_nanos)).contains(Action::ExecuteDelete)
            ==> delete_pending && elapsed_nanos < 4_000_000_000,
{
    law_delete_needs_confirmation(k, show_help, delete_pending, delete_armed(elapsed_nanos));
}

/// Law: while a text field has the keyboard focus, the only thing a key
/// does is close the help overlay or cancel a pending delete (Escape).
pub proof fn law_focus_disables_hotkeys(k: KeyInput, show_help: bool, delete_pending: bool, delete_alive: bool)
    requires
        k.widget_focused,
    ensures
        forall|i: int| 0 <= i < keyboard_spec(k, show_help, delete_pending, delete_alive).len() ==> {
            let a = #[trigger] keyboard_spec(k, show_help, delete_pending, delete_alive)[i];
            a == Action::CloseHelp || a == Action::CancelDelete
        },
{
}

/// Law: a file is deleted only on a Delete press while an earlier armed
/// delete is still alive and was not cancelled by Escape in the same frame.
pub proof fn law_delete_needs_confirmation(k: KeyInput, show_help: bool, delete_pending: bool, delete_alive: bool)
    ensures
        keyboard_spec(k, show_help, delete_pending, delete_alive).contains(Action::ExecuteDelete)
            ==> delete_pending && delete_alive && !k.escape && k.delete,
{
    let cancelled = k.escape && delete_pending;
    let alive = delete_pending && delete_alive && !cancelled;
    let t = key_table(k, alive);
    let esc = action_if(cancelled, Action::CancelDelete);
    let acts = keyboard_spec(k, show_help, delete_pending, delete_alive);
    if acts.contains(Action::ExecuteDelete) {
        let j = choose|j: int| 0 <= j < acts.len() && acts[j] == Action::ExecuteDelete;
        assert(!(k.escape && show_help));
        assert(!k.widget_focused && !k.question_mark);
        assert(acts == esc + chosen(t));
        assert(j >= esc.len());
        assert(chosen(t)[j - esc.len()] == Action::ExecuteDelete);
        assert(chosen(t).contains(Action::ExecuteDelete));
        lemma_chosen_from(t, Action::ExecuteDelete);
        lemma_delete_entry(k, alive);
    }
}

proof fn lemma_delete_entry(k: KeyInput, alive: bool)
    ensures
        forall|i: int| 0 <= i < key_table(k, alive).len() && (#[trigger] key_table(k, alive)[i]).1 == Action::ExecuteDelete
            ==> key_table(k, alive)[i].0 == k.delete && alive,
{
    let t = key_table(k, alive);
    assert forall|i: int| 0 <= i < t.len() && (#[trigger] t[i]).1 == Action::ExecuteDelete
        implies t[i].0 == k.delete && alive by {
        if i != 18 {
            assert(t[i].1 != Action::ExecuteDelete);
        }
    }
}

/// An action chosen from a table comes from an entry whose condition holds.
proof fn lemma_chosen_from(table: Seq<(bool, Action)>, a: Action)
    ensures
        chosen(table).contains(a) ==> exists|i: int| 0 <= i < table.len() && table[i].0 && table[i].1 == a,
    decreases table.len(),
{
    if table.len() > 0 {
        let rest = table.drop_last();
        lemma_chosen_from(rest, a);
        if chosen(table).contains(a) {
            let j = choose|j: int| 0 <= j < chosen(table).len() && chosen(table)[j] == a;
            if j < chosen(rest).len() {
                assert(chosen(rest)[j] == a);
                let i = choose|i: int| 0 <= i < rest.len() && rest[i].0 && rest[i].1 == a;
                assert(table[i] == rest[i]);
            } else {
                assert(table[table.len() - 1].0 && table[table.len() - 1].1 == a);
            }
        }
    }
}

/// An entry whose condition holds puts its action among those chosen.
proof fn lemma_chosen_to(table: Seq<(bool, Action)>, i: int)
    requires
        0 <= i < table.len(),
        table[i].0,
    ensures
        chosen(table).contains(table[i].1),
    decreases table.len(),
{
    let rest = table.drop_last();
    if i < table.len() - 1 {
        assert(rest[i] == table[i]);
        lemma_chosen_to(rest, i);
        let j = choose|j: int| 0 <= j < chosen(rest).len() && chosen(rest)[j] == table[i].1;
        assert(chosen(table)[j] == chosen(rest)[j]);
    } else {
        assert(chosen(table)[chosen(table).len() - 1] == table[i].1);
    }
}

/// When only entry `idx` of a table has action `a`, `a` is chosen exactly
/// when that entry's condition holds.
proof fn lemma_only_entry(t: Seq<(bool, Action)>, a: Action, idx: int)
    requires
        0 <= idx < t.len(),
        t[idx].1 == a,
        forall|i: int| 0 <= i < t.len() && i != idx ==> (#[trigger] t[i]).1 != a,
    ensures
        chosen(t).contains(a) <==> t[idx].0,
{
    lemma_chosen_from(t, a);
    if t[idx].0 {
        lemma_chosen_to(t, idx);
    }
}

/// The actions of a frame, apart from the help overlay, Escape and a
/// focused text field, are those the key table chooses.
proof fn lemma_keyboard_is_table(k: KeyInput, show_help: bool, delete_pending: bool, delete_alive: bool, a: Action)
    requires
        !k.widget_focused,
        !k.question_mark,
        !(k.escape && show_help),
        a != Action::CancelDelete,
    ensures
        keyboard_spec(k, show_help, delete_pending, delete_alive).contains(a)
            <==> chosen(key_table(k, delete_pending && delete_alive && !(k.escape && delete_pending))).contains(a),
{
    let cancelled = k.escape && delete_pending;
    let esc = action_if(cancelled, Action::CancelDelete);
    let t = key_table(k, delete_pending && delete_alive && !cancelled);
    let acts = keyboard_spec(k, show_help, delete_pending, delete_alive);
    assert(acts == esc + chosen(t));
    if acts.contains(a) {
        let j = choose|j: int| 0 <= j < acts.len() && acts[j] == a;
        assert(j >= esc.len());
        assert(chosen(t)[j - esc.len()] == a);
    }
    if chosen(t).contains(a) {
        let j = choose|j: int| 0 <= j < chosen(t).len() && chosen(t)[j] == a;
        assert(acts[j + esc.len()] == a);
    }
}

/// Law: each of these keys has its own action, whatever else is pressed:
/// `[` turns the image counter-clockwise and `]` clockwise, `H` hides it,
/// `F` toggles fit, `I` the info panel, and Alt+Up goes to the parent
/// directory; the action comes exactly when its key is pressed (unless the
/// help overlay closes, `?` is typed or a text field has the focus).
pub proof fn law_key_actions(k: KeyInput, show_help: bool, delete_pending: bool, delete_alive: bool)
    requires
        !k.widget_focused,
        !k.question_mark,
        !(k.escape && show_help),
    ensures
        keyboard_spec(k, show_help, delete_pending, delete_alive).contains(Action::RotateCcw) <==> k.open_bracket,
        keyboard_spec(k, show_help, delete_pending, delete_alive).contains(Action::RotateCw) <==> k.close_bracket,
        keyboard_spec(k, show_help, delete_pending, delete_alive).contains(Action::Hide) <==> k.key_h,
        keyboard_spec(k, show_help, delete_pending, delete_alive).contains(Action::ToggleFit) <==> k.key_f,
        keyboard_spec(k, show_help, delete_pending, delete_alive).contains(Action::ToggleInfoPanel) <==> k.key_i,
        keyboard_spec(k, show_help, delete_pending, delete_alive).contains(Action::Parent) <==> (k.alt && k.up),
{
    let alive = delete_pending && delete_alive && !(k.escape && delete_pending);
    let t = key_table(k, alive);
    let acts: Seq<Action> = seq![Action::RotateCcw, Action::RotateCw, Action::Hide, Action::ToggleFit,
        Action::ToggleInfoPanel, Action::Parent];
    let idxs: Seq<int> = seq![15, 16, 14, 17, 7, 4];
    assert forall|n: int| 0 <= n < 6 implies
        (keyboard_spec(k, show_help, delete_pending, delete_alive).contains(#[trigger] acts[n]) <==> t[idxs[n]].0) by {
        let a = acts[n];
        let idx = idxs[n];
        assert forall|i: int| 0 <= i < t.len() && i != idx implies (#[trigger] t[i]).1 != a by {
            if i == 0 {} else if i == 1 {} else if i == 2 {} else if i == 3 {} else if i == 4 {}
            else if i == 5 {} else if i == 6 {} else if i == 7 {} else if i == 8 {} else if i == 9 {}
            else if i == 10 {} else if i == 11 {} else if i == 12 {} else if i == 13 {} else if i == 14 {}
            else if i == 15 {} else if i == 16 {} else if i == 17 {} else if i == 18 {} else if i == 19 {}
            else if i == 20 {} else {}
        }
        lemma_only_entry(t, a, idx);
        lemma_keyboard_is_table(k, show_help, delete_pending, delete_alive, a);
    }
    assert(acts[0] == Action::RotateCcw && acts[1] == Action::RotateCw && acts[2] == Action::Hide);
    assert(acts[3] == Action::ToggleFit && acts[4] == Action::ToggleInfoPanel && acts[5] == Action::Parent);
}

/// Clockwise quarter turns of a transform that only turns the image;
/// `None` for those that mirror it.
pub open spec fn transform_turns(t: PixelTransform) -> Option<nat> {
    match t {
        PixelTransform::Identity => Some(0),
        PixelTransform::Rotate90 => Some(1),
        PixelTransform::Rotate180 => Some(2),
        PixelTransform::Rotate270 => Some(3),
        _ => None,
    }
}

/// Law: an image whose rotation was saved in its EXIF Orientation tag is
/// shown turned by exactly that rotation: what is saved is what is seen.
pub proof fn law_display_shows_saved_rotation(r: Rotation)
    ensures
        transform_turns(transform_spec(crate::rotation::orientation_of_rotation(r) as u32))
            == Some(crate::rotation::turns(r)),
{
}

/// Law: the pure-rotation orientations are shown turned as the rotation
/// they stand for, and 6 and 8 are opposite quarter turns (6 a clockwise
/// one): shown one after the other they leave the image as it was.
pub proof fn law_orientation_turns(o: u32)
    requires
        o == 1 || o == 3 || o == 6 || o == 8,
    ensures
        transform_turns(transform_spec(o)) == Some(crate::rotation::turns(crate::rotation::rotation_of_orientation(o))),
        transform_turns(transform_spec(6)) == Some(1nat),
        (transform_turns(transform_spec(6))->0 + transform_turns(transform_spec(8))->0) % 4 == 0,
        transform_turns(transform_spec(3)) == Some(2nat),
{
}

} // verus!
