//! Consolidating the filtered images into one folder (copy or move), and
//! the state of the utility windows.

use vstd::prelude::*;
use crate::text::{chars_of, string_of, trim_chars, trim_spec};
use crate::paths::{file_name_spec, file_name_chars, push_component, join_path};
use crate::records::TagRecord;
use crate::purge::PurgeState;
use crate::health::DbHealthState;

verus! {

#[derive(Clone, Copy, Debug, PartialEq, Eq, Structural)]
pub enum ConsolidateOp {
    Copy,
    Move,
}

/// What happens to the database record of a consolidated file.
#[derive(Clone, Copy, Debug, PartialEq, Eq, Structural)]
pub enum RecordAction {
    /// Move the record (rating, tags, note) to the destination directory.
    MoveRecord,
    /// Copy the chosen parts of the record to the destination directory.
    CopyRecord { rating: bool, tags: bool, notes: bool },
    /// Leave the records alone.
    Leave,
}

/// How one file fared.
#[derive(Clone, Copy, Debug, PartialEq, Eq, Structural)]
pub enum FileOutcome {
    /// The path has no file name.
    NoName,
    /// A file of that name exists at the destination.
    Exists,
    /// Copying or moving the file failed.
    Failed,
    /// The file was copied or moved.
    Done,
}

pub struct ConsolidateResults {
    pub succeeded: usize,
    /// Names of the files that were skipped (already at the destination).
    pub skipped: Vec<String>,
    /// Names (or paths, when there is no name) of the files that failed.
    pub failed: Vec<String>,
}

pub struct ConsolidateState {
    pub files: Vec<String>,
    pub destination: String,
    pub operation: ConsolidateOp,
    pub copy_rating: bool,
    pub copy_tags: bool,
    pub copy_notes: bool,
    pub preserve_exif: bool,
    pub move_update_db: bool,
    pub confirmed: bool,
    pub results: Option<ConsolidateResults>,
}

impl ConsolidateResults {
    pub fn new() -> (r: Self)
        ensures
            r.succeeded == 0,
            r.skipped@.len() == 0,
            r.failed@.len() == 0,
    {
        ConsolidateResults { succeeded: 0, skipped: Vec::new(), failed: Vec::new() }
    }

    /// Records the outcome for the file at `path` named `name`: a missing
    /// name fails by path, an existing destination skips by name, a failed
    /// copy or move fails by name, and a done one counts as succeeded.
    pub fn record(&mut self, outcome: FileOutcome, path: &String, name: &String)
        requires
            old(self).succeeded < usize::MAX,
        ensures
            final(self).succeeded == old(self).succeeded + if outcome == FileOutcome::Done { 1usize } else { 0usize },
            final(self).skipped@ == if outcome == FileOutcome::Exists {
                old(self).skipped@.push(*name)
            } else {
                old(self).skipped@
            },
            final(self).failed@ == match outcome {
                FileOutcome::NoName => old(self).failed@.push(*path),
                FileOutcome::Failed => old(self).failed@.push(*name),
                _ => old(self).failed@,
            },
    {
        match outcome {
            FileOutcome::NoName => self.failed.push(path.clone()),
            FileOutcome::Exists => self.skipped.push(name.clone()),
            FileOutcome::Failed => self.failed.push(name.clone()),
            FileOutcome::Done => self.succeeded = self.succeeded + 1,
        }
    }
}

/// The record action that the options ask for.
pub open spec fn record_action_spec(op: ConsolidateOp, move_update_db: bool, rating: bool, tags: bool, notes: bool)
    -> RecordAction
{
    match op {
        ConsolidateOp::Move => if move_update_db { RecordAction::MoveRecord } else { RecordAction::Leave },
        ConsolidateOp::Copy => if rating || tags || notes {
            RecordAction::CopyRecord { rating, tags, notes }
        } else {
            RecordAction::Leave
        },
    }
}

impl ConsolidateState {
    pub fn new(files: Vec<String>) -> (r: Self)
        ensures
            r.files == files,
            r.destination@.len() == 0,
            r.operation == ConsolidateOp::Copy,
            r.copy_rating && r.copy_tags && r.copy_notes && r.preserve_exif && r.move_update_db,
            !r.confirmed,
            r.results is None,
    {
        ConsolidateState {
            files,
            destination: String::new(),
            operation: ConsolidateOp::Copy,
            copy_rating: true,
            copy_tags: true,
            copy_notes: true,
            preserve_exif: true,
            move_update_db: true,
            confirmed: false,
            results: None,
        }
    }

    /// The operation can begin once a destination is given and there are files.
    pub fn can_begin(&self) -> (b: bool)
        ensures
            b == (self.destination@.len() > 0 && self.files@.len() > 0),
    {
        !self.destination.as_str().is_empty() && self.files.len() > 0
    }

    /// What to do with the database record of each consolidated file.
    pub fn record_action(&self) -> (a: RecordAction)
        ensures
            a == record_action_spec(self.operation, self.move_update_db, self.copy_rating, self.copy_tags,
                self.copy_notes),
    {
        match self.operation {
            ConsolidateOp::Move => if self.move_update_db { RecordAction::MoveRecord } else { RecordAction::Leave },
            ConsolidateOp::Copy => if self.copy_rating || self.copy_tags || self.copy_notes {
                RecordAction::CopyRecord { rating: self.copy_rating, tags: self.copy_tags, notes: self.copy_notes }
            } else {
                RecordAction::Leave
            },
        }
    }

    /// The file name of `path` and where it goes in the destination, or
    /// `None` when the path has no file name.
    pub fn target_of(&self, path: &str) -> (r: Option<(String, String)>)
        ensures
            match r {
                Some((name, dest)) => file_name_spec(path@) == Some(name@)
                    && dest@ == push_component(self.destination@, name@),
                None => file_name_spec(path@) is None,
            },
    {
        let v = chars_of(path);
        match file_name_chars(&v) {
            Some(n) => {
                let name = string_of(n.as_slice());
                let dest = join_path(self.destination.as_str(), name.as_str());
                Some((name, dest))
            },
            None => None,
        }
    }
}

// ---------------------------------------------------------------------------
// Tag manager
// ---------------------------------------------------------------------------

pub struct TagEditorState {
    pub tags: Vec<TagRecord>,
    /// The tag being renamed.
    pub editing_tag_id: Option<i64>,
    /// The text of the rename field.
    pub rename_buffer: String,
    /// The tag name considered for deletion.
    pub confirm_delete: Option<String>,
    /// Number of images the pending deletion affects.
    pub affected_count: usize,
}

impl TagEditorState {
    pub fn new(tags: Vec<TagRecord>) -> (r: Self)
        ensures
            r.tags == tags,
            r.editing_tag_id is None,
            r.rename_buffer@.len() == 0,
            r.confirm_delete is None,
            r.affected_count == 0,
    {
        TagEditorState { tags, editing_tag_id: None, rename_buffer: String::new(), confirm_delete: None, affected_count: 0 }
    }
}

/// A rename is applied when the new name is not blank and differs from the old one.
pub fn should_rename(buffer: &String, current: &String) -> (b: bool)
    ensures
        b == (trim_spec(buffer@).len() > 0 && buffer@ != current@),
{
    let v = chars_of(buffer.as_str());
    let t = trim_chars(&v);
    t.len() > 0 && !(*buffer == *current)
}

/// The red, green and blue bytes of a `0xRRGGBB` color.
pub open spec fn channels(color: u32) -> (u8, u8, u8) {
    (((color / 0x10000) % 0x100) as u8, ((color / 0x100) % 0x100) as u8, (color % 0x100) as u8)
}

/// Splits a stored `0xRRGGBB` color into its channels.
pub fn color_channels(color: u32) -> (r: (u8, u8, u8))
    ensures
        r == channels(color),
{
    let red = ((color >> 16) & 0xFF) as u8;
    let green = ((color >> 8) & 0xFF) as u8;
    let blue = (color & 0xFF) as u8;
    proof {
        assert((color >> 16) & 0xFF == (color / 0x10000) % 0x100) by (bit_vector);
        assert((color >> 8) & 0xFF == (color / 0x100) % 0x100) by (bit_vector);
        assert(color & 0xFF == color % 0x100) by (bit_vector);
    }
    (red, green, blue)
}

/// Packs channels into a `0xRRGGBB` color.
pub fn pack_color(red: u8, green: u8, blue: u8) -> (c: u32)
    ensures
        c == red as u32 * 0x10000 + green as u32 * 0x100 + blue as u32,
{
    let r = red as u32;
    let g = green as u32;
    let b = blue as u32;
    proof {
        assert(r < 0x100 && g < 0x100 && b < 0x100);
        assert((r << 16) | (g << 8) | b == r * 0x10000 + g * 0x100 + b) by (bit_vector)
            requires r < 0x100 && g < 0x100 && b < 0x100;
    }
    (r << 16) | (g << 8) | b
}

/// Law: splitting a packed color gives back its channels.
pub proof fn law_color_round_trip(red: u8, green: u8, blue: u8)
    ensures
        channels((red as u32 * 0x10000 + green as u32 * 0x100 + blue as u32) as u32) == (red, green, blue),
{
    let c: u32 = (red as u32 * 0x10000 + green as u32 * 0x100 + blue as u32) as u32;
    assert(c as int == red as int * 0x10000 + green as int * 0x100 + blue as int);
    assert((c / 0x10000) % 0x100 == red as u32) by (nonlinear_arith)
        requires c as int == red as int * 0x10000 + green as int * 0x100 + blue as int, red < 256, green < 256, blue < 256;
    assert((c / 0x100) % 0x100 == green as u32) by (nonlinear_arith)
        requires c as int == red as int * 0x10000 + green as int * 0x100 + blue as int, red < 256, green < 256, blue < 256;
    assert(c % 0x100 == blue as u32) by (nonlinear_arith)
        requires c as int == red as int * 0x10000 + green as int * 0x100 + blue as int, red < 256, green < 256, blue < 256;
}

// ---------------------------------------------------------------------------
// The utility windows
// ---------------------------------------------------------------------------

/// Which utility windows are open, with their state.
pub struct UtilitiesState {
    pub purge: Option<PurgeState>,
    pub db_health: Option<DbHealthState>,
    pub tag_editor: Option<TagEditorState>,
    pub consolidate: Option<ConsolidateState>,
}

impl UtilitiesState {
    pub fn new() -> (r: Self)
        ensures
            r.purge is None && r.db_health is None && r.tag_editor is None && r.consolidate is None,
    {
        UtilitiesState { purge: None, db_health: None, tag_editor: None, consolidate: None }
    }

    /// Opens the purge window on `base_path`.
    pub fn open_purge(&mut self, base_path: String)
        ensures
            final(self).purge matches Some(p) && p.wf() && p.base_path == base_path && !p.scanned && !p.recursive,
            final(self).db_health == old(self).db_health,
            final(self).tag_editor == old(self).tag_editor,
            final(self).consolidate == old(self).consolidate,
    {
        self.purge = Some(PurgeState::new(base_path));
    }

    /// Opens the health check with the number of records the database holds.
    pub fn open_db_health(&mut self, total: usize)
        ensures
            final(self).db_health matches Some(h) && h.total_entries == total && !h.scanned && h.orphans@.len() == 0,
            final(self).purge == old(self).purge,
            final(self).tag_editor == old(self).tag_editor,
            final(self).consolidate == old(self).consolidate,
    {
        self.db_health = Some(DbHealthState::new(total));
    }

    /// Opens the tag manager on the tags the database holds.
    pub fn open_tag_editor(&mut self, tags: Vec<TagRecord>)
        ensures
            final(self).tag_editor matches Some(t) && t.tags == tags && t.editing_tag_id is None
                && t.confirm_delete is None,
            final(self).purge == old(self).purge,
            final(self).db_health == old(self).db_health,
            final(self).consolidate == old(self).consolidate,
    {
        self.tag_editor = Some(TagEditorState::new(tags));
    }

    /// Opens the consolidate window on `files`.
    pub fn open_consolidate(&mut self, files: Vec<String>)
        ensures
            final(self).consolidate matches Some(c) && c.files == files && c.operation == ConsolidateOp::Copy
                && !c.confirmed && c.results is None,
            final(self).purge == old(self).purge,
            final(self).db_health == old(self).db_health,
            final(self).tag_editor == old(self).tag_editor,
    {
        self.consolidate = Some(ConsolidateState::new(files));
    }
}

} // verus!
