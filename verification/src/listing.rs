//! The ordered list of images in one directory (or in the library-wide
//! filtered view) with a cursor.
//!
//! Navigation never wraps: the list has a hard start and a hard end.
//! Reading the directory and the database is the application's part; this
//! module decides which files are listed, in which order, and where the
//! cursor goes.

use vstd::prelude::*;
use crate::text::{chars_of, string_of, push_decimal, push_str, decimal};
use crate::paths::{
    file_name_spec, file_name_chars, same_path, same_path_chars, starts_with_spec,
    starts_with_chars, push_component,
};
use crate::formats::{SupportedFormat, format_of_path};
use crate::order::{SortKeys, stable_order, is_permutation, lex_lt};

verus! {

/// How the files of a directory are ordered.
#[derive(Clone, Copy, Debug, PartialEq, Eq)]
pub enum SortOrder {
    Name,
    DateModified,
    FileSize,
}

/// How a rating is compared with the filter's value.
#[derive(Clone, Copy, Debug, PartialEq, Eq)]
pub enum RatingFilterOp {
    AtLeast,
    AtMost,
    Exactly,
}

/// Show only images whose rating compares with `value` by `op`, and, when a
/// prefix is given, only images under that path.
#[derive(Clone, Debug)]
pub struct RatingFilter {
    pub op: RatingFilterOp,
    pub value: u8,
    pub path_prefix: Option<String>,
}

pub open spec fn rating_passes(op: RatingFilterOp, r: u8, value: u8) -> bool {
    match op {
        RatingFilterOp::AtLeast => r >= value,
        RatingFilterOp::AtMost => r <= value,
        RatingFilterOp::Exactly => r == value,
    }
}

impl RatingFilter {
    /// An image at `path` with `rating` is shown under this filter.
    pub open spec fn accepts(self, path: Seq<char>, rating: Option<u8>) -> bool {
        &&& rating matches Some(r) && rating_passes(self.op, r, self.value)
        &&& match self.path_prefix {
            Some(p) => starts_with_spec(path, p@),
            None => true,
        }
    }

    pub fn matches(&self, path: &str, rating: Option<u8>) -> (b: bool)
        ensures
            b == self.accepts(path@, rating),
    {
        let ok = match rating {
            None => false,
            Some(r) => match self.op {
                RatingFilterOp::AtLeast => r >= self.value,
                RatingFilterOp::AtMost => r <= self.value,
                RatingFilterOp::Exactly => r == self.value,
            },
        };
        if !ok {
            return false;
        }
        match &self.path_prefix {
            Some(p) => {
                let pv = chars_of(path);
                let bv = chars_of(p.as_str());
                starts_with_chars(&pv, &bv)
            },
            None => true,
        }
    }

    /// A copy of this filter.
    pub fn duplicate(&self) -> (r: RatingFilter)
        ensures
            r == *self,
    {
        RatingFilter {
            op: self.op,
            value: self.value,
            path_prefix: match &self.path_prefix {
                Some(p) => Some(p.clone()),
                None => None,
            },
        }
    }
}

/// The file name of a path, or the empty string when it has none
/// (`p.file_name().and_then(|n| n.to_str()).unwrap_or("")`).
pub open spec fn name_or_empty(p: Seq<char>) -> Seq<char> {
    match file_name_spec(p) {
        Some(n) => n,
        None => Seq::empty(),
    }
}

/// Sorted list of image files with a cursor.
#[derive(Debug)]
pub struct DirectoryListing {
    /// The directory listed; empty for the library-wide view.
    pub dir_path: String,
    pub files: Vec<String>,
    pub current_index: usize,
    /// When set, only images matching this filter are shown.
    pub rating_filter: Option<RatingFilter>,
}

/// `p` is hidden: some entry of `hidden` is the same path.
pub open spec fn is_hidden(hidden: Seq<String>, p: Seq<char>) -> bool {
    exists|k: int| 0 <= k < hidden.len() && same_path(hidden[k]@, p)
}

/// File `k` exists and is not hidden.
pub open spec fn shown(files: Seq<String>, hidden: Seq<String>, k: int) -> bool {
    0 <= k < files.len() && !is_hidden(hidden, files[k]@)
}

/// Where one forward step from `i` lands: the first later file that is not
/// hidden, or the last file when every later file is hidden.
pub open spec fn step_forward(files: Seq<String>, hidden: Seq<String>, i: int) -> int {
    if exists|j: int| i < j && shown(files, hidden, j) {
        choose|j: int| i < j && shown(files, hidden, j)
            && forall|k: int| i < k < j ==> !shown(files, hidden, k)
    } else {
        files.len() - 1
    }
}

/// Where one backward step from `i` lands.
pub open spec fn step_backward(files: Seq<String>, hidden: Seq<String>, i: int) -> int {
    if exists|j: int| j < i && shown(files, hidden, j) {
        choose|j: int| j < i && shown(files, hidden, j)
            && forall|k: int| j < k < i ==> !shown(files, hidden, k)
    } else {
        0
    }
}

/// The cursor after up to `n` forward steps from `i`, stopping at the end.
pub open spec fn steps_forward(files: Seq<String>, hidden: Seq<String>, i: int, n: nat) -> int
    decreases n,
{
    if n == 0 || !(i + 1 < files.len()) {
        i
    } else {
        steps_forward(files, hidden, step_forward(files, hidden, i), (n - 1) as nat)
    }
}

/// The cursor after up to `n` backward steps from `i`, stopping at the start.
pub open spec fn steps_backward(files: Seq<String>, hidden: Seq<String>, i: int, n: nat) -> int
    decreases n,
{
    if n == 0 || !(i > 0) {
        i
    } else {
        steps_backward(files, hidden, step_backward(files, hidden, i), (n - 1) as nat)
    }
}

/// The first file that is not hidden, or the last file when all are hidden.
pub open spec fn first_shown(files: Seq<String>, hidden: Seq<String>) -> int {
    if files.len() == 0 || shown(files, hidden, 0) {
        0
    } else {
        step_forward(files, hidden, 0)
    }
}

/// The last file that is not hidden, or the first file when all are hidden.
pub open spec fn last_shown(files: Seq<String>, hidden: Seq<String>) -> int {
    if files.len() == 0 {
        0
    } else if shown(files, hidden, files.len() - 1) {
        files.len() - 1
    } else {
        step_backward(files, hidden, files.len() - 1)
    }
}

/// The first position in `files` that is the same path as `target`.
pub open spec fn position_of(files: Seq<String>, target: Seq<char>) -> Option<int> {
    if exists|i: int| 0 <= i < files.len() && same_path(files[i]@, target) {
        Some(choose|i: int| 0 <= i < files.len() && same_path(files[i]@, target)
            && forall|k: int| 0 <= k < i ==> !same_path(#[trigger] files[k]@, target))
    } else {
        None
    }
}

/// The cursor after `go_next` on a list of `len` files: one further, unless
/// it is on the last file (or the list is empty).
pub open spec fn next_cursor(len: nat, i: nat) -> nat {
    if len > 0 && i < len - 1 { i + 1 } else { i }
}

/// The cursor after `go_prev`: one back, unless it is at the start.
pub open spec fn prev_cursor(i: nat) -> nat {
    if i > 0 { (i - 1) as nat } else { i }
}

/// "i / n" with a 1-based cursor, or "0 / 0" for an empty list.
pub open spec fn position_text(index: nat, len: nat) -> Seq<char> {
    if len == 0 {
        seq!['0', ' ', '/', ' ', '0']
    } else {
        decimal(index + 1) + seq![' ', '/', ' '] + decimal(len)
    }
}

impl DirectoryListing {
    /// The cursor designates a file, or the list is empty and the cursor is 0.
    pub open spec fn cursor_ok(&self) -> bool {
        self.current_index < self.files@.len() || (self.files@.len() == 0 && self.current_index == 0)
    }

    /// A listing of `files` (already filtered and sorted) with the cursor at
    /// the start.
    pub fn new(dir_path: String, files: Vec<String>, rating_filter: Option<RatingFilter>) -> (r: Self)
        ensures
            r.dir_path == dir_path,
            r.files == files,
            r.current_index == 0,
            r.rating_filter == rating_filter,
            r.cursor_ok(),
    {
        DirectoryListing { dir_path, files, current_index: 0, rating_filter }
    }

    pub fn len(&self) -> (n: usize)
        ensures
            n == self.files@.len(),
    {
        self.files.len()
    }

    pub fn is_empty(&self) -> (b: bool)
        ensures
            b == (self.files@.len() == 0),
    {
        self.files.len() == 0
    }

    pub fn can_go_next(&self) -> (b: bool)
        ensures
            b == (self.files@.len() > 0 && self.current_index < self.files@.len() - 1),
    {
        self.files.len() != 0 && self.current_index < self.files.len() - 1
    }

    pub fn can_go_prev(&self) -> (b: bool)
        ensures
            b == (self.current_index > 0),
    {
        self.current_index > 0
    }

    /// Moves the cursor one file forward; `false` (and no move) at the end.
    pub fn go_next(&mut self) -> (moved: bool)
        ensures
            final(self).files == old(self).files,
            final(self).dir_path == old(self).dir_path,
            final(self).rating_filter == old(self).rating_filter,
            moved == (old(self).files@.len() > 0 && old(self).current_index < old(self).files@.len() - 1),
            final(self).current_index == next_cursor(old(self).files@.len(), old(self).current_index as nat),
    {
        let n = self.files.len();
        if n > 0 && self.current_index < n - 1 {
            self.current_index = self.current_index + 1;
            true
        } else {
            false
        }
    }

    /// Moves the cursor one file back; `false` (and no move) at the start.
    pub fn go_prev(&mut self) -> (moved: bool)
        ensures
            final(self).files == old(self).files,
            final(self).dir_path == old(self).dir_path,
            final(self).rating_filter == old(self).rating_filter,
            moved == (old(self).current_index > 0),
            final(self).current_index == prev_cursor(old(self).current_index as nat),
    {
        if self.can_go_prev() {
            self.current_index = self.current_index - 1;
            true
        } else {
            false
        }
    }

    /// The file under the cursor.
    pub fn current(&self) -> (r: Option<&String>)
        ensures
            r is Some <==> self.current_index < self.files@.len(),
            r matches Some(p) ==> *p == self.files@[self.current_index as int],
    {
        if self.current_index < self.files.len() {
            Some(&self.files[self.current_index])
        } else {
            None
        }
    }

    pub fn go_to_first(&mut self)
        ensures
            final(self).files == old(self).files,
            final(self).dir_path == old(self).dir_path,
            final(self).rating_filter == old(self).rating_filter,
            final(self).current_index == 0,
    {
        self.current_index = 0;
    }

    pub fn go_to_last(&mut self)
        ensures
            final(self).files == old(self).files,
            final(self).dir_path == old(self).dir_path,
            final(self).rating_filter == old(self).rating_filter,
            final(self).current_index == if old(self).files@.len() == 0 { 0 } else { old(self).files@.len() - 1 },
    {
        self.current_index = if self.files.len() == 0 { 0 } else { self.files.len() - 1 };
    }

    /// Moves the cursor to the first file that is the same path as `target`;
    /// `false` (and no move) when there is none.
    pub fn seek_to(&mut self, target: &str) -> (found: bool)
        ensures
            final(self).files == old(self).files,
            final(self).dir_path == old(self).dir_path,
            final(self).rating_filter == old(self).rating_filter,
            found == (position_of(old(self).files@, target@) is Some),
            found ==> final(self).current_index == position_of(old(self).files@, target@)->0,
            !found ==> final(self).current_index == old(self).current_index,
    {
        let tv = chars_of(target);
        let mut i: usize = 0;
        while i < self.files.len()
            invariant
                self.files == old(self).files,
                self.dir_path == old(self).dir_path,
                self.rating_filter == old(self).rating_filter,
                self.current_index == old(self).current_index,
                i <= self.files@.len(),
                tv@ == target@,
                forall|k: int| 0 <= k < i ==> !same_path(#[trigger] self.files@[k]@, target@),
            decreases self.files@.len() - i,
        {
            let pv = chars_of(self.files[i].as_str());
            if same_path_chars(&pv, &tv) {
                proof {
                    let w = choose|w: int| 0 <= w < self.files@.len() && same_path(self.files@[w]@, target@)
                        && forall|k: int| 0 <= k < w ==> !same_path(#[trigger] self.files@[k]@, target@);
                    assert(same_path(self.files@[w]@, target@));
                    if w < i { } else if w > i { assert(!same_path(self.files@[i as int]@, target@)); }
                }
                self.current_index = i;
                return true;
            }
            i = i + 1;
        }
        false
    }

    /// Human-readable cursor position, e.g. "4 / 20".
    pub fn position_label(&self) -> (s: String)
        requires
            self.files@.len() == 0 || self.current_index < usize::MAX,
        ensures
            s@ == position_text(self.current_index as nat, self.files@.len()),
    {
        let mut out: Vec<char> = Vec::new();
        if self.files.len() == 0 {
            out.push('0');
            out.push(' ');
            out.push('/');
            out.push(' ');
            out.push('0');
            proof { assert(out@ =~= seq!['0', ' ', '/', ' ', '0']); }
        } else {
            push_decimal(&mut out, (self.current_index + 1) as u64);
            out.push(' ');
            out.push('/');
            out.push(' ');
            push_decimal(&mut out, self.files.len() as u64);
            proof {
                assert(out@ =~= decimal((self.current_index + 1) as nat) + seq![' ', '/', ' ']
                    + decimal(self.files@.len()));
            }
        }
        string_of(out.as_slice())
    }

    /// Replaces this listing with a fresh scan of the same view (same
    /// directory, same filter), keeping the cursor on the file it was on
    /// when that file is still listed.
    pub fn refresh(&mut self, fresh: DirectoryListing)
        requires
            fresh.dir_path == old(self).dir_path,
            fresh.rating_filter == old(self).rating_filter,
        ensures
            final(self).dir_path == old(self).dir_path,
            final(self).rating_filter == old(self).rating_filter,
            final(self).files == fresh.files,
            final(self).dir_path == fresh.dir_path,
            final(self).rating_filter == fresh.rating_filter,
            ({
                let before = old(self);
                if before.current_index < before.files@.len() {
                    let cur = before.files@[before.current_index as int]@;
                    match position_of(fresh.files@, cur) {
                        Some(i) => final(self).current_index == i,
                        None => final(self).current_index == fresh.current_index,
                    }
                } else {
                    final(self).current_index == fresh.current_index
                }
            }),
            // The cursor stays on the file it was on whenever the fresh list still holds it.
            old(self).current_index < old(self).files@.len()
                && (exists|k: int| 0 <= k < fresh.files@.len()
                    && same_path(#[trigger] fresh.files@[k]@, old(self).files@[old(self).current_index as int]@))
                ==> final(self).current_index < fresh.files@.len()
                    && same_path(fresh.files@[final(self).current_index as int]@,
                        old(self).files@[old(self).current_index as int]@),
    {
        proof {
            if old(self).current_index < old(self).files@.len() {
                law_seek_finds_target(fresh.files@, old(self).files@[old(self).current_index as int]@);
            }
        }
        let current_file: Option<String> = match self.current() {
            Some(p) => Some(p.clone()),
            None => None,
        };
        *self = fresh;
        match current_file {
            Some(path) => {
                self.seek_to(path.as_str());
            },
            None => {},
        }
    }

    /// The view must be rebuilt from the database (library-wide view).
    pub fn is_global_view(&self) -> (b: bool)
        ensures
            b == (self.dir_path@.len() == 0),
    {
        self.dir_path.as_str().is_empty()
    }

    /// Puts the cursor at `index`, or on the last file when `index` is past
    /// the end (`index.min(len.saturating_sub(1))`).
    pub fn clamp_cursor(&mut self, index: usize)
        ensures
            final(self).files == old(self).files,
            final(self).dir_path == old(self).dir_path,
            final(self).rating_filter == old(self).rating_filter,
            final(self).current_index == if old(self).files@.len() == 0 { 0 } else if index < old(self).files@.len() { index as int } else { old(self).files@.len() - 1 },
            final(self).cursor_ok(),
    {
        let last = if self.files.len() == 0 { 0 } else { self.files.len() - 1 };
        self.current_index = if index < last { index } else { last };
    }

    /// One forward step that skips hidden files: `false` when the cursor is
    /// already on the last file.
    fn step_visible_forward(&mut self, hidden: &Vec<String>) -> (moved: bool)
        ensures
            final(self).files == old(self).files,
            final(self).dir_path == old(self).dir_path,
            final(self).rating_filter == old(self).rating_filter,
            moved == (old(self).current_index + 1 < old(self).files@.len()),
            moved ==> final(self).current_index == step_forward(old(self).files@, hidden@, old(self).current_index as int),
            !moved ==> final(self).current_index == old(self).current_index,
    {
        let start = self.current_index;
        let mut step = false;
        while self.go_next()
            invariant_except_break
                step ==> forall|k: int| start < k <= self.current_index ==> !shown(self.files@, hidden@, k),
            invariant
                self.files == old(self).files,
                self.dir_path == old(self).dir_path,
                self.rating_filter == old(self).rating_filter,
                start == old(self).current_index,
                step ==> start < self.current_index < self.files@.len(),
                !step ==> self.current_index == start,
            ensures
                self.files == old(self).files,
                self.dir_path == old(self).dir_path,
                self.rating_filter == old(self).rating_filter,
                step == (start + 1 < self.files@.len()),
                step ==> start < self.current_index < self.files@.len(),
                step ==> forall|k: int| start < k < self.current_index ==> !shown(self.files@, hidden@, k),
                step ==> (shown(self.files@, hidden@, self.current_index as int) || self.current_index == self.files@.len() - 1),
                !step ==> self.current_index == start,
            decreases self.files@.len() - self.current_index,
        {
            step = true;
            let p = &self.files[self.current_index];
            if !path_in(hidden, p.as_str()) {
                break;
            }
        }
        proof {
            if step {
                let fs = self.files@;
                let h = hidden@;
                let c = self.current_index as int;
                if shown(fs, h, c) {
                    let w = choose|j: int| start < j && shown(fs, h, j)
                        && forall|k: int| start < k < j ==> !shown(fs, h, k);
                    assert(start < c && shown(fs, h, c));
                    if w < c { assert(!shown(fs, h, w)); }
                    if w > c { assert(!shown(fs, h, c)); }
                } else {
                    assert(c == fs.len() - 1);
                    if exists|j: int| start < j && shown(fs, h, j) {
                        let j = choose|j: int| start < j && shown(fs, h, j);
                        assert(!shown(fs, h, j));
                    }
                }
            }
        }
        step
    }

    /// One backward step that skips hidden files.
    #[verifier::rlimit(40)]
    fn step_visible_backward(&mut self, hidden: &Vec<String>) -> (moved: bool)
        ensures
            final(self).files == old(self).files,
            final(self).dir_path == old(self).dir_path,
            final(self).rating_filter == old(self).rating_filter,
            moved == (old(self).current_index > 0),
            moved ==> final(self).current_index == step_backward(old(self).files@, hidden@, old(self).current_index as int),
            !moved ==> final(self).current_index == old(self).current_index,
    {
        let start = self.current_index;
        let mut step = false;
        while self.go_prev()
            invariant_except_break
                step ==> forall|k: int| self.current_index <= k < start ==> !shown(self.files@, hidden@, k),
            invariant
                self.files == old(self).files,
                self.dir_path == old(self).dir_path,
                self.rating_filter == old(self).rating_filter,
                start == old(self).current_index,
                step ==> self.current_index < start,
                !step ==> self.current_index == start,
            ensures
                self.files == old(self).files,
                self.dir_path == old(self).dir_path,
                self.rating_filter == old(self).rating_filter,
                step == (start > 0),
                step ==> self.current_index < start,
                step ==> forall|k: int| self.current_index < k < start ==> !shown(self.files@, hidden@, k),
                step ==> (shown(self.files@, hidden@, self.current_index as int) || self.current_index == 0),
                !step ==> self.current_index == start,
            decreases self.current_index,
        {
            step = true;
            if self.current_index < self.files.len() {
                let p = &self.files[self.current_index];
                if !path_in(hidden, p.as_str()) {
                    break;
                }
            }
        }
        proof {
            if step {
                let fs = self.files@;
                let h = hidden@;
                let c = self.current_index as int;
                let si = start as int;
                if shown(fs, h, c) {
                    let w = choose|j: int| j < si && shown(fs, h, j)
                        && forall|k: int| j < k < si ==> !shown(fs, h, k);
                    assert(c < si && shown(fs, h, c));
                    if w > c { assert(!shown(fs, h, w)); }
                    if w < c { assert(!shown(fs, h, c)); }
                } else {
                    assert(c == 0);
                    if exists|j: int| j < si && shown(fs, h, j) {
                        let j = choose|j: int| j < si && shown(fs, h, j);
                        assert(!shown(fs, h, j));
                    }
                }
            }
        }
        step
    }

    /// Moves up to `n` steps forward, each step skipping hidden files;
    /// `true` when the cursor moved at all.
    pub fn advance_visible(&mut self, n: usize, hidden: &Vec<String>) -> (moved: bool)
        ensures
            final(self).files == old(self).files,
            final(self).dir_path == old(self).dir_path,
            final(self).rating_filter == old(self).rating_filter,
            final(self).current_index == steps_forward(old(self).files@, hidden@, old(self).current_index as int, n as nat),
            moved == (n > 0 && old(self).current_index + 1 < old(self).files@.len()),
    {
        let mut moved = false;
        let mut k: usize = 0;
        while k < n
            invariant
                self.files == old(self).files,
                self.dir_path == old(self).dir_path,
                self.rating_filter == old(self).rating_filter,
                k <= n,
                steps_forward(old(self).files@, hidden@, old(self).current_index as int, n as nat)
                    == steps_forward(self.files@, hidden@, self.current_index as int, (n - k) as nat),
                moved == (k > 0 && old(self).current_index + 1 < old(self).files@.len()),
                !moved ==> self.current_index == old(self).current_index,
            ensures
                final_ok_forward(old(self).files@, hidden@, old(self).current_index as int, n as nat, self.current_index as int),
                self.files == old(self).files,
                self.dir_path == old(self).dir_path,
                self.rating_filter == old(self).rating_filter,
                moved == (n > 0 && old(self).current_index + 1 < old(self).files@.len()),
            decreases n - k,
        {
            let step = self.step_visible_forward(hidden);
            if !step {
                break;
            }
            moved = true;
            k = k + 1;
        }
        moved
    }

    /// Moves up to `n` steps back, each step skipping hidden files.
    pub fn retreat_visible(&mut self, n: usize, hidden: &Vec<String>) -> (moved: bool)
        ensures
            final(self).files == old(self).files,
            final(self).dir_path == old(self).dir_path,
            final(self).rating_filter == old(self).rating_filter,
            final(self).current_index == steps_backward(old(self).files@, hidden@, old(self).current_index as int, n as nat),
            moved == (n > 0 && old(self).current_index > 0),
    {
        let mut moved = false;
        let mut k: usize = 0;
        while k < n
            invariant
                self.files == old(self).files,
                self.dir_path == old(self).dir_path,
                self.rating_filter == old(self).rating_filter,
                k <= n,
                steps_backward(old(self).files@, hidden@, old(self).current_index as int, n as nat)
                    == steps_backward(self.files@, hidden@, self.current_index as int, (n - k) as nat),
                moved == (k > 0 && old(self).current_index > 0),
                !moved ==> self.current_index == old(self).current_index,
            ensures
                final_ok_backward(old(self).files@, hidden@, old(self).current_index as int, n as nat, self.current_index as int),
                self.files == old(self).files,
                self.dir_path == old(self).dir_path,
                self.rating_filter == old(self).rating_filter,
                moved == (n > 0 && old(self).current_index > 0),
            decreases n - k,
        {
            let step = self.step_visible_backward(hidden);
            if !step {
                break;
            }
            moved = true;
            k = k + 1;
        }
        moved
    }

    /// Puts the cursor on the first file that is not hidden (on the last
    /// file when all are hidden).
    pub fn go_to_first_shown(&mut self, hidden: &Vec<String>)
        ensures
            final(self).files == old(self).files,
            final(self).dir_path == old(self).dir_path,
            final(self).rating_filter == old(self).rating_filter,
            final(self).current_index == first_shown(old(self).files@, hidden@),
    {
        self.go_to_first();
        if self.files.len() > 0 && path_in(hidden, self.files[0].as_str()) {
            self.step_visible_forward(hidden);
        }
    }

    /// Puts the cursor on the last file that is not hidden (on the first
    /// file when all are hidden).
    pub fn go_to_last_shown(&mut self, hidden: &Vec<String>)
        ensures
            final(self).files == old(self).files,
            final(self).dir_path == old(self).dir_path,
            final(self).rating_filter == old(self).rating_filter,
            final(self).current_index == last_shown(old(self).files@, hidden@),
    {
        self.go_to_last();
        if self.files.len() > 0 && path_in(hidden, self.files[self.files.len() - 1].as_str()) {
            self.step_visible_backward(hidden);
        }
    }
}

pub open spec fn final_ok_forward(files: Seq<String>, hidden: Seq<String>, i: int, n: nat, now: int) -> bool {
    now == steps_forward(files, hidden, i, n)
}

pub open spec fn final_ok_backward(files: Seq<String>, hidden: Seq<String>, i: int, n: nat, now: int) -> bool {
    now == steps_backward(files, hidden, i, n)
}

/// `p` is the same path as some entry of `set`.
pub fn path_in(set: &Vec<String>, p: &str) -> (b: bool)
    ensures
        b == is_hidden(set@, p@),
{
    let pv = chars_of(p);
    let mut i: usize = 0;
    while i < set.len()
        invariant
            i <= set@.len(),
            pv@ == p@,
            forall|k: int| 0 <= k < i ==> !same_path(#[trigger] set@[k]@, p@),
        decreases set@.len() - i,
    {
        let sv = chars_of(set[i].as_str());
        if same_path_chars(&sv, &pv) {
            return true;
        }
        i = i + 1;
    }
    false
}

/// The files of `s` whose extension names a supported format, in order.
pub open spec fn keep_supported(s: Seq<String>) -> Seq<String>
    decreases s.len(),
{
    if s.len() == 0 {
        s
    } else {
        let r = keep_supported(s.drop_last());
        if format_of_path(s.last()@) is Some { r.push(s.last()) } else { r }
    }
}

/// Keeps the candidates that have a supported image extension.
pub fn supported_files(candidates: &Vec<String>) -> (r: Vec<String>)
    ensures
        r@ == keep_supported(candidates@),
{
    let mut r: Vec<String> = Vec::new();
    let mut i: usize = 0;
    while i < candidates.len()
        invariant
            i <= candidates@.len(),
            r@ == keep_supported(candidates@.take(i as int)),
        decreases candidates@.len() - i,
    {
        proof { assert(candidates@.take(i + 1).drop_last() =~= candidates@.take(i as int)); }
        if SupportedFormat::from_path(candidates[i].as_str()).is_some() {
            r.push(candidates[i].clone());
        }
        i = i + 1;
    }
    proof { assert(candidates@.take(candidates@.len() as int) =~= candidates@); }
    r
}

/// Some file of `files` has the file name `name`.
pub open spec fn named_on_disk(files: Seq<String>, name: Seq<char>) -> bool {
    exists|k: int| 0 <= k < files.len() && file_name_spec(files[k]@) == Some(name)
}

/// The names of `db_names` that no file of `files` has.
pub open spec fn missing_names(db_names: Seq<String>, files: Seq<String>) -> Seq<String>
    decreases db_names.len(),
{
    if db_names.len() == 0 {
        db_names
    } else {
        let r = missing_names(db_names.drop_last(), files);
        if !named_on_disk(files, db_names.last()@) { r.push(db_names.last()) } else { r }
    }
}

/// Whether some file of `files` has the file name `name`.
fn name_on_disk(files: &Vec<String>, name: &String) -> (b: bool)
    ensures
        b == named_on_disk(files@, name@),
{
    let nv = chars_of(name.as_str());
    let mut i: usize = 0;
    while i < files.len()
        invariant
            i <= files@.len(),
            nv@ == name@,
            forall|k: int| 0 <= k < i ==> file_name_spec(#[trigger] files@[k]@) != Some(name@),
        decreases files@.len() - i,
    {
        let fv = chars_of(files[i].as_str());
        match file_name_chars(&fv) {
            Some(n) => {
                if crate::paths::chars_eq(&n, &nv) {
                    return true;
                }
            },
            None => {},
        }
        i = i + 1;
    }
    false
}

/// The database names (of one directory) for which no file is left on disk:
/// their records are pruned when the directory is scanned.
pub fn missing_records(db_names: &Vec<String>, files: &Vec<String>) -> (r: Vec<String>)
    ensures
        r@ == missing_names(db_names@, files@),
{
    let mut r: Vec<String> = Vec::new();
    let mut i: usize = 0;
    while i < db_names.len()
        invariant
            i <= db_names@.len(),
            r@ == missing_names(db_names@.take(i as int), files@),
        decreases db_names@.len() - i,
    {
        proof { assert(db_names@.take(i + 1).drop_last() =~= db_names@.take(i as int)); }
        if !name_on_disk(files, &db_names[i]) {
            r.push(db_names[i].clone());
        }
        i = i + 1;
    }
    proof { assert(db_names@.take(db_names@.len() as int) =~= db_names@); }
    r
}

/// The rating recorded for the first record named `name`, if any record is.
pub open spec fn record_rating(records: Seq<(String, Option<u8>)>, name: Seq<char>) -> Option<Option<u8>>
    decreases records.len(),
{
    if records.len() == 0 {
        None
    } else if records[0].0@ == name {
        Some(records[0].1)
    } else {
        record_rating(records.drop_first(), name)
    }
}

/// A file is kept under a filter when it has a record and the filter
/// accepts it with the recorded rating.
pub open spec fn kept_by_filter(filter: RatingFilter, records: Seq<(String, Option<u8>)>, p: Seq<char>) -> bool {
    match record_rating(records, name_or_empty(p)) {
        Some(r) => filter.accepts(p, r),
        None => false,
    }
}

pub open spec fn keep_rated(files: Seq<String>, filter: RatingFilter, records: Seq<(String, Option<u8>)>) -> Seq<String>
    decreases files.len(),
{
    if files.len() == 0 {
        files
    } else {
        let r = keep_rated(files.drop_last(), filter, records);
        if kept_by_filter(filter, records, files.last()@) { r.push(files.last()) } else { r }
    }
}

fn lookup_rating(records: &Vec<(String, Option<u8>)>, name: &Vec<char>) -> (r: Option<Option<u8>>)
    ensures
        r == record_rating(records@, name@),
{
    let mut i: usize = 0;
    proof { assert(records@.skip(0) =~= records@); }
    while i < records.len()
        invariant
            i <= records@.len(),
            record_rating(records@, name@) == record_rating(records@.skip(i as int), name@),
        decreases records@.len() - i,
    {
        proof {
            assert(records@.skip(i as int)[0] == records@[i as int]);
            assert(records@.skip(i as int).drop_first() =~= records@.skip(i + 1));
        }
        let rv = chars_of(records[i].0.as_str());
        if crate::paths::chars_eq(&rv, name) {
            return Some(records[i].1);
        }
        i = i + 1;
    }
    proof { assert(records@.skip(i as int).len() == 0); }
    None
}

/// Keeps the files that have a database record accepted by `filter`
/// (`records` holds the file name and rating of each record of the directory).
pub fn retain_rated(files: &Vec<String>, filter: &RatingFilter, records: &Vec<(String, Option<u8>)>) -> (r: Vec<String>)
    ensures
        r@ == keep_rated(files@, *filter, records@),
{
    let mut r: Vec<String> = Vec::new();
    let mut i: usize = 0;
    while i < files.len()
        invariant
            i <= files@.len(),
            r@ == keep_rated(files@.take(i as int), *filter, records@),
        decreases files@.len() - i,
    {
        proof { assert(files@.take(i + 1).drop_last() =~= files@.take(i as int)); }
        let fv = chars_of(files[i].as_str());
        let name = match file_name_chars(&fv) {
            Some(n) => n,
            None => Vec::new(),
        };
        proof { assert(name@ == name_or_empty(files@[i as int]@)); }
        let keep = match lookup_rating(records, &name) {
            Some(rating) => filter.matches(files[i].as_str(), rating),
            None => false,
        };
        if keep {
            r.push(files[i].clone());
        }
        i = i + 1;
    }
    proof { assert(files@.take(files@.len() as int) =~= files@); }
    r
}

/// In a stable sort of `files` by `order`, position `i` comes before `j`.
/// Names compare in `str` order; the other orders use the given keys
/// (modification time, file size).
pub open spec fn sort_before(order: SortOrder, files: Seq<String>, keys: Seq<i128>, i: int, j: int) -> bool {
    match order {
        SortOrder::Name => {
            let a = name_or_empty(files[i]@);
            let b = name_or_empty(files[j]@);
            lex_lt(a, b) || (a == b && i < j)
        },
        _ => keys[i] < keys[j] || (keys[i] == keys[j] && i < j),
    }
}

/// `new` is `old` rearranged by the permutation `p`, in stable `order`.
pub open spec fn sorted_by_perm(order: SortOrder, old: Seq<String>, keys: Seq<i128>, new: Seq<String>, p: Seq<usize>) -> bool {
    &&& is_permutation(p, old.len())
    &&& new.len() == old.len()
    &&& forall|k: int| 0 <= k < new.len() ==> new[k] == old[p[k] as int]
    &&& forall|a: int, b: int| 0 <= a < b < p.len() ==> sort_before(order, old, keys, p[a] as int, p[b] as int)
}

/// Sorts `files` stably by file name, or by the keys that the application
/// read for each file (modification time or size, one key per file).
pub fn sort_paths(files: &mut Vec<String>, order: SortOrder, keys: &Vec<i128>)
    requires
        order != SortOrder::Name ==> keys@.len() == old(files)@.len(),
    ensures
        exists|p: Seq<usize>| sorted_by_perm(order, old(files)@, keys@, final(files)@, p),
{
    let n = files.len();
    let sk = match order {
        SortOrder::Name => {
            let mut names: Vec<Vec<char>> = Vec::new();
            let mut i: usize = 0;
            while i < n
                invariant
                    n == files@.len(),
                    i <= n,
                    names@.len() == i,
                    forall|k: int| 0 <= k < i ==> (#[trigger] names@[k])@ == name_or_empty(files@[k]@),
                decreases n - i,
            {
                let fv = chars_of(files[i].as_str());
                let name = match file_name_chars(&fv) {
                    Some(nm) => nm,
                    None => Vec::new(),
                };
                names.push(name);
                i = i + 1;
            }
            SortKeys::Names(names)
        },
        _ => {
            let mut ks: Vec<i128> = Vec::new();
            let mut i: usize = 0;
            while i < n
                invariant
                    n == files@.len(),
                    n == keys@.len(),
                    i <= n,
                    ks@ == keys@.take(i as int),
                decreases n - i,
            {
                ks.push(keys[i]);
                i = i + 1;
                proof { assert(ks@ =~= keys@.take(i as int)); }
            }
            proof { assert(ks@ =~= keys@); }
            SortKeys::Numbers(ks)
        },
    };
    let p = stable_order(&sk);
    let mut out: Vec<String> = Vec::new();
    let mut k: usize = 0;
    while k < p.len()
        invariant
            n == files@.len(),
            is_permutation(p@, n as nat),
            out@.len() == k,
            k <= p@.len(),
            forall|m: int| 0 <= m < k ==> out@[m] == files@[p@[m] as int],
        decreases p@.len() - k,
    {
        let f = files[p[k]].clone();
        out.push(f);
        k = k + 1;
    }
    proof {
        assert forall|a: int, b: int| 0 <= a < b < p@.len() implies sort_before(order, files@, keys@, p@[a] as int, p@[b] as int) by {
            assert(sk.before(p@[a] as int, p@[b] as int));
        }
        assert(sorted_by_perm(order, files@, keys@, out@, p@));
    }
    *files = out;
}

impl DirectoryListing {
    /// The library-wide listing of rated images: `records` holds the
    /// directory and file name of each image the filter selected, `exists`
    /// whether that file is still on disk. Returns the listing (with the
    /// cursor at the start) and the positions of the records whose file is
    /// gone, which the application prunes from the database.
    pub fn scan_global(records: &Vec<(String, String)>, exists: &Vec<bool>, filter: &RatingFilter) -> (r: (DirectoryListing, Vec<usize>))
        requires
            exists@.len() == records@.len(),
        ensures
            r.0.dir_path@.len() == 0,
            r.0.current_index == 0,
            r.0.rating_filter == Some(*filter),
            r.0.files@.len() + r.1@.len() == records@.len(),
            r.0.files@.len() == global_paths(records@, exists@).len(),
            forall|k: int| 0 <= k < r.0.files@.len() ==> (#[trigger] r.0.files@[k])@ == global_paths(records@, exists@)[k],
            r.1@ == gone_records(exists@),
    {
        let mut files: Vec<String> = Vec::new();
        let mut gone: Vec<usize> = Vec::new();
        let mut i: usize = 0;
        while i < records.len()
            invariant
                exists@.len() == records@.len(),
                i <= records@.len(),
                files@.len() == global_paths(records@.take(i as int), exists@.take(i as int)).len(),
                forall|k: int| 0 <= k < files@.len() ==> (#[trigger] files@[k])@ == global_paths(records@.take(i as int), exists@.take(i as int))[k],
                gone@ == gone_records(exists@.take(i as int)),
                files@.len() + gone@.len() == i,
            decreases records@.len() - i,
        {
            proof {
                assert(records@.take(i + 1).drop_last() =~= records@.take(i as int));
                assert(exists@.take(i + 1).drop_last() =~= exists@.take(i as int));
            }
            if exists[i] {
                let p = crate::paths::join_path(records[i].0.as_str(), records[i].1.as_str());
                files.push(p);
            } else {
                gone.push(i);
            }
            i = i + 1;
        }
        proof {
            assert(records@.take(records@.len() as int) =~= records@);
            assert(exists@.take(exists@.len() as int) =~= exists@);
        }
        let listing = DirectoryListing {
            dir_path: String::new(),
            files,
            current_index: 0,
            rating_filter: Some(filter.duplicate()),
        };
        (listing, gone)
    }
}

/// The paths `dir/name` of the records whose file still exists.
pub open spec fn global_paths(records: Seq<(String, String)>, exists: Seq<bool>) -> Seq<Seq<char>>
    decreases records.len(),
{
    if records.len() == 0 || exists.len() != records.len() {
        Seq::empty()
    } else {
        let r = global_paths(records.drop_last(), exists.drop_last());
        if exists.last() { r.push(push_component(records.last().0@, records.last().1@)) } else { r }
    }
}

/// The positions whose file no longer exists.
pub open spec fn gone_records(exists: Seq<bool>) -> Seq<usize>
    decreases exists.len(),
{
    if exists.len() == 0 {
        Seq::empty()
    } else {
        let r = gone_records(exists.drop_last());
        if !exists.last() { r.push((exists.len() - 1) as usize) } else { r }
    }
}

// ---------------------------------------------------------------------------
// Laws of the cursor
// ---------------------------------------------------------------------------

/// Law: navigation never wraps. On the last file `go_next` stays; on the
/// first file `go_prev` stays.
pub proof fn law_no_wrap(len: nat)
    ensures
        len > 0 ==> next_cursor(len, (len - 1) as nat) == len - 1,
        prev_cursor(0) == 0,
{
}

/// Law: a step back undoes a step forward that moved, and a step forward
/// undoes a step back that moved.
pub proof fn law_steps_undo(len: nat, i: nat)
    ensures
        len > 0 && i < len - 1 ==> prev_cursor(next_cursor(len, i)) == i,
        0 < i < len ==> next_cursor(len, prev_cursor(i)) == i,
{
}

/// Law: the cursor stays on a file under every move.
pub proof fn law_cursor_stays_valid(len: nat, i: nat)
    requires
        i < len,
    ensures
        next_cursor(len, i) < len,
        prev_cursor(i) < len,
        (if len == 0 { 0 } else { len - 1 }) < len,
{
}

/// Law: seeking lands on the first file that is the same path as the
/// target, and it finds one whenever the list holds such a file.
pub proof fn law_seek_finds_target(files: Seq<String>, target: Seq<char>)
    ensures
        position_of(files, target) matches Some(i) ==> 0 <= i < files.len() && same_path(files[i]@, target)
            && forall|k: int| 0 <= k < i ==> !same_path(#[trigger] files[k]@, target),
        (exists|k: int| 0 <= k < files.len() && same_path(#[trigger] files[k]@, target))
            ==> position_of(files, target) is Some,
{
    if exists|k: int| 0 <= k < files.len() && same_path(#[trigger] files[k]@, target) {
        let k = choose|k: int| 0 <= k < files.len() && same_path(#[trigger] files[k]@, target);
        lemma_first_same_path(files, target, k);
    }
}

/// Among the files up to `k` that are the same path as `target`, there is
/// a first one.
proof fn lemma_first_same_path(files: Seq<String>, target: Seq<char>, k: int)
    requires
        0 <= k < files.len(),
        same_path(files[k]@, target),
    ensures
        exists|i: int| 0 <= i < files.len() && same_path(files[i]@, target)
            && forall|m: int| 0 <= m < i ==> !same_path(#[trigger] files[m]@, target),
    decreases k,
{
    if exists|m: int| 0 <= m < k && same_path(#[trigger] files[m]@, target) {
        let m = choose|m: int| 0 <= m < k && same_path(#[trigger] files[m]@, target);
        lemma_first_same_path(files, target, m);
    } else {
        assert(forall|m: int| 0 <= m < k ==> !same_path(#[trigger] files[m]@, target));
    }
}

/// Law: a filter's own value always passes it, whatever the comparison,
/// when no path prefix restricts it; "exactly" is "at least" and "at most"
/// together, every rating is at least or at most the value, and "at most"
/// is "at least" seen from the other side.
pub proof fn law_rating_filter_ops(op: RatingFilterOp, r: u8, v: u8, path: Seq<char>)
    ensures
        (RatingFilter { op, value: v, path_prefix: None }).accepts(path, Some(v)),
        !(RatingFilter { op, value: v, path_prefix: None }).accepts(path, None),
        rating_passes(RatingFilterOp::Exactly, r, v)
            == (rating_passes(RatingFilterOp::AtLeast, r, v) && rating_passes(RatingFilterOp::AtMost, r, v)),
        rating_passes(RatingFilterOp::AtLeast, r, v) || rating_passes(RatingFilterOp::AtMost, r, v),
        rating_passes(RatingFilterOp::AtMost, r, v) == rating_passes(RatingFilterOp::AtLeast, v, r),
        rating_passes(RatingFilterOp::AtLeast, r, v) == (r >= v),
{
}

} // verus!
