//! Which GPU textures the viewer holds, one per image path, and which of
//! them it paints. The texture handles are the graphics API's; creating and
//! deleting them is the caller's part, this module keeps the books.

use vstd::prelude::*;
use crate::paths::{same_path, same_path_chars};
use crate::listing::{is_hidden, path_in};
use crate::text::chars_of;

verus! {

/// An uploaded image: its path, its texture and the texture's size.
pub struct TextureEntry<T> {
    pub path: String,
    pub texture: T,
    pub width: u32,
    pub height: u32,
}

/// The textures, one per path, and the path being painted.
pub struct TextureCache<T> {
    pub entries: Vec<TextureEntry<T>>,
    pub active_path: Option<String>,
}

/// No two entries are for the same path.
pub open spec fn paths_distinct<T>(s: Seq<TextureEntry<T>>) -> bool {
    forall|i: int, j: int| 0 <= i < j < s.len() ==> !same_path(s[i].path@, s[j].path@)
}

/// Some entry is for the path `p`.
pub open spec fn holds<T>(s: Seq<TextureEntry<T>>, p: Seq<char>) -> bool {
    exists|k: int| 0 <= k < s.len() && same_path(s[k].path@, p)
}

/// The entries whose path satisfies `keep`, in order.
pub open spec fn retained<T>(s: Seq<TextureEntry<T>>, keep: spec_fn(Seq<char>) -> bool) -> Seq<TextureEntry<T>>
    decreases s.len(),
{
    if s.len() == 0 {
        Seq::empty()
    } else {
        let rest = retained(s.drop_last(), keep);
        if keep(s.last().path@) { rest.push(s.last()) } else { rest }
    }
}

/// The textures of the entries whose path does not satisfy `keep`, in order.
pub open spec fn dropped<T>(s: Seq<TextureEntry<T>>, keep: spec_fn(Seq<char>) -> bool) -> Seq<T>
    decreases s.len(),
{
    if s.len() == 0 {
        Seq::empty()
    } else {
        let rest = dropped(s.drop_last(), keep);
        if keep(s.last().path@) { rest } else { rest.push(s.last().texture) }
    }
}

/// Paths other than `p`.
pub open spec fn other_than(p: Seq<char>) -> spec_fn(Seq<char>) -> bool {
    |q: Seq<char>| !same_path(q, p)
}

/// Paths named in `keep`.
pub open spec fn listed_in(keep: Seq<String>) -> spec_fn(Seq<char>) -> bool {
    |q: Seq<char>| is_hidden(keep, q)
}

proof fn lemma_retained<T>(s: Seq<TextureEntry<T>>, keep: spec_fn(Seq<char>) -> bool)
    ensures
        forall|i: int| 0 <= i < retained(s, keep).len() ==> keep(#[trigger] retained(s, keep)[i].path@),
        forall|i: int| 0 <= i < retained(s, keep).len() ==> s.contains(#[trigger] retained(s, keep)[i]),
        forall|i: int| 0 <= i < s.len() && keep(s[i].path@) ==> retained(s, keep).contains(#[trigger] s[i]),
        paths_distinct(s) ==> paths_distinct(retained(s, keep)),
    decreases s.len(),
{
    if s.len() > 0 {
        let rest = s.drop_last();
        lemma_retained(rest, keep);
        let r = retained(rest, keep);
        let out = retained(s, keep);
        assert forall|i: int| 0 <= i < out.len() implies s.contains(#[trigger] out[i]) by {
            if i < r.len() {
                assert(rest.contains(r[i]));
                let k = choose|k: int| 0 <= k < rest.len() && rest[k] == r[i];
                assert(s[k] == rest[k]);
            } else {
                assert(s[s.len() - 1] == out[i]);
            }
        }
        assert forall|i: int| 0 <= i < s.len() && keep(s[i].path@) implies out.contains(#[trigger] s[i]) by {
            if i < s.len() - 1 {
                assert(s[i] == rest[i]);
                assert(r.contains(rest[i]));
                let k = choose|k: int| 0 <= k < r.len() && r[k] == rest[i];
                assert(out[k] == r[k]);
            } else {
                assert(out[out.len() - 1] == s[i]);
            }
        }
        if paths_distinct(s) {
            assert(paths_distinct(rest)) by {
                assert forall|i: int, j: int| 0 <= i < j < rest.len() implies !same_path(rest[i].path@, rest[j].path@) by {
                    assert(rest[i] == s[i] && rest[j] == s[j]);
                }
            }
            if keep(s.last().path@) {
                assert forall|i: int, j: int| 0 <= i < j < out.len() implies !same_path(out[i].path@, out[j].path@) by {
                    if j == r.len() {
                        assert(rest.contains(r[i]));
                        let k = choose|k: int| 0 <= k < rest.len() && rest[k] == r[i];
                        assert(s[k] == r[i]);
                        assert(!same_path(s[k].path@, s[s.len() - 1].path@));
                    } else {
                        assert(out[i] == r[i] && out[j] == r[j]);
                    }
                }
            }
        }
    }
}

proof fn lemma_without_is_not_held<T>(s: Seq<TextureEntry<T>>, p: Seq<char>)
    ensures
        !holds(retained(s, other_than(p)), p),
{
    lemma_retained(s, other_than(p));
    let r = retained(s, other_than(p));
    if holds(r, p) {
        let k = choose|k: int| 0 <= k < r.len() && same_path(r[k].path@, p);
        assert((other_than(p))(r[k].path@));
    }
}

fn entry_copy<T: Copy>(e: &TextureEntry<T>) -> (r: TextureEntry<T>)
    ensures
        r == *e,
{
    TextureEntry { path: e.path.clone(), texture: e.texture, width: e.width, height: e.height }
}

impl<T: Copy> TextureCache<T> {
    /// Entries are for distinct paths.
    pub open spec fn wf(&self) -> bool {
        paths_distinct(self.entries@)
    }

    pub fn new() -> (r: Self)
        ensures
            r.wf(),
            r.entries@.len() == 0,
            r.active_path is None,
    {
        TextureCache { entries: Vec::new(), active_path: None }
    }

    fn find(&self, path: &str) -> (r: Option<usize>)
        ensures
            r is Some <==> holds(self.entries@, path@),
            r matches Some(k) ==> k < self.entries@.len() && same_path(self.entries@[k as int].path@, path@),
    {
        let pv = chars_of(path);
        let mut i: usize = 0;
        while i < self.entries.len()
            invariant
                i <= self.entries@.len(),
                pv@ == path@,
                forall|k: int| 0 <= k < i ==> !same_path(#[trigger] self.entries@[k].path@, path@),
            decreases self.entries.len() - i,
        {
            if same_path_chars(&chars_of(self.entries[i].path.as_str()), &pv) {
                return Some(i);
            }
            i = i + 1;
        }
        None
    }

    /// A texture is held for `path`.
    pub fn has_cached(&self, path: &str) -> (b: bool)
        ensures
            b == holds(self.entries@, path@),
    {
        self.find(path).is_some()
    }

    /// Paints `path` from now on; `true` when its texture is already held
    /// (switching is then immediate).
    pub fn set_active(&mut self, path: String) -> (found: bool)
        ensures
            final(self).entries == old(self).entries,
            final(self).active_path == Some(path),
            found == holds(old(self).entries@, path@),
    {
        let found = self.has_cached(path.as_str());
        self.active_path = Some(path);
        found
    }

    /// The texture held for `path`, when one is.
    fn texture_of(&self, path: &str) -> (r: Option<T>)
        ensures
            r is Some <==> holds(self.entries@, path@),
            r matches Some(t) ==> exists|k: int| 0 <= k < self.entries@.len()
                && same_path(self.entries@[k].path@, path@) && #[trigger] self.entries@[k].texture == t,
    {
        match self.find(path) {
            Some(k) => Some(self.entries[k].texture),
            None => None,
        }
    }

    fn without(entries: &Vec<TextureEntry<T>>, path: &str) -> (r: Vec<TextureEntry<T>>)
        ensures
            r@ == retained(entries@, other_than(path@)),
    {
        let pv = chars_of(path);
        let mut out: Vec<TextureEntry<T>> = Vec::new();
        let mut i: usize = 0;
        while i < entries.len()
            invariant
                i <= entries@.len(),
                pv@ == path@,
                out@ == retained(entries@.take(i as int), other_than(path@)),
            decreases entries.len() - i,
        {
            proof { assert(entries@.take(i + 1).drop_last() =~= entries@.take(i as int)); }
            if !same_path_chars(&chars_of(entries[i].path.as_str()), &pv) {
                out.push(entry_copy(&entries[i]));
            }
            i = i + 1;
        }
        proof { assert(entries@.take(entries.len() as int) =~= entries@); }
        out
    }

    /// Forgets the texture of `path` and hands it back for deletion.
    pub fn remove(&mut self, path: &str) -> (r: Option<T>)
        requires
            old(self).wf(),
        ensures
            final(self).wf(),
            final(self).entries@ == retained(old(self).entries@, other_than(path@)),
            final(self).active_path == old(self).active_path,
            !holds(final(self).entries@, path@),
            r is Some <==> holds(old(self).entries@, path@),
            r matches Some(t) ==> exists|k: int| 0 <= k < old(self).entries@.len()
                && same_path(old(self).entries@[k].path@, path@) && #[trigger] old(self).entries@[k].texture == t,
    {
        let r = self.texture_of(path);
        proof {
            lemma_retained(self.entries@, other_than(path@));
            lemma_without_is_not_held(self.entries@, path@);
        }
        self.entries = Self::without(&self.entries, path);
        r
    }

    /// Holds `texture` for `path`, in place of the one held before, which
    /// is handed back.
    pub fn insert(&mut self, path: String, texture: T, width: u32, height: u32) -> (replaced: Option<T>)
        requires
            old(self).wf(),
        ensures
            final(self).wf(),
            final(self).entries@ == retained(old(self).entries@, other_than(path@))
                .push(TextureEntry { path, texture, width, height }),
            final(self).active_path == old(self).active_path,
            replaced is Some <==> holds(old(self).entries@, path@),
            replaced matches Some(t) ==> exists|k: int| 0 <= k < old(self).entries@.len()
                && same_path(old(self).entries@[k].path@, path@) && #[trigger] old(self).entries@[k].texture == t,
    {
        let replaced = self.remove(path.as_str());
        let ghost before = self.entries@;
        self.entries.push(TextureEntry { path, texture, width, height });
        proof {
            lemma_retained(old(self).entries@, other_than(path@));
            assert forall|i: int, j: int| 0 <= i < j < self.entries@.len() implies
                !same_path(self.entries@[i].path@, self.entries@[j].path@) by {
                if j == before.len() {
                    assert(self.entries@[i] == before[i]);
                    assert((other_than(path@))(before[i].path@));
                } else {
                    assert(self.entries@[i] == before[i] && self.entries@[j] == before[j]);
                }
            }
        }
        replaced
    }

    /// Forgets the textures of the paths not named in `keep` and hands them
    /// back for deletion, in the order they were held.
    pub fn evict_stale(&mut self, keep: &Vec<String>) -> (evicted: Vec<T>)
        requires
            old(self).wf(),
        ensures
            final(self).wf(),
            final(self).entries@ == retained(old(self).entries@, listed_in(keep@)),
            evicted@ == dropped(old(self).entries@, listed_in(keep@)),
            final(self).active_path == old(self).active_path,
    {
        let mut kept: Vec<TextureEntry<T>> = Vec::new();
        let mut gone: Vec<T> = Vec::new();
        let mut i: usize = 0;
        while i < self.entries.len()
            invariant
                i <= self.entries@.len(),
                kept@ == retained(self.entries@.take(i as int), listed_in(keep@)),
                gone@ == dropped(self.entries@.take(i as int), listed_in(keep@)),
            decreases self.entries.len() - i,
        {
            proof { assert(self.entries@.take(i + 1).drop_last() =~= self.entries@.take(i as int)); }
            if path_in(keep, self.entries[i].path.as_str()) {
                kept.push(entry_copy(&self.entries[i]));
            } else {
                gone.push(self.entries[i].texture);
            }
            i = i + 1;
        }
        proof {
            assert(self.entries@.take(self.entries.len() as int) =~= self.entries@);
            lemma_retained(self.entries@, listed_in(keep@));
        }
        self.entries = kept;
        gone
    }

    /// Forgets the texture of `path`, handing it back, and stops painting
    /// `path` when it is the one painted.
    pub fn invalidate(&mut self, path: &str) -> (removed: Option<T>)
        requires
            old(self).wf(),
        ensures
            final(self).wf(),
            final(self).entries@ == retained(old(self).entries@, other_than(path@)),
            removed is Some <==> holds(old(self).entries@, path@),
            removed matches Some(t) ==> exists|k: int| 0 <= k < old(self).entries@.len()
                && same_path(old(self).entries@[k].path@, path@) && #[trigger] old(self).entries@[k].texture == t,
            final(self).active_path == (match old(self).active_path {
                Some(a) => if same_path(a@, path@) { None } else { Some(a) },
                None => None,
            }),
    {
        let removed = self.remove(path);
        let clear = match &self.active_path {
            Some(a) => same_path_chars(&chars_of(a.as_str()), &chars_of(path)),
            None => false,
        };
        if clear {
            self.active_path = None;
        }
        removed
    }

    /// The texture to paint: that of the active path, when it is held.
    pub fn active_texture(&self) -> (r: Option<T>)
        ensures
            r is Some <==> (self.active_path matches Some(a) && holds(self.entries@, a@)),
            r matches Some(t) ==> exists|k: int| 0 <= k < self.entries@.len()
                && same_path(self.entries@[k].path@, self.active_path->0@) && #[trigger] self.entries@[k].texture == t,
    {
        match &self.active_path {
            Some(a) => self.texture_of(a.as_str()),
            None => None,
        }
    }

    /// Every texture held, in order (to delete them all).
    pub fn textures(&self) -> (v: Vec<T>)
        ensures
            v@.len() == self.entries@.len(),
            forall|i: int| 0 <= i < v@.len() ==> v@[i] == #[trigger] self.entries@[i].texture,
    {
        let mut v: Vec<T> = Vec::new();
        let mut i: usize = 0;
        while i < self.entries.len()
            invariant
                i <= self.entries@.len(),
                v@.len() == i,
                forall|k: int| 0 <= k < i ==> v@[k] == #[trigger] self.entries@[k].texture,
            decreases self.entries.len() - i,
        {
            v.push(self.entries[i].texture);
            i = i + 1;
        }
        v
    }
}

} // verus!
