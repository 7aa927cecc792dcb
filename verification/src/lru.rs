//! The eviction order of the decoded-image cache: least recently used
//! first.

use vstd::prelude::*;
use crate::paths::same_path;
use crate::listing::{is_hidden, path_in};

verus! {

/// The paths held by the cache, least recently used first, and how many
/// images the cache keeps.
pub struct LruOrder {
    pub order: Vec<String>,
    pub capacity: usize,
}

/// No two entries name the same path.
pub open spec fn distinct_paths(s: Seq<String>) -> bool {
    forall|i: int, j: int| 0 <= i < j < s.len() ==> !same_path(s[i]@, s[j]@)
}

/// `s` without the entries that name the path `p`.
pub open spec fn without_path(s: Seq<String>, p: Seq<char>) -> Seq<String>
    decreases s.len(),
{
    if s.len() == 0 {
        Seq::empty()
    } else {
        let rest = without_path(s.drop_last(), p);
        if same_path(s.last()@, p) { rest } else { rest.push(s.last()) }
    }
}

proof fn lemma_without_path(s: Seq<String>, p: Seq<char>)
    ensures
        !is_hidden(without_path(s, p), p),
        without_path(s, p).len() <= s.len(),
        forall|x: String| without_path(s, p).contains(x) ==> s.contains(x),
        distinct_paths(s) ==> distinct_paths(without_path(s, p)),
        !is_hidden(s, p) ==> without_path(s, p) == s,
    decreases s.len(),
{
    if s.len() > 0 {
        let rest = s.drop_last();
        lemma_without_path(rest, p);
        let w = without_path(rest, p);
        assert forall|x: String| without_path(s, p).contains(x) implies s.contains(x) by {
            if w.contains(x) {
                let i = choose|i: int| 0 <= i < w.len() && w[i] == x;
                assert(rest.contains(x));
                let j = choose|j: int| 0 <= j < rest.len() && rest[j] == x;
                assert(s[j] == x);
            } else {
                assert(x == s.last());
                assert(s[s.len() - 1] == x);
            }
        }
        if distinct_paths(s) {
            assert(distinct_paths(rest)) by {
                assert forall|i: int, j: int| 0 <= i < j < rest.len() implies !same_path(rest[i]@, rest[j]@) by {
                    assert(rest[i] == s[i] && rest[j] == s[j]);
                }
            }
            if !same_path(s.last()@, p) {
                let r = w.push(s.last());
                assert forall|i: int, j: int| 0 <= i < j < r.len() implies !same_path(r[i]@, r[j]@) by {
                    if j == w.len() {
                        assert(w.contains(r[i]));
                        assert(rest.contains(r[i]));
                        let k = choose|k: int| 0 <= k < rest.len() && rest[k] == r[i];
                        assert(s[k] == r[i]);
                        assert(!same_path(s[k]@, s[s.len() - 1]@));
                    }
                }
            }
        }
        if !same_path(s.last()@, p) {
            let r = w.push(s.last());
            assert forall|k: int| 0 <= k < r.len() implies !same_path(#[trigger] r[k]@, p) by {
                if k < w.len() {
                    assert(!is_hidden(w, p));
                }
            }
        }
        if !is_hidden(s, p) {
            assert(!is_hidden(rest, p)) by {
                if is_hidden(rest, p) {
                    let k = choose|k: int| 0 <= k < rest.len() && same_path(rest[k]@, p);
                    assert(s[k] == rest[k]);
                }
            }
            assert(!same_path(s[s.len() - 1]@, p));
            assert(s =~= rest.push(s.last()));
        }
    }
}

impl LruOrder {
    /// Entries name distinct paths.
    pub open spec fn wf(&self) -> bool {
        distinct_paths(self.order@)
    }

    pub fn new(capacity: usize) -> (r: Self)
        ensures
            r.wf(),
            r.order@.len() == 0,
            r.capacity == capacity,
    {
        LruOrder { order: Vec::new(), capacity }
    }

    /// The cache holds `path`.
    pub fn contains(&self, path: &str) -> (b: bool)
        ensures
            b == is_hidden(self.order@, path@),
    {
        path_in(&self.order, path)
    }

    fn remove_path(order: &Vec<String>, path: &str) -> (r: Vec<String>)
        ensures
            r@ == without_path(order@, path@),
    {
        let mut out: Vec<String> = Vec::new();
        let mut i: usize = 0;
        let pv = crate::text::chars_of(path);
        while i < order.len()
            invariant
                i <= order.len(),
                pv@ == path@,
                out@ == without_path(order@.take(i as int), path@),
            decreases order.len() - i,
        {
            proof { assert(order@.take(i + 1).drop_last() =~= order@.take(i as int)); }
            let ov = crate::text::chars_of(order[i].as_str());
            if !crate::paths::same_path_chars(&ov, &pv) {
                out.push(order[i].clone());
            }
            i = i + 1;
        }
        proof { assert(order@.take(order.len() as int) =~= order@); }
        out
    }

    /// Marks `path` as the most recently used, when the cache holds it.
    pub fn touch(&mut self, path: &String)
        requires
            old(self).wf(),
        ensures
            final(self).wf(),
            final(self).capacity == old(self).capacity,
            is_hidden(old(self).order@, path@) ==> final(self).order@ == without_path(old(self).order@, path@).push(*path),
            !is_hidden(old(self).order@, path@) ==> final(self).order@ == old(self).order@,
    {
        if self.contains(path.as_str()) {
            let mut rest = Self::remove_path(&self.order, path.as_str());
            proof { lemma_without_path(self.order@, path@); }
            rest.push(path.clone());
            proof {
                let w = without_path(self.order@, path@);
                assert forall|i: int, j: int| 0 <= i < j < rest@.len() implies !same_path(rest@[i]@, rest@[j]@) by {
                    if j == w.len() {
                        assert(!is_hidden(w, path@));
                        crate::paths::lemma_same_path_sym(rest@[i]@, path@);
                    } else {
                        assert(rest@[i] == w[i] && rest@[j] == w[j]);
                    }
                }
            }
            self.order = rest;
        }
    }

    /// Takes `path` into the cache as the most recently used. When the cache
    /// already holds it nothing changes; when it is full the least recently
    /// used path leaves first and is returned.
    pub fn take_in(&mut self, path: String) -> (evicted: Option<String>)
        requires
            old(self).wf(),
        ensures
            final(self).wf(),
            final(self).capacity == old(self).capacity,
            is_hidden(old(self).order@, path@) ==> final(self).order@ == old(self).order@ && evicted is None,
            !is_hidden(old(self).order@, path@) ==> {
                if old(self).order@.len() >= old(self).capacity && old(self).order@.len() > 0 {
                    evicted == Some(old(self).order@[0])
                        && final(self).order@ == old(self).order@.drop_first().push(path)
                } else {
                    evicted is None && final(self).order@ == old(self).order@.push(path)
                }
            },
            is_hidden(final(self).order@, path@),
            old(self).order@.len() <= (if old(self).capacity > 0 { old(self).capacity as int } else { 1 })
                ==> final(self).order@.len() <= (if old(self).capacity > 0 { old(self).capacity as int } else { 1 }),
    {
        if self.contains(path.as_str()) {
            return None;
        }
        proof { crate::paths::lemma_same_path_refl(path@); }
        let mut evicted: Option<String> = None;
        if self.order.len() >= self.capacity && self.order.len() > 0 {
            evicted = Some(self.order.remove(0));
        }
        let ghost before = self.order@;
        self.order.push(path);
        proof {
            assert forall|i: int, j: int| 0 <= i < j < self.order@.len() implies
                !same_path(self.order@[i]@, self.order@[j]@) by {
                if j == before.len() {
                    assert(self.order@[i] == before[i]);
                    assert(!same_path(self.order@[i]@, path@));
                } else {
                    assert(self.order@[i] == before[i] && self.order@[j] == before[j]);
                }
            }
            assert(self.order@[self.order@.len() - 1] == path);
        }
        evicted
    }

    /// Drops `path` from the cache.
    pub fn remove(&mut self, path: &str)
        requires
            old(self).wf(),
        ensures
            final(self).wf(),
            final(self).capacity == old(self).capacity,
            final(self).order@ == without_path(old(self).order@, path@),
    {
        proof { lemma_without_path(self.order@, path@); }
        self.order = Self::remove_path(&self.order, path);
    }
}

} // verus!
