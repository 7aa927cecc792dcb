//! The database health check: records whose file is gone ("orphans"),
//! summarised by directory so that the user can keep some of them (such as
//! those on a disconnected drive) out of the pruning.

use vstd::prelude::*;
use crate::text::{string_of, push_decimal, push_str, decimal};
use crate::paths::{push_component, join_path};
use crate::summary::{PathEntry, summarise_paths, flat_view, is_summary_of, summary_shape, lemma_shape_transfer,
    is_excluded, path_is_excluded};
use crate::purge::{keep_exclusions, excluded_in};

verus! {

/// State of the health-check window.
pub struct DbHealthState {
    pub total_entries: usize,
    pub scanned: bool,
    /// `(dir_id, dir_path, filename)` of each orphaned record.
    pub orphans: Vec<(i64, String, String)>,
    /// Summary of the orphans' directories; unchecked entries are kept.
    pub summary: Vec<PathEntry>,
    pub confirm_prune: bool,
    pub result: Option<String>,
}

/// The records whose file does not exist, in order.
pub open spec fn orphans_of(entries: Seq<(i64, String, String)>, exists: Seq<bool>) -> Seq<(i64, String, String)>
    decreases entries.len(),
{
    if entries.len() == 0 {
        Seq::empty()
    } else {
        let rest = orphans_of(entries.drop_last(), exists);
        if !exists[entries.len() - 1] { rest.push(entries.last()) } else { rest }
    }
}

/// The path of a record's file: its directory joined with its name.
pub open spec fn orphan_path(o: (i64, String, String)) -> Seq<char> {
    push_component(o.1@, o.2@)
}

/// What the summary of orphans is built from: a placeholder file `_` in
/// each orphan's directory, all in bucket 0.
pub open spec fn orphan_flat(orphans: Seq<(i64, String, String)>) -> Seq<(Seq<char>, usize)> {
    Seq::new(orphans.len(), |i: int| (push_component(orphans[i].1@, seq!['_']), 0usize))
}

/// The orphan is pruned: no excluded summary entry covers its file.
pub open spec fn is_candidate(o: (i64, String, String), summary: Seq<PathEntry>) -> bool {
    !is_excluded(orphan_path(o), summary)
}

/// The number of orphans that would be pruned.
pub open spec fn candidates_in(orphans: Seq<(i64, String, String)>, summary: Seq<PathEntry>) -> nat
    decreases orphans.len(),
{
    if orphans.len() == 0 {
        0
    } else {
        candidates_in(orphans.drop_last(), summary)
            + if is_candidate(orphans.last(), summary) { 1nat } else { 0nat }
    }
}

/// The orphans kept after pruning: those not pruned and those whose
/// removal failed (`removed[i]` tells whether removing orphan `i` worked).
pub open spec fn kept_orphans(orphans: Seq<(i64, String, String)>, summary: Seq<PathEntry>, removed: Seq<bool>)
    -> Seq<(i64, String, String)>
    decreases orphans.len(),
{
    if orphans.len() == 0 {
        Seq::empty()
    } else {
        let rest = kept_orphans(orphans.drop_last(), summary, removed);
        let i = orphans.len() - 1;
        if !is_candidate(orphans.last(), summary) || !removed[i] { rest.push(orphans.last()) } else { rest }
    }
}

/// The number of pruned orphans whose removal worked (`ok`) or failed.
pub open spec fn pruned_count(orphans: Seq<(i64, String, String)>, summary: Seq<PathEntry>, removed: Seq<bool>, ok: bool)
    -> nat
    decreases orphans.len(),
{
    if orphans.len() == 0 {
        0
    } else {
        let i = orphans.len() - 1;
        pruned_count(orphans.drop_last(), summary, removed, ok)
            + if is_candidate(orphans.last(), summary) && removed[i] == ok { 1nat } else { 0nat }
    }
}

/// The message after pruning: `Removed N entry/entries` and, when some
/// failed, `, M failed`.
pub open spec fn prune_message(pruned: nat, failed: nat) -> Seq<char> {
    "Removed "@ + decimal(pruned) + " entr"@ + (if pruned == 1 { "y"@ } else { "ies"@ })
        + (if failed > 0 { ", "@ + decimal(failed) + " failed"@ } else { Seq::empty() }) + "."@
}

fn orphan_flat_exec(orphans: &Vec<(i64, String, String)>) -> (r: Vec<(String, usize)>)
    ensures
        flat_view(r@) == orphan_flat(orphans@),
        forall|i: int| 0 <= i < r@.len() ==> (#[trigger] r@[i]).1 < 6,
{
    let mut out: Vec<(String, usize)> = Vec::new();
    let mut i: usize = 0;
    while i < orphans.len()
        invariant
            i <= orphans.len(),
            out@.len() == i,
            forall|k: int| 0 <= k < i ==> (#[trigger] out@[k]).0@ == push_component(orphans@[k].1@, seq!['_'])
                && out@[k].1 == 0,
        decreases orphans.len() - i,
    {
        proof { reveal_strlit("_"); assert("_"@ =~= seq!['_']); }
        out.push((join_path(orphans[i].1.as_str(), "_"), 0));
        i = i + 1;
    }
    proof { assert(flat_view(out@) =~= orphan_flat(orphans@)); }
    out
}

fn orphan_path_exec(o: &(i64, String, String)) -> (r: String)
    ensures
        r@ == orphan_path(*o),
{
    join_path(o.1.as_str(), o.2.as_str())
}

impl DbHealthState {
    pub fn new(total: usize) -> (r: Self)
        ensures
            r.total_entries == total,
            !r.scanned,
            r.orphans@.len() == 0,
            r.summary@.len() == 0,
            !r.confirm_prune,
            r.result is None,
    {
        DbHealthState {
            total_entries: total,
            scanned: false,
            orphans: Vec::new(),
            summary: Vec::new(),
            confirm_prune: false,
            result: None,
        }
    }

    /// Records as orphans the records (`(dir_id, dir_path, filename)`)
    /// whose file does not exist (`exists[i]` tells for record `i`), and
    /// summarises their directories.
    pub fn apply_scan(&mut self, entries: &Vec<(i64, String, String)>, exists: &Vec<bool>)
        requires
            entries.len() == exists.len(),
        ensures
            final(self).orphans@ == orphans_of(entries@, exists@),
            final(self).orphans@.len() > 0 ==> is_summary_of(orphan_flat(final(self).orphans@), final(self).summary@),
            final(self).orphans@.len() == 0 ==> final(self).summary@.len() == 0,
            final(self).scanned,
            final(self).total_entries == old(self).total_entries,
            final(self).confirm_prune == old(self).confirm_prune,
            final(self).result == old(self).result,
    {
        let mut orphans: Vec<(i64, String, String)> = Vec::new();
        let mut i: usize = 0;
        while i < entries.len()
            invariant
                i <= entries.len(),
                entries.len() == exists.len(),
                orphans@ == orphans_of(entries@.take(i as int), exists@),
            decreases entries.len() - i,
        {
            proof { assert(entries@.take(i + 1).drop_last() =~= entries@.take(i as int)); }
            if !exists[i] {
                let e = &entries[i];
                orphans.push((e.0, e.1.clone(), e.2.clone()));
            }
            i = i + 1;
        }
        proof { assert(entries@.take(entries.len() as int) =~= entries@); }
        let flat = orphan_flat_exec(&orphans);
        self.summary = summarise_paths(&flat);
        self.orphans = orphans;
        self.scanned = true;
    }

    /// Whether each orphan would be pruned (no excluded entry covers it).
    pub fn prune_candidates(&self) -> (r: Vec<bool>)
        ensures
            r@.len() == self.orphans@.len(),
            forall|i: int| 0 <= i < r@.len() ==> r@[i] == is_candidate(#[trigger] self.orphans@[i], self.summary@),
    {
        let mut out: Vec<bool> = Vec::new();
        let mut i: usize = 0;
        while i < self.orphans.len()
            invariant
                i <= self.orphans.len(),
                out@.len() == i,
                forall|k: int| 0 <= k < i ==> out@[k] == is_candidate(#[trigger] self.orphans@[k], self.summary@),
            decreases self.orphans.len() - i,
        {
            let path = orphan_path_exec(&self.orphans[i]);
            out.push(!path_is_excluded(path.as_str(), &self.summary));
            i = i + 1;
        }
        out
    }

    /// Number of orphans not under any excluded summary entry.
    pub fn candidate_count(&self) -> (n: usize)
        ensures
            n == candidates_in(self.orphans@, self.summary@),
    {
        let flags = self.prune_candidates();
        let mut n: usize = 0;
        let mut i: usize = 0;
        while i < flags.len()
            invariant
                i <= flags.len(),
                flags@.len() == self.orphans@.len(),
                forall|k: int| 0 <= k < flags@.len() ==> flags@[k] == is_candidate(#[trigger] self.orphans@[k], self.summary@),
                n == candidates_in(self.orphans@.take(i as int), self.summary@),
                n <= i,
            decreases flags.len() - i,
        {
            proof { assert(self.orphans@.take(i + 1).drop_last() =~= self.orphans@.take(i as int)); }
            if flags[i] {
                n = n + 1;
            }
            i = i + 1;
        }
        proof { assert(self.orphans@.take(flags.len() as int) =~= self.orphans@); }
        n
    }

    /// After the database removal of the pruned orphans (`removed[i]` tells
    /// whether removing orphan `i` worked): keeps the orphans that were not
    /// pruned or whose removal failed, lowers the total by the removed
    /// count, rebuilds the summary (keeping the excluded flags of paths that
    /// stay), and records the outcome message.
    pub fn finish_prune(&mut self, removed: &Vec<bool>)
        requires
            removed.len() == old(self).orphans.len(),
        ensures
            final(self).orphans@ == kept_orphans(old(self).orphans@, old(self).summary@, removed@),
            final(self).total_entries as int == {
                let p = pruned_count(old(self).orphans@, old(self).summary@, removed@, true);
                if old(self).total_entries >= p { old(self).total_entries - p } else { 0 }
            },
            final(self).orphans@.len() > 0
                ==> summary_shape(orphan_flat(final(self).orphans@), final(self).summary@),
            final(self).orphans@.len() == 0 ==> final(self).summary@.len() == 0,
            keep_exclusions(final(self).summary@, old(self).summary@),
            final(self).result matches Some(m) && m@ == prune_message(
                pruned_count(old(self).orphans@, old(self).summary@, removed@, true),
                pruned_count(old(self).orphans@, old(self).summary@, removed@, false)),
            final(self).scanned == old(self).scanned,
            final(self).confirm_prune == old(self).confirm_prune,
    {
        let flags = self.prune_candidates();
        let ghost os = self.orphans@;
        let ghost sm = self.summary@;
        let mut keep: Vec<(i64, String, String)> = Vec::new();
        let mut pruned: usize = 0;
        let mut failed: usize = 0;
        let mut i: usize = 0;
        while i < self.orphans.len()
            invariant
                i <= self.orphans.len(),
                os == self.orphans@,
                sm == self.summary@,
                removed.len() == os.len(),
                flags@.len() == os.len(),
                forall|k: int| 0 <= k < flags@.len() ==> flags@[k] == is_candidate(#[trigger] os[k], sm),
                keep@ == kept_orphans(os.take(i as int), sm, removed@),
                pruned == pruned_count(os.take(i as int), sm, removed@, true),
                failed == pruned_count(os.take(i as int), sm, removed@, false),
                pruned + failed <= i,
            decreases self.orphans.len() - i,
        {
            proof {
                assert(os.take(i + 1).drop_last() =~= os.take(i as int));
                assert(os.take(i + 1).last() == os[i as int]);
            }
            if flags[i] && removed[i] {
                pruned = pruned + 1;
            } else {
                if flags[i] {
                    failed = failed + 1;
                }
                let o = &self.orphans[i];
                keep.push((o.0, o.1.clone(), o.2.clone()));
            }
            i = i + 1;
        }
        proof { assert(os.take(os.len() as int) =~= os); }
        self.orphans = keep;
        self.total_entries = if self.total_entries >= pruned { self.total_entries - pruned } else { 0 };
        let flat = orphan_flat_exec(&self.orphans);
        let fresh = summarise_paths(&flat);
        let ghost fresh_view = fresh@;
        let summary = crate::purge::restore_exclusions(fresh, &self.summary);
        proof {
            if flat@.len() > 0 {
                lemma_shape_transfer(flat_view(flat@), fresh_view, summary@);
            }
        }
        self.summary = summary;
        let mut msg: Vec<char> = Vec::new();
        push_str(&mut msg, "Removed ");
        push_decimal(&mut msg, pruned as u64);
        push_str(&mut msg, " entr");
        if pruned == 1 {
            push_str(&mut msg, "y");
        } else {
            push_str(&mut msg, "ies");
        }
        if failed > 0 {
            push_str(&mut msg, ", ");
            push_decimal(&mut msg, failed as u64);
            push_str(&mut msg, " failed");
        }
        push_str(&mut msg, ".");
        proof {
            reveal_strlit("");
            assert(""@ =~= Seq::<char>::empty());
            assert(msg@ =~= prune_message(pruned as nat, failed as nat));
        }
        self.result = Some(string_of(msg.as_slice()));
    }
}

} // verus!
