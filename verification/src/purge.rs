//! The file-system purge utility: files grouped by their rating, with a
//! path summary in which the user excludes directories from deletion.

use vstd::prelude::*;
use crate::text::{chars_of, string_of, push_decimal, push_str, decimal};
use crate::paths::{parent_spec, parent_chars, file_name_chars};
use crate::listing::name_or_empty;
use crate::summary::{PathEntry, summarise_paths, flat_view, is_summary_of, summary_shape, lemma_shape_transfer,
    is_excluded, path_is_excluded};

verus! {

/// The files picked for deletion from one bucket.
pub struct PurgeConfirm {
    pub bucket: usize,
    pub files: Vec<String>,
}

/// State of the purge window.
pub struct PurgeState {
    pub base_path: String,
    pub recursive: bool,
    /// Files by bucket: 0 = unrated, 1–5 = star rating.
    pub buckets: Vec<Vec<String>>,
    pub scanned: bool,
    pub summary: Vec<PathEntry>,
    pub confirm: Option<PurgeConfirm>,
    pub result: Option<String>,
}

/// The directory string of a path, or the empty string when it has no parent.
pub open spec fn parent_or_empty(p: Seq<char>) -> Seq<char> {
    match parent_spec(p) {
        Some(d) => d,
        None => Seq::empty(),
    }
}

/// The bucket the database gives `(dir, name)`: the rating of the last
/// matching record, 0 when unrated or unknown.
pub open spec fn rating_bucket(ratings: Seq<(String, String, Option<u8>)>, dir: Seq<char>, name: Seq<char>) -> int
    decreases ratings.len(),
{
    if ratings.len() == 0 {
        0
    } else if ratings.last().0@ == dir && ratings.last().1@ == name {
        match ratings.last().2 {
            Some(r) => r as int,
            None => 0,
        }
    } else {
        rating_bucket(ratings.drop_last(), dir, name)
    }
}

/// The bucket of a file.
pub open spec fn file_bucket(ratings: Seq<(String, String, Option<u8>)>, f: Seq<char>) -> int {
    rating_bucket(ratings, parent_or_empty(f), name_or_empty(f))
}

/// The files of `files` in bucket `b`, in order.
pub open spec fn files_in_bucket(files: Seq<String>, ratings: Seq<(String, String, Option<u8>)>, b: int) -> Seq<String>
    decreases files.len(),
{
    if files.len() == 0 {
        Seq::empty()
    } else {
        let rest = files_in_bucket(files.drop_last(), ratings, b);
        if file_bucket(ratings, files.last()@) == b { rest.push(files.last()) } else { rest }
    }
}

/// Each file with its bucket, in order.
pub open spec fn bucketed(files: Seq<String>, ratings: Seq<(String, String, Option<u8>)>) -> Seq<(Seq<char>, usize)> {
    Seq::new(files.len(), |i: int| (files[i]@, file_bucket(ratings, files[i]@) as usize))
}

/// The files of a bucket that no excluded summary entry covers, in order.
pub open spec fn not_excluded(files: Seq<String>, summary: Seq<PathEntry>) -> Seq<String>
    decreases files.len(),
{
    if files.len() == 0 {
        Seq::empty()
    } else {
        let rest = not_excluded(files.drop_last(), summary);
        if !is_excluded(files.last()@, summary) { rest.push(files.last()) } else { rest }
    }
}

/// Every file of every bucket with its bucket number, bucket by bucket.
pub open spec fn flatten_buckets(buckets: Seq<Vec<String>>) -> Seq<(Seq<char>, usize)>
    decreases buckets.len(),
{
    if buckets.len() == 0 {
        Seq::empty()
    } else {
        let i = buckets.len() - 1;
        flatten_buckets(buckets.drop_last())
            + Seq::new(buckets.last()@.len(), |k: int| (buckets.last()@[k]@, i as usize))
    }
}

/// `fresh` with the excluded flag of each entry taken from the entry of
/// `old` with the same path (the last one, if several), when there is one.
pub open spec fn keep_exclusions(fresh: Seq<PathEntry>, old: Seq<PathEntry>) -> bool {
    forall|i: int| 0 <= i < fresh.len() ==> (#[trigger] fresh[i]).excluded == excluded_in(old, fresh[i].path@)
}

/// The excluded flag `old` records for `path` (the last entry with it), or `false`.
pub open spec fn excluded_in(old: Seq<PathEntry>, path: Seq<char>) -> bool
    decreases old.len(),
{
    if old.len() == 0 {
        false
    } else if old.last().path@ == path {
        old.last().excluded
    } else {
        excluded_in(old.drop_last(), path)
    }
}

/// The message after a deletion: `Deleted N file(s)` and, when some
/// failed, `, M failed`.
pub open spec fn deletion_message(deleted: nat, failed: nat) -> Seq<char> {
    "Deleted "@ + decimal(deleted) + " file"@ + (if deleted == 1 { Seq::empty() } else { "s"@ })
        + (if failed > 0 { ", "@ + decimal(failed) + " failed"@ } else { Seq::empty() }) + "."@
}

impl PurgeState {
    /// The bucket table has its six buckets.
    pub open spec fn wf(&self) -> bool {
        self.buckets@.len() == 6
    }

    pub fn new(base_path: String) -> (r: Self)
        ensures
            r.wf(),
            r.base_path == base_path,
            !r.recursive,
            forall|b: int| 0 <= b < 6 ==> (#[trigger] r.buckets@[b])@.len() == 0,
            !r.scanned,
            r.summary@.len() == 0,
            r.confirm is None,
            r.result is None,
    {
        PurgeState {
            base_path,
            recursive: false,
            buckets: vec![Vec::new(), Vec::new(), Vec::new(), Vec::new(), Vec::new(), Vec::new()],
            scanned: false,
            summary: Vec::new(),
            confirm: None,
            result: None,
        }
    }

    /// Buckets the files found by a scan by the ratings the database holds
    /// as `(dir_path, filename, rating)`, and summarises their paths.
    pub fn apply_scan(&mut self, files: &Vec<String>, ratings: &Vec<(String, String, Option<u8>)>)
        requires
            old(self).wf(),
            forall|i: int| 0 <= i < ratings.len() ==> match (#[trigger] ratings@[i]).2 {
                Some(r) => r <= 5,
                None => true,
            },
        ensures
            final(self).wf(),
            forall|b: int| 0 <= b < 6 ==> (#[trigger] final(self).buckets@[b])@ == files_in_bucket(files@, ratings@, b),
            files@.len() > 0 ==> is_summary_of(bucketed(files@, ratings@), final(self).summary@),
            files@.len() == 0 ==> final(self).summary@.len() == 0,
            final(self).scanned,
            final(self).base_path == old(self).base_path,
            final(self).recursive == old(self).recursive,
            final(self).confirm == old(self).confirm,
            final(self).result == old(self).result,
    {
        proof { lemma_bucket_bound(ratings@); }
        let mut buckets: Vec<Vec<String>> = vec![Vec::new(), Vec::new(), Vec::new(), Vec::new(), Vec::new(), Vec::new()];
        let mut flat: Vec<(String, usize)> = Vec::new();
        let mut i: usize = 0;
        while i < files.len()
            invariant
                i <= files.len(),
                buckets@.len() == 6,
                forall|b: int| 0 <= b < 6 ==> (#[trigger] buckets@[b])@ == files_in_bucket(files@.take(i as int), ratings@, b),
                flat@.len() == i,
                forall|k: int| 0 <= k < i ==> (#[trigger] flat@[k]).0@ == files@[k]@
                    && flat@[k].1 == file_bucket(ratings@, files@[k]@) as usize && flat@[k].1 < 6,
                forall|k: int| 0 <= k < ratings.len() ==> match (#[trigger] ratings@[k]).2 {
                    Some(r) => r <= 5,
                    None => true,
                },
                forall|s: Seq<char>| 0 <= #[trigger] file_bucket(ratings@, s) < 6,
            decreases files.len() - i,
        {
            let bucket = bucket_of(&files[i], ratings);
            proof { assert(files@.take(i + 1).drop_last() =~= files@.take(i as int)); }
            let ghost old_buckets = buckets@;
            let mut b = buckets.remove(bucket);
            b.push(files[i].clone());
            buckets.insert(bucket, b);
            flat.push((files[i].clone(), bucket));
            i = i + 1;
            proof {
                assert forall|c: int| 0 <= c < 6 implies (#[trigger] buckets@[c])@ == files_in_bucket(files@.take(i as int), ratings@, c) by {
                    if c != bucket {
                        assert(buckets@[c] == old_buckets[c]);
                    }
                }
            }
        }
        proof {
            assert(files@.take(files.len() as int) =~= files@);
            assert(flat_view(flat@) =~= bucketed(files@, ratings@));
        }
        self.buckets = buckets;
        self.summary = summarise_paths(&flat);
        self.scanned = true;
    }

    /// The files of `bucket` that no excluded summary entry covers.
    pub fn files_for_deletion(&self, bucket: usize) -> (r: Vec<String>)
        requires
            self.wf(),
            bucket < 6,
        ensures
            r@ == not_excluded(self.buckets@[bucket as int]@, self.summary@),
    {
        let files = &self.buckets[bucket];
        let mut out: Vec<String> = Vec::new();
        let mut i: usize = 0;
        while i < files.len()
            invariant
                i <= files.len(),
                out@ == not_excluded(files@.take(i as int), self.summary@),
            decreases files.len() - i,
        {
            proof { assert(files@.take(i + 1).drop_last() =~= files@.take(i as int)); }
            if !path_is_excluded(files[i].as_str(), &self.summary) {
                out.push(files[i].clone());
            }
            i = i + 1;
        }
        proof { assert(files@.take(files.len() as int) =~= files@); }
        out
    }

    /// Count of files in `bucket` that no excluded summary entry covers.
    pub fn filtered_count(&self, bucket: usize) -> (n: usize)
        requires
            self.wf(),
            bucket < 6,
        ensures
            n == not_excluded(self.buckets@[bucket as int]@, self.summary@).len(),
    {
        self.files_for_deletion(bucket).len()
    }

    /// After the files of a confirmed deletion were removed: drops the
    /// deleted files from their bucket, rebuilds the summary from the files
    /// that remain (keeping the excluded flags of paths that stay), and
    /// records the outcome message.
    pub fn finish_deletion(&mut self, bucket: usize, deleted: &Vec<String>, failed: usize)
        requires
            old(self).wf(),
            bucket < 6,
        ensures
            final(self).wf(),
            forall|b: int| 0 <= b < 6 && b != bucket ==> #[trigger] final(self).buckets@[b] == old(self).buckets@[b],
            final(self).buckets@[bucket as int]@ == without_listed(old(self).buckets@[bucket as int]@, deleted@),
            flatten_buckets(final(self).buckets@).len() > 0
                ==> summary_shape(flatten_buckets(final(self).buckets@), final(self).summary@),
            flatten_buckets(final(self).buckets@).len() == 0 ==> final(self).summary@.len() == 0,
            keep_exclusions(final(self).summary@, old(self).summary@),
            final(self).result matches Some(m) && m@ == deletion_message(deleted@.len(), failed as nat),
            final(self).base_path == old(self).base_path,
            final(self).recursive == old(self).recursive,
            final(self).scanned == old(self).scanned,
            final(self).confirm == old(self).confirm,
    {
        let kept = without_listed_exec(&self.buckets[bucket], deleted);
        self.buckets.set(bucket, kept);
        let flat = flatten_exec(&self.buckets);
        proof { lemma_flatten_bound(self.buckets@); }
        let fresh = summarise_paths(&flat);
        let ghost fresh_view = fresh@;
        let summary = restore_exclusions(fresh, &self.summary);
        proof {
            if flat@.len() > 0 {
                lemma_shape_transfer(flat_view(flat@), fresh_view, summary@);
            }
        }
        self.summary = summary;
        let mut msg: Vec<char> = Vec::new();
        push_str(&mut msg, "Deleted ");
        push_decimal(&mut msg, deleted.len() as u64);
        push_str(&mut msg, " file");
        if deleted.len() != 1 {
            push_str(&mut msg, "s");
        }
        if failed > 0 {
            push_str(&mut msg, ", ");
            push_decimal(&mut msg, failed as u64);
            push_str(&mut msg, " failed");
        }
        push_str(&mut msg, ".");
        proof {
            reveal_strlit("");
            assert(""@ =~= Seq::<char>::empty());
            assert(msg@ =~= deletion_message(deleted@.len(), failed as nat));
        }
        self.result = Some(string_of(msg.as_slice()));
    }
}

/// `files` without those that name the same path as an entry of `listed`.
pub open spec fn without_listed(files: Seq<String>, listed: Seq<String>) -> Seq<String>
    decreases files.len(),
{
    if files.len() == 0 {
        Seq::empty()
    } else {
        let rest = without_listed(files.drop_last(), listed);
        if crate::listing::is_hidden(listed, files.last()@) { rest } else { rest.push(files.last()) }
    }
}

proof fn lemma_flatten_bound(bs: Seq<Vec<String>>)
    ensures
        forall|i: int| 0 <= i < flatten_buckets(bs).len() ==> (#[trigger] flatten_buckets(bs)[i]).1 < bs.len(),
    decreases bs.len(),
{
    if bs.len() > 0 {
        lemma_flatten_bound(bs.drop_last());
        let head = flatten_buckets(bs.drop_last());
        assert forall|i: int| 0 <= i < flatten_buckets(bs).len() implies (#[trigger] flatten_buckets(bs)[i]).1 < bs.len() by {
            if i < head.len() {
                assert(flatten_buckets(bs)[i] == head[i]);
            }
        }
    }
}

fn without_listed_exec(files: &Vec<String>, listed: &Vec<String>) -> (r: Vec<String>)
    ensures
        r@ == without_listed(files@, listed@),
{
    let mut out: Vec<String> = Vec::new();
    let mut i: usize = 0;
    while i < files.len()
        invariant
            i <= files.len(),
            out@ == without_listed(files@.take(i as int), listed@),
        decreases files.len() - i,
    {
        proof { assert(files@.take(i + 1).drop_last() =~= files@.take(i as int)); }
        if !crate::listing::path_in(listed, files[i].as_str()) {
            out.push(files[i].clone());
        }
        i = i + 1;
    }
    proof { assert(files@.take(files.len() as int) =~= files@); }
    out
}

fn flatten_exec(buckets: &Vec<Vec<String>>) -> (r: Vec<(String, usize)>)
    ensures
        flat_view(r@) == flatten_buckets(buckets@),
        forall|i: int| 0 <= i < r@.len() ==> (#[trigger] r@[i]).1 < buckets@.len(),
{
    let mut out: Vec<(String, usize)> = Vec::new();
    let mut b: usize = 0;
    while b < buckets.len()
        invariant
            b <= buckets.len(),
            flat_view(out@) == flatten_buckets(buckets@.take(b as int)),
            forall|i: int| 0 <= i < out@.len() ==> (#[trigger] out@[i]).1 < b,
        decreases buckets.len() - b,
    {
        proof { assert(buckets@.take(b + 1).drop_last() =~= buckets@.take(b as int)); }
        let ghost start = out@;
        let files = &buckets[b];
        let mut k: usize = 0;
        while k < files.len()
            invariant
                k <= files.len(),
                b < buckets.len(),
                out@.len() == start.len() + k,
                forall|m: int| 0 <= m < start.len() ==> #[trigger] out@[m] == start[m],
                forall|m: int| 0 <= m < k ==> (#[trigger] out@[start.len() + m]).0@ == files@[m]@
                    && out@[start.len() + m].1 == b,
            decreases files.len() - k,
        {
            out.push((files[k].clone(), b));
            k = k + 1;
        }
        proof {
            let bs = buckets@.take(b + 1);
            assert(bs.last() == buckets@[b as int]);
            assert forall|m: int| 0 <= m < files@.len() implies (#[trigger] out@[start.len() + m]).0@ == files@[m]@ by {}
            let tail = Seq::new(files@.len(), |m: int| (files@[m]@, b));
            assert forall|j: int| 0 <= j < out@.len() implies #[trigger] flat_view(out@)[j] == (flat_view(start) + tail)[j] by {
                if j < start.len() {
                    assert(out@[j] == start[j]);
                } else {
                    let m = j - start.len();
                    assert(out@[start.len() + m].0@ == files@[m]@);
                }
            }
            assert(flat_view(out@) =~= flat_view(start) + tail);
            assert(flat_view(out@) =~= flatten_buckets(bs));
            assert forall|i: int| 0 <= i < out@.len() implies (#[trigger] out@[i]).1 < b + 1 by {
                if i < start.len() {
                    assert(out@[i] == start[i]);
                } else {
                    assert(out@[start.len() + (i - start.len())].1 == b);
                }
            }
        }
        b = b + 1;
    }
    proof { assert(buckets@.take(buckets.len() as int) =~= buckets@); }
    out
}

/// `fresh` with each entry's excluded flag taken from `old` (see [`excluded_in`]).
pub fn restore_exclusions(fresh: Vec<PathEntry>, old: &Vec<PathEntry>) -> (r: Vec<PathEntry>)
    ensures
        r@.len() == fresh@.len(),
        forall|i: int| 0 <= i < r@.len() ==> (#[trigger] r@[i]).path == fresh@[i].path && r@[i].counts == fresh@[i].counts,
        keep_exclusions(r@, old@),
{
    let mut out: Vec<PathEntry> = Vec::new();
    let mut i: usize = 0;
    while i < fresh.len()
        invariant
            i <= fresh.len(),
            out@.len() == i,
            forall|m: int| 0 <= m < i ==> (#[trigger] out@[m]).path == fresh@[m].path && out@[m].counts == fresh@[m].counts,
            forall|m: int| 0 <= m < i ==> (#[trigger] out@[m]).excluded == excluded_in(old@, out@[m].path@),
        decreases fresh.len() - i,
    {
        let ex = excluded_flag(old, &fresh[i].path);
        out.push(PathEntry { path: fresh[i].path.clone(), counts: fresh[i].counts, excluded: ex });
        i = i + 1;
    }
    out
}

fn excluded_flag(old: &Vec<PathEntry>, path: &String) -> (b: bool)
    ensures
        b == excluded_in(old@, path@),
{
    let mut k = old.len();
    proof { assert(old@.take(old.len() as int) =~= old@); }
    while k > 0
        invariant
            k <= old.len(),
            excluded_in(old@, path@) == excluded_in(old@.take(k as int), path@),
        decreases k,
    {
        proof { assert(old@.take(k as int).drop_last() =~= old@.take(k - 1)); }
        if old[k - 1].path == *path {
            return old[k - 1].excluded;
        }
        k = k - 1;
    }
    false
}

proof fn lemma_bucket_bound(ratings: Seq<(String, String, Option<u8>)>)
    requires
        forall|i: int| 0 <= i < ratings.len() ==> match (#[trigger] ratings[i]).2 {
            Some(r) => r <= 5,
            None => true,
        },
    ensures
        forall|s: Seq<char>| 0 <= #[trigger] file_bucket(ratings, s) < 6,
{
    assert forall|s: Seq<char>| 0 <= #[trigger] file_bucket(ratings, s) < 6 by {
        lemma_rating_bucket_bound(ratings, parent_or_empty(s), name_or_empty(s));
    }
}

proof fn lemma_rating_bucket_bound(ratings: Seq<(String, String, Option<u8>)>, dir: Seq<char>, name: Seq<char>)
    requires
        forall|i: int| 0 <= i < ratings.len() ==> match (#[trigger] ratings[i]).2 {
            Some(r) => r <= 5,
            None => true,
        },
    ensures
        0 <= rating_bucket(ratings, dir, name) < 6,
    decreases ratings.len(),
{
    if ratings.len() > 0 {
        assert(ratings.last() == ratings[ratings.len() - 1]);
        lemma_rating_bucket_bound(ratings.drop_last(), dir, name);
    }
}

fn bucket_of(file: &String, ratings: &Vec<(String, String, Option<u8>)>) -> (b: usize)
    requires
        forall|s: Seq<char>| 0 <= #[trigger] file_bucket(ratings@, s) < 6,
    ensures
        b == file_bucket(ratings@, file@),
        b < 6,
{
    let v = chars_of(file.as_str());
    let dir = match parent_chars(&v) {
        Some(d) => d,
        None => Vec::new(),
    };
    let name = match file_name_chars(&v) {
        Some(n) => n,
        None => Vec::new(),
    };
    let dir_s = string_of(dir.as_slice());
    let name_s = string_of(name.as_slice());
    let mut k = ratings.len();
    proof { assert(ratings@.take(ratings.len() as int) =~= ratings@); }
    while k > 0
        invariant
            k <= ratings.len(),
            dir_s@ == parent_or_empty(file@),
            name_s@ == name_or_empty(file@),
            forall|s: Seq<char>| 0 <= #[trigger] file_bucket(ratings@, s) < 6,
            rating_bucket(ratings@, dir_s@, name_s@) == rating_bucket(ratings@.take(k as int), dir_s@, name_s@),
        decreases k,
    {
        proof { assert(ratings@.take(k as int).drop_last() =~= ratings@.take(k - 1)); }
        if ratings[k - 1].0 == dir_s && ratings[k - 1].1 == name_s {
            proof {
                assert(ratings@.take(k as int).last() == ratings@[k - 1]);
                assert(0 <= file_bucket(ratings@, file@) < 6);
            }
            let r = match ratings[k - 1].2 {
                Some(r) => r as usize,
                None => 0,
            };
            return r;
        }
        k = k - 1;
    }
    proof { assert(ratings@.take(ratings.len() as int) =~= ratings@); }
    0
}

} // verus!
