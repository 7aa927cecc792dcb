//! Condensed summaries of many file paths: the directories they lie in,
//! shortened from the tail until few enough remain, with a count per
//! rating bucket.

use vstd::prelude::*;
use crate::text::{chars_of, string_of, copy_chars};
use crate::paths::{components, parent_components, join_components, views, components_of,
    parent_components_of, join_prefix, chars_eq};
use crate::order::{lex_lt, SortKeys, stable_order, is_permutation, is_stably_sorted};

verus! {

/// How many distinct prefixes a summary aims for.
pub const SUMMARY_TARGET: usize = 20;

/// The largest number of trailing components removed from the directories.
pub const MAX_TRIM: usize = 31;

/// One entry in the condensed path summary.
pub struct PathEntry {
    pub path: String,
    /// Files per bucket: `[unrated, ★1 … ★5]`.
    pub counts: [usize; 6],
    /// `true` when the user has unchecked this path.
    pub excluded: bool,
}

/// The marker that ends a path whose tail was cut off.
pub open spec fn ellipsis_tail() -> Seq<char> {
    seq!['/', '…']
}

/// The string for components `cs` with the last `n` removed, followed by
/// `/…` when some were removed (just `/…` when none are left).
pub open spec fn trim_tail_cs(cs: Seq<Seq<char>>, n: nat) -> Seq<char> {
    let keep = if cs.len() >= n { cs.len() - n } else { 0 };
    let j = join_components(cs.take(keep as int));
    if keep < cs.len() { j + ellipsis_tail() } else { j }
}

/// The components of the directory a file is in: its parent's, or its own
/// when it has no parent.
pub open spec fn dir_components(p: Seq<char>) -> Seq<Seq<char>> {
    match parent_components(p) {
        Some(cs) => cs,
        None => components(p),
    }
}

/// The summary key of a file at trim level `t`.
pub open spec fn summary_key(p: Seq<char>, t: nat) -> Seq<char> {
    trim_tail_cs(dir_components(p), t)
}

/// The characters of each path with its bucket.
pub open spec fn flat_view(files: Seq<(String, usize)>) -> Seq<(Seq<char>, usize)> {
    Seq::new(files.len(), |i: int| (files[i].0@, files[i].1))
}

/// The distinct keys of `files` at trim level `t`, in order of first occurrence.
pub open spec fn keys_of(files: Seq<(Seq<char>, usize)>, t: nat) -> Seq<Seq<char>>
    decreases files.len(),
{
    if files.len() == 0 {
        Seq::empty()
    } else {
        let d = keys_of(files.drop_last(), t);
        let k = summary_key(files.last().0, t);
        if d.contains(k) { d } else { d.push(k) }
    }
}

/// The number of files with key `key` at trim level `t` in bucket `b`.
pub open spec fn count_in(files: Seq<(Seq<char>, usize)>, t: nat, key: Seq<char>, b: int) -> nat
    decreases files.len(),
{
    if files.len() == 0 {
        0
    } else {
        count_in(files.drop_last(), t, key, b)
            + if summary_key(files.last().0, t) == key && files.last().1 == b { 1nat } else { 0nat }
    }
}

/// The trim level used: the first from `t` on with at most
/// [`SUMMARY_TARGET`] distinct keys, and at most [`MAX_TRIM`].
pub open spec fn summary_trim_from(files: Seq<(Seq<char>, usize)>, t: nat) -> nat
    decreases MAX_TRIM - t,
{
    if keys_of(files, t).len() <= SUMMARY_TARGET || t >= MAX_TRIM {
        t
    } else {
        summary_trim_from(files, t + 1)
    }
}

pub open spec fn summary_trim(files: Seq<(Seq<char>, usize)>) -> nat {
    summary_trim_from(files, 0)
}

/// `r` is the summary of `files`: one entry per distinct key at the trim
/// level used, sorted by path, with the per-bucket counts, none excluded.
pub open spec fn is_summary_of(files: Seq<(Seq<char>, usize)>, r: Seq<PathEntry>) -> bool {
    &&& summary_shape(files, r)
    &&& forall|i: int| 0 <= i < r.len() ==> !(#[trigger] r[i].excluded)
}

/// The paths and counts of `r` are those of the summary of `files`
/// (whatever their excluded flags).
pub open spec fn summary_shape(files: Seq<(Seq<char>, usize)>, r: Seq<PathEntry>) -> bool {
    let t = summary_trim(files);
    let ks = keys_of(files, t);
    &&& r.len() == ks.len()
    &&& forall|i: int, j: int| 0 <= i < j < r.len() ==> lex_lt(r[i].path@, r[j].path@)
    &&& forall|i: int| 0 <= i < r.len() ==> ks.contains(#[trigger] r[i].path@)
    &&& forall|k: Seq<char>| ks.contains(k) ==> exists|i: int| 0 <= i < r.len() && #[trigger] r[i].path@ == k
    &&& forall|i: int, b: int| 0 <= i < r.len() && 0 <= b < 6
            ==> #[trigger] r[i].counts@[b] == count_in(files, t, r[i].path@, b)
}

/// Entries with the same paths and counts as a summary have its shape.
pub proof fn lemma_shape_transfer(files: Seq<(Seq<char>, usize)>, a: Seq<PathEntry>, b: Seq<PathEntry>)
    requires
        summary_shape(files, a),
        a.len() == b.len(),
        forall|i: int| 0 <= i < b.len() ==> (#[trigger] b[i]).path == a[i].path && b[i].counts == a[i].counts,
    ensures
        summary_shape(files, b),
{
    let ks = keys_of(files, summary_trim(files));
    assert forall|k: Seq<char>| ks.contains(k) implies exists|i: int| 0 <= i < b.len() && #[trigger] b[i].path@ == k by {
        let i = choose|i: int| 0 <= i < a.len() && #[trigger] a[i].path@ == k;
        assert(b[i].path == a[i].path);
    }
    assert forall|i: int, c: int| 0 <= i < b.len() && 0 <= c < 6
        implies #[trigger] b[i].counts@[c] == count_in(files, summary_trim(files), b[i].path@, c) by {
        assert(b[i].counts == a[i].counts);
        assert(a[i].counts@[c] == count_in(files, summary_trim(files), a[i].path@, c));
    }
    assert forall|i: int| 0 <= i < b.len() implies ks.contains(#[trigger] b[i].path@) by {
        assert(b[i].path == a[i].path);
        assert(ks.contains(a[i].path@));
    }
    assert forall|i: int, j: int| 0 <= i < j < b.len() implies lex_lt(b[i].path@, b[j].path@) by {
        assert(b[i].path == a[i].path);
        assert(b[j].path == a[j].path);
    }
}

fn trim_tail_components(cs: &Vec<Vec<char>>, n: usize) -> (r: Vec<char>)
    ensures
        r@ == trim_tail_cs(views(cs@), n as nat),
{
    let keep = if cs.len() >= n { cs.len() - n } else { 0 };
    let mut j = join_prefix(cs, keep);
    if keep < cs.len() {
        j.push('/');
        j.push('…');
        proof { assert(j@ =~= join_components(views(cs@).take(keep as int)) + ellipsis_tail()); }
    }
    j
}

/// `path` with its last `n` components removed, followed by `/…` if any
/// were removed (see [`trim_tail_cs`]).
pub fn trim_tail(path: &str, n: usize) -> (r: String)
    ensures
        r@ == trim_tail_cs(components(path@), n as nat),
{
    let v = chars_of(path);
    let cs = components_of(&v);
    let t = trim_tail_components(&cs, n);
    string_of(t.as_slice())
}

fn dir_components_of(p: &String) -> (r: Vec<Vec<char>>)
    ensures
        views(r@) == dir_components(p@),
{
    let v = chars_of(p.as_str());
    match parent_components_of(&v) {
        Some(cs) => cs,
        None => components_of(&v),
    }
}

proof fn lemma_keys_distinct(files: Seq<(Seq<char>, usize)>, t: nat)
    ensures
        forall|i: int, j: int| 0 <= i < j < keys_of(files, t).len()
            ==> keys_of(files, t)[i] != keys_of(files, t)[j],
    decreases files.len(),
{
    if files.len() > 0 {
        lemma_keys_distinct(files.drop_last(), t);
        let d = keys_of(files.drop_last(), t);
        let k = summary_key(files.last().0, t);
        if !d.contains(k) {
            assert forall|i: int, j: int| 0 <= i < j < d.push(k).len() implies d.push(k)[i] != d.push(k)[j] by {
                if j == d.len() {
                    assert(d.push(k)[i] == d[i]);
                }
            }
        }
    }
}

proof fn lemma_count_absent(files: Seq<(Seq<char>, usize)>, t: nat, key: Seq<char>, b: int)
    requires
        !keys_of(files, t).contains(key),
    ensures
        count_in(files, t, key, b) == 0,
    decreases files.len(),
{
    if files.len() > 0 {
        let d = keys_of(files.drop_last(), t);
        let k = summary_key(files.last().0, t);
        if d.contains(key) {
            let w = choose|w: int| 0 <= w < d.len() && d[w] == key;
            if d.contains(k) {
                assert(keys_of(files, t)[w] == key);
            } else {
                assert(d.push(k)[w] == key);
            }
        }
        if k == key {
            if d.contains(k) {
            } else {
                assert(d.push(k)[d.len() as int] == key);
            }
        }
        lemma_count_absent(files.drop_last(), t, key, b);
    }
}

/// Groups the files by their key at trim level `t`: the distinct keys in
/// order of first occurrence and their per-bucket counts.
fn group_by_key(files: &Vec<(String, usize)>, t: usize) -> (r: (Vec<Vec<char>>, Vec<[usize; 6]>))
    requires
        forall|i: int| 0 <= i < files.len() ==> (#[trigger] files@[i]).1 < 6,
    ensures
        views(r.0@) == keys_of(flat_view(files@), t as nat),
        r.1@.len() == r.0@.len(),
        forall|j: int, b: int| 0 <= j < r.0@.len() && 0 <= b < 6
            ==> #[trigger] r.1@[j]@[b] == count_in(flat_view(files@), t as nat, r.0@[j]@, b),
{
    let ghost fv = flat_view(files@);
    let mut keys: Vec<Vec<char>> = Vec::new();
    let mut counts: Vec<[usize; 6]> = Vec::new();
    let mut i: usize = 0;
    while i < files.len()
        invariant
            i <= files.len(),
            forall|k: int| 0 <= k < files.len() ==> (#[trigger] files@[k]).1 < 6,
            fv == flat_view(files@),
            views(keys@) == keys_of(fv.take(i as int), t as nat),
            counts@.len() == keys@.len(),
            forall|j: int, b: int| 0 <= j < keys@.len() && 0 <= b < 6
                ==> #[trigger] counts@[j]@[b] == count_in(fv.take(i as int), t as nat, keys@[j]@, b),
            forall|j: int, b: int| 0 <= j < keys@.len() && 0 <= b < 6 ==> #[trigger] counts@[j]@[b] <= i,
        decreases files.len() - i,
    {
        let ghost pre = fv.take(i as int);
        let ghost post = fv.take(i + 1);
        proof { assert(post.drop_last() =~= pre); }
        let cs = dir_components_of(&files[i].0);
        let key = trim_tail_components(&cs, t);
        let bucket = files[i].1;
        proof {
            assert(post.last() == fv[i as int]);
            assert(key@ == summary_key(post.last().0, t as nat));
            assert(post.last().1 == bucket);
        }
        let mut j: usize = 0;
        while j < keys.len()
            invariant
                j <= keys.len(),
                forall|m: int| 0 <= m < j ==> keys@[m]@ != key@,
            ensures
                j <= keys.len(),
                forall|m: int| 0 <= m < j ==> keys@[m]@ != key@,
                j < keys.len() ==> keys@[j as int]@ == key@,
            decreases keys.len() - j,
        {
            if chars_eq(&keys[j], &key) {
                break;
            }
            j = j + 1;
        }
        if j < keys.len() {
            let mut c = counts[j];
            c[bucket] = c[bucket] + 1;
            let ghost old_counts = counts@;
            counts.set(j, c);
            proof {
                assert(views(keys@)[j as int] == key@);
                assert(keys_of(pre, t as nat).contains(key@));
                assert forall|m: int, b: int| 0 <= m < keys@.len() && 0 <= b < 6
                    implies #[trigger] counts@[m]@[b] == count_in(post, t as nat, keys@[m]@, b) by {
                    assert(count_in(post, t as nat, keys@[m]@, b) == count_in(pre, t as nat, keys@[m]@, b)
                        + if key@ == keys@[m]@ && bucket == b { 1nat } else { 0nat });
                    if m != j {
                        assert(counts@[m] == old_counts[m]);
                        lemma_keys_distinct(pre, t as nat);
                        assert(views(keys@)[m] == keys@[m]@);
                    }
                }
                assert forall|m: int, b: int| 0 <= m < keys@.len() && 0 <= b < 6
                    implies #[trigger] counts@[m]@[b] <= i + 1 by {
                    if m != j { assert(counts@[m] == old_counts[m]); }
                }
            }
        } else {
            proof {
                assert forall|m: int| 0 <= m < keys@.len() implies views(keys@)[m] != key@ by {
                    assert(views(keys@)[m] == keys@[m]@);
                }
                assert(!keys_of(pre, t as nat).contains(key@));
            }
            let ghost old_keys = keys@;
            let ghost old_counts = counts@;
            let mut c: [usize; 6] = [0, 0, 0, 0, 0, 0];
            c[bucket] = 1;
            keys.push(key);
            counts.push(c);
            proof {
                assert(views(keys@) =~= views(old_keys).push(key@));
                assert forall|m: int, b: int| 0 <= m < keys@.len() && 0 <= b < 6
                    implies #[trigger] counts@[m]@[b] == count_in(post, t as nat, keys@[m]@, b) by {
                    assert(count_in(post, t as nat, keys@[m]@, b) == count_in(pre, t as nat, keys@[m]@, b)
                        + if key@ == keys@[m]@ && bucket == b { 1nat } else { 0nat });
                    if m < old_keys.len() {
                        assert(keys@[m] == old_keys[m]);
                        assert(counts@[m] == old_counts[m]);
                        assert(views(old_keys)[m] == old_keys[m]@);
                    } else {
                        lemma_count_absent(pre, t as nat, key@, b);
                    }
                }
                assert forall|m: int, b: int| 0 <= m < keys@.len() && 0 <= b < 6
                    implies #[trigger] counts@[m]@[b] <= i + 1 by {
                    if m < old_keys.len() { assert(counts@[m] == old_counts[m]); }
                }
            }
        }
        i = i + 1;
    }
    proof { assert(fv.take(files.len() as int) =~= fv); }
    (keys, counts)
}

/// Builds a compact list of path prefixes with per-bucket counts: the
/// directories of the files are shortened from the tail, one more component
/// at a time, until at most [`SUMMARY_TARGET`] distinct prefixes remain (or
/// [`MAX_TRIM`] components were removed), then listed by path.
pub fn summarise_paths(files: &Vec<(String, usize)>) -> (r: Vec<PathEntry>)
    requires
        forall|i: int| 0 <= i < files.len() ==> (#[trigger] files@[i]).1 < 6,
    ensures
        files@.len() == 0 ==> r@.len() == 0,
        files@.len() > 0 ==> is_summary_of(flat_view(files@), r@),
{
    if files.len() == 0 {
        return Vec::new();
    }
    let mut t: usize = 0;
    loop
        invariant
            t <= MAX_TRIM,
            forall|i: int| 0 <= i < files.len() ==> (#[trigger] files@[i]).1 < 6,
            summary_trim(flat_view(files@)) == summary_trim_from(flat_view(files@), t as nat),
        decreases MAX_TRIM - t,
    {
        let (keys, counts) = group_by_key(files, t);
        if keys.len() <= SUMMARY_TARGET || t >= MAX_TRIM {
            let ghost ks = keys_of(flat_view(files@), t as nat);
            let sort_keys = SortKeys::Names(keys);
            let order = stable_order(&sort_keys);
            let keys = match sort_keys {
                SortKeys::Names(k) => k,
                SortKeys::Numbers(_) => Vec::new(),
            };
            proof { lemma_keys_distinct(flat_view(files@), t as nat); }
            let mut out: Vec<PathEntry> = Vec::new();
            let mut i: usize = 0;
            while i < order.len()
                invariant
                    i <= order.len(),
                    is_permutation(order@, keys@.len() as nat),
                    views(keys@) == ks,
                    counts@.len() == keys@.len(),
                    out@.len() == i,
                    forall|m: int| 0 <= m < i ==> (#[trigger] out@[m]).path@ == keys@[order@[m] as int]@,
                    forall|m: int| 0 <= m < i ==> (#[trigger] out@[m]).counts == counts@[order@[m] as int],
                    forall|m: int| 0 <= m < i ==> !(#[trigger] out@[m]).excluded,
                decreases order.len() - i,
            {
                let k = order[i];
                out.push(PathEntry { path: string_of(keys[k].as_slice()), counts: counts[k], excluded: false });
                i = i + 1;
            }
            proof {
                let tt = t as nat;
                assert(summary_trim(flat_view(files@)) == tt);
                assert forall|a: int, b: int| 0 <= a < b < out@.len() implies lex_lt(out@[a].path@, out@[b].path@) by {
                    let pa = order@[a] as int;
                    let pb = order@[b] as int;
                    assert(SortKeys::Names(keys).before(pa, pb));
                    assert(pa != pb);
                    assert(views(keys@)[pa] == keys@[pa]@);
                    assert(views(keys@)[pb] == keys@[pb]@);
                }
                assert forall|a: int| 0 <= a < out@.len() implies ks.contains(#[trigger] out@[a].path@) by {
                    let pa = order@[a] as int;
                    assert(views(keys@)[pa] == keys@[pa]@);
                }
                assert forall|k: Seq<char>| ks.contains(k) implies exists|a: int| 0 <= a < out@.len() && #[trigger] out@[a].path@ == k by {
                    let w = choose|w: int| 0 <= w < ks.len() && ks[w] == k;
                    assert(views(keys@)[w] == keys@[w]@);
                    assert(order@.contains(w as usize));
                    let a = choose|a: int| 0 <= a < order@.len() && order@[a] == w as usize;
                    assert(out@[a].path@ == k);
                }
            }
            return out;
        }
        t = t + 1;
    }
}

/// `s` without every trailing `/…` (`str::trim_end_matches`).
pub open spec fn strip_ellipsis(s: Seq<char>) -> Seq<char>
    decreases s.len(),
{
    if s.len() >= 2 && s.subrange(s.len() - 2, s.len() as int) == ellipsis_tail() {
        strip_ellipsis(s.subrange(0, s.len() - 2))
    } else {
        s
    }
}

/// The directory of `file` lies under the path of the excluded entry `e`
/// (whole components; a trailing `/…` is ignored).
pub open spec fn excluded_by(file: Seq<char>, e: PathEntry) -> bool {
    match parent_components(file) {
        Some(dir) => {
            let base = components(strip_ellipsis(e.path@));
            e.excluded && base.len() <= dir.len() && dir.subrange(0, base.len() as int) == base
        },
        None => false,
    }
}

/// `file` falls under an excluded entry of `summary`.
pub open spec fn is_excluded(file: Seq<char>, summary: Seq<PathEntry>) -> bool {
    exists|i: int| 0 <= i < summary.len() && excluded_by(file, #[trigger] summary[i])
}

fn strip_ellipsis_chars(v: &Vec<char>) -> (r: Vec<char>)
    ensures
        r@ == strip_ellipsis(v@),
{
    let mut end = v.len();
    proof { assert(v@.subrange(0, v.len() as int) =~= v@); }
    while end >= 2 && v[end - 2] == '/' && v[end - 1] == '…'
        invariant
            end <= v.len(),
            strip_ellipsis(v@) == strip_ellipsis(v@.subrange(0, end as int)),
        decreases end,
    {
        proof {
            let s = v@.subrange(0, end as int);
            assert(s.subrange(s.len() - 2, s.len() as int) =~= ellipsis_tail());
            assert(s.subrange(0, s.len() - 2) =~= v@.subrange(0, end - 2));
        }
        end = end - 2;
    }
    proof {
        let s = v@.subrange(0, end as int);
        if end >= 2 {
            assert(s.subrange(s.len() - 2, s.len() as int) != ellipsis_tail()) by {
                if s.subrange(s.len() - 2, s.len() as int) == ellipsis_tail() {
                    assert(s.subrange(s.len() - 2, s.len() as int)[0] == v@[end - 2]);
                    assert(s.subrange(s.len() - 2, s.len() as int)[1] == v@[end - 1]);
                }
            }
        }
    }
    crate::text::slice_chars(v, 0, end)
}

/// Whether `file_path` falls under an excluded entry of `summary`
/// (component-wise, so `/a/b` does not cover `/a/bc`).
pub fn path_is_excluded(file_path: &str, summary: &Vec<PathEntry>) -> (b: bool)
    ensures
        b == is_excluded(file_path@, summary@),
{
    let v = chars_of(file_path);
    let dir = match parent_components_of(&v) {
        Some(d) => d,
        None => return false,
    };
    let mut i: usize = 0;
    while i < summary.len()
        invariant
            i <= summary.len(),
            parent_components(file_path@) == Some(views(dir@)),
            forall|m: int| 0 <= m < i ==> !excluded_by(file_path@, #[trigger] summary@[m]),
        decreases summary.len() - i,
    {
        if summary[i].excluded {
            let pv = chars_of(summary[i].path.as_str());
            let stripped = strip_ellipsis_chars(&pv);
            let base = components_of(&stripped);
            if base.len() <= dir.len() {
                let mut k: usize = 0;
                let mut same = true;
                while k < base.len()
                    invariant
                        base.len() <= dir.len(),
                        k <= base.len(),
                        same == (forall|m: int| 0 <= m < k ==> base@[m]@ == dir@[m]@),
                    decreases base.len() - k,
                {
                    if !chars_eq(&base[k], &dir[k]) {
                        same = false;
                    }
                    k = k + 1;
                }
                proof {
                    let bv = views(base@);
                    let dv = views(dir@);
                    if same {
                        assert(dv.subrange(0, bv.len() as int) =~= bv);
                    } else {
                        let m = choose|m: int| 0 <= m < base.len() && base@[m]@ != dir@[m]@;
                        assert(dv.subrange(0, bv.len() as int)[m] != bv[m]);
                    }
                }
                if same {
                    return true;
                }
            }
        }
        i = i + 1;
    }
    false
}

/// Law: a summary has at most [`SUMMARY_TARGET`] entries unless the
/// directories were cut back by the most components allowed.
pub proof fn law_summary_small(files: Seq<(Seq<char>, usize)>)
    ensures
        summary_trim(files) <= MAX_TRIM,
        summary_trim(files) < MAX_TRIM ==> keys_of(files, summary_trim(files)).len() <= SUMMARY_TARGET,
{
    lemma_trim_from(files, 0);
}

proof fn lemma_trim_from(files: Seq<(Seq<char>, usize)>, t: nat)
    requires
        t <= MAX_TRIM,
    ensures
        t <= summary_trim_from(files, t) <= MAX_TRIM,
        summary_trim_from(files, t) < MAX_TRIM
            ==> keys_of(files, summary_trim_from(files, t)).len() <= SUMMARY_TARGET,
    decreases MAX_TRIM - t,
{
    if keys_of(files, t).len() <= SUMMARY_TARGET || t >= MAX_TRIM {
    } else {
        lemma_trim_from(files, t + 1);
    }
}

} // verus!
