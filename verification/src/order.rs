//! Orderings used when listing files: strings by code point (which is the
//! byte order of their UTF-8 form, `str`'s `Ord`), and a stable sort of
//! positions by key.

use vstd::prelude::*;

verus! {

/// `a < b` in the order of `str` (character by character, by code point).
pub open spec fn lex_lt(a: Seq<char>, b: Seq<char>) -> bool
    decreases a.len(),
{
    if a.len() == 0 {
        b.len() > 0
    } else if b.len() == 0 {
        false
    } else if (a[0] as u32) < (b[0] as u32) {
        true
    } else if a[0] == b[0] {
        lex_lt(a.drop_first(), b.drop_first())
    } else {
        false
    }
}

proof fn lemma_char_u32(a: char, b: char)
    ensures
        (a as u32) == (b as u32) <==> a == b,
{
    vstd::utf8::char_u32_cast(a, a as u32);
    vstd::utf8::char_u32_cast(b, b as u32);
}

pub proof fn lemma_lex_total(a: Seq<char>, b: Seq<char>)
    ensures
        lex_lt(a, b) || a == b || lex_lt(b, a),
        !(lex_lt(a, b) && lex_lt(b, a)),
        !lex_lt(a, a),
    decreases a.len(),
{
    if a.len() > 0 && b.len() > 0 {
        lemma_char_u32(a[0], b[0]);
        lemma_lex_total(a.drop_first(), b.drop_first());
        if a[0] == b[0] && a.drop_first() == b.drop_first() {
            assert(a =~= seq![a[0]] + a.drop_first());
            assert(b =~= seq![b[0]] + b.drop_first());
        }
    } else if a.len() == 0 && b.len() == 0 {
        assert(a =~= b);
    }
    if a.len() > 0 {
        lemma_lex_total(a.drop_first(), a.drop_first());
    }
}

pub proof fn lemma_lex_trans(a: Seq<char>, b: Seq<char>, c: Seq<char>)
    requires
        lex_lt(a, b),
        lex_lt(b, c),
    ensures
        lex_lt(a, c),
    decreases a.len(),
{
    if a.len() > 0 && b.len() > 0 && c.len() > 0 {
        lemma_char_u32(a[0], b[0]);
        lemma_char_u32(b[0], c[0]);
        lemma_char_u32(a[0], c[0]);
        if a[0] == b[0] && b[0] == c[0] {
            lemma_lex_trans(a.drop_first(), b.drop_first(), c.drop_first());
        }
    }
}

/// `a < b` in `str` order.
pub fn lex_less(a: &Vec<char>, b: &Vec<char>) -> (r: bool)
    ensures
        r == lex_lt(a@, b@),
{
    let mut i: usize = 0;
    proof {
        assert(a@.skip(0) =~= a@);
        assert(b@.skip(0) =~= b@);
    }
    while i < a.len() && i < b.len()
        invariant
            i <= a.len(),
            i <= b.len(),
            lex_lt(a@, b@) == lex_lt(a@.skip(i as int), b@.skip(i as int)),
        decreases a.len() - i,
    {
        let x = a[i];
        let y = b[i];
        proof {
            assert(a@.skip(i as int)[0] == x);
            assert(b@.skip(i as int)[0] == y);
            assert(a@.skip(i as int).drop_first() =~= a@.skip(i + 1));
            assert(b@.skip(i as int).drop_first() =~= b@.skip(i + 1));
            lemma_char_u32(x, y);
        }
        if (x as u32) < (y as u32) {
            return true;
        }
        if x != y {
            return false;
        }
        i = i + 1;
    }
    proof {
        if i == a.len() {
            assert(a@.skip(i as int).len() == 0);
        } else {
            assert(b@.skip(i as int).len() == 0);
            assert(a@.skip(i as int).len() > 0);
        }
    }
    i == a.len() && i < b.len()
}

/// Keys by which positions are sorted: file names, or integers.
pub enum SortKeys {
    Names(Vec<Vec<char>>),
    Numbers(Vec<i128>),
}

impl SortKeys {
    pub open spec fn len_spec(&self) -> nat {
        match self {
            SortKeys::Names(v) => v@.len(),
            SortKeys::Numbers(v) => v@.len(),
        }
    }

    /// The key at `i` is smaller than the key at `j`.
    pub open spec fn key_lt(&self, i: int, j: int) -> bool {
        match self {
            SortKeys::Names(v) => lex_lt(v@[i]@, v@[j]@),
            SortKeys::Numbers(v) => v@[i] < v@[j],
        }
    }

    /// The keys at `i` and `j` are equal.
    pub open spec fn key_eq(&self, i: int, j: int) -> bool {
        match self {
            SortKeys::Names(v) => v@[i]@ == v@[j]@,
            SortKeys::Numbers(v) => v@[i] == v@[j],
        }
    }

    /// Position `i` comes before position `j` in a stable sort by key.
    pub open spec fn before(&self, i: int, j: int) -> bool {
        self.key_lt(i, j) || (self.key_eq(i, j) && i < j)
    }

    pub fn len(&self) -> (n: usize)
        ensures
            n == self.len_spec(),
    {
        match self {
            SortKeys::Names(v) => v.len(),
            SortKeys::Numbers(v) => v.len(),
        }
    }

    fn greater(&self, i: usize, j: usize) -> (r: bool)
        requires
            i < self.len_spec(),
            j < self.len_spec(),
        ensures
            r == self.key_lt(j as int, i as int),
    {
        match self {
            SortKeys::Names(v) => lex_less(&v[j], &v[i]),
            SortKeys::Numbers(v) => v[j] < v[i],
        }
    }

    proof fn lemma_keys(&self, i: int, j: int, k: int)
        requires
            0 <= i < self.len_spec(),
            0 <= j < self.len_spec(),
            0 <= k < self.len_spec(),
        ensures
            self.key_lt(i, j) || self.key_eq(i, j) || self.key_lt(j, i),
            !(self.key_lt(i, j) && self.key_lt(j, i)),
            !(self.key_lt(i, j) && self.key_eq(i, j)),
            self.key_eq(i, j) == self.key_eq(j, i),
            self.key_lt(i, j) && self.key_lt(j, k) ==> self.key_lt(i, k),
            self.key_lt(i, j) && self.key_eq(j, k) ==> self.key_lt(i, k),
            self.key_eq(i, j) && self.key_lt(j, k) ==> self.key_lt(i, k),
            self.key_eq(i, j) && self.key_eq(j, k) ==> self.key_eq(i, k),
    {
        match self {
            SortKeys::Names(v) => {
                lemma_lex_total(v@[i]@, v@[j]@);
                lemma_lex_total(v@[i]@, v@[i]@);
                if lex_lt(v@[i]@, v@[j]@) && lex_lt(v@[j]@, v@[k]@) {
                    lemma_lex_trans(v@[i]@, v@[j]@, v@[k]@);
                }
            },
            SortKeys::Numbers(v) => {},
        }
    }
}

/// `p` lists every position below `n` exactly once.
pub open spec fn is_permutation(p: Seq<usize>, n: nat) -> bool {
    &&& p.len() == n
    &&& forall|i: int| 0 <= i < p.len() ==> (#[trigger] p[i]) < n
    &&& forall|i: int, j: int| 0 <= i < j < p.len() ==> p[i] != p[j]
}

/// `p` is in stable key order.
pub open spec fn is_stably_sorted(keys: SortKeys, p: Seq<usize>) -> bool {
    forall|i: int, j: int| 0 <= i < j < p.len() ==> keys.before(p[i] as int, p[j] as int)
}

/// The order in which a stable sort by `keys` places positions `0..n`.
pub fn stable_order(keys: &SortKeys) -> (p: Vec<usize>)
    ensures
        is_permutation(p@, keys.len_spec()),
        is_stably_sorted(*keys, p@),
        forall|k: usize| k < keys.len_spec() ==> p@.contains(k),
{
    let n = keys.len();
    let mut p: Vec<usize> = Vec::new();
    let mut i: usize = 0;
    while i < n
        invariant
            n == keys.len_spec(),
            i <= n,
            p@.len() == i,
            forall|k: int| 0 <= k < p@.len() ==> (#[trigger] p@[k]) < i,
            forall|a: int, b: int| 0 <= a < b < p@.len() ==> p@[a] != p@[b],
            is_stably_sorted(*keys, p@),
            forall|k: usize| k < i ==> p@.contains(k),
        decreases n - i,
    {
        // Find the first slot whose key is greater than the key of `i`.
        let mut pos: usize = 0;
        while pos < p.len()
            invariant
                n == keys.len_spec(),
                i < n,
                pos <= p@.len(),
                forall|k: int| 0 <= k < p@.len() ==> (#[trigger] p@[k]) < i,
                forall|k: int| 0 <= k < pos ==> !keys.key_lt(i as int, #[trigger] p@[k] as int),
            ensures
                pos <= p@.len(),
                forall|k: int| 0 <= k < pos ==> !keys.key_lt(i as int, #[trigger] p@[k] as int),
                pos < p@.len() ==> keys.key_lt(i as int, p@[pos as int] as int),
            decreases p@.len() - pos,
        {
            if keys.greater(p[pos], i) {
                break;
            }
            pos = pos + 1;
        }
        proof {
            // Every later slot also holds a greater key.
            assert forall|k: int| pos <= k < p@.len() implies keys.key_lt(i as int, #[trigger] p@[k] as int) by {
                keys.lemma_keys(i as int, p@[pos as int] as int, p@[k] as int);
                if k > pos {
                    assert(keys.before(p@[pos as int] as int, p@[k] as int));
                    keys.lemma_keys(p@[pos as int] as int, p@[k] as int, i as int);
                }
            }
        }
        let ghost old_p = p@;
        p.insert(pos, i);
        proof {
            assert(p@ =~= old_p.subrange(0, pos as int).push(i) + old_p.subrange(pos as int, old_p.len() as int));
            assert forall|a: int, b: int| 0 <= a < b < p@.len() implies keys.before(p@[a] as int, p@[b] as int) by {
                if a < pos && b < pos {
                    assert(p@[a] == old_p[a] && p@[b] == old_p[b]);
                } else if a < pos && b == pos {
                    keys.lemma_keys(old_p[a] as int, i as int, i as int);
                } else if a < pos && b > pos {
                    assert(p@[a] == old_p[a] && p@[b] == old_p[b - 1]);
                } else if a == pos {
                    assert(p@[b] == old_p[b - 1]);
                } else {
                    assert(p@[a] == old_p[a - 1] && p@[b] == old_p[b - 1]);
                }
            }
            assert(p@[pos as int] == i);
            assert forall|k: usize| k < i + 1 implies p@.contains(k) by {
                if k < i {
                    assert(old_p.contains(k));
                    let w = choose|w: int| 0 <= w < old_p.len() && old_p[w] == k;
                    if w < pos { assert(p@[w] == k); } else { assert(p@[w + 1] == k); }
                }
            }
            assert forall|k: int| 0 <= k < p@.len() implies (#[trigger] p@[k]) < i + 1 by {
                if k < pos { assert(p@[k] == old_p[k]); } else if k > pos { assert(p@[k] == old_p[k - 1]); }
            }
            assert forall|a: int, b: int| 0 <= a < b < p@.len() implies p@[a] != p@[b] by {
                if a < pos && b < pos {
                } else if a < pos && b == pos {
                    assert(p@[a] == old_p[a]);
                } else if a < pos && b > pos {
                    assert(p@[a] == old_p[a] && p@[b] == old_p[b - 1]);
                } else if a == pos {
                    assert(p@[b] == old_p[b - 1]);
                } else {
                    assert(p@[a] == old_p[a - 1] && p@[b] == old_p[b - 1]);
                }
            }
        }
        i = i + 1;
    }
    p
}

} // verus!
