//! Paths as the library sees them: `/`-separated strings, read component by
//! component the way `std::path::Path::components` reads a Unix path.
//!
//! Repeated separators and `.` pieces are skipped (a leading `.` is kept),
//! a leading `/` is the root component, and joining components back together
//! follows `PathBuf::push`.

use vstd::prelude::*;
use crate::text::{copy_chars, push_all};

verus! {

/// The pieces of `s` between `/` separators, empty pieces included.
pub open spec fn pieces(s: Seq<char>) -> Seq<Seq<char>>
    decreases s.len(),
{
    if s.len() == 0 {
        seq![Seq::<char>::empty()]
    } else {
        let p = pieces(s.drop_last());
        if s.last() == '/' {
            p.push(Seq::<char>::empty())
        } else {
            p.update(p.len() - 1, p.last().push(s.last()))
        }
    }
}

pub proof fn lemma_pieces_len(s: Seq<char>)
    ensures
        pieces(s).len() >= 1,
    decreases s.len(),
{
    if s.len() > 0 {
        lemma_pieces_len(s.drop_last());
    }
}

/// `true` for the pieces that become no component: empty ones and `.`.
pub open spec fn is_skipped_piece(p: Seq<char>) -> bool {
    p.len() == 0 || p == seq!['.']
}

/// The pieces that name components (not empty, not `.`), in order.
pub open spec fn kept_pieces(ps: Seq<Seq<char>>) -> Seq<Seq<char>>
    decreases ps.len(),
{
    if ps.len() == 0 {
        Seq::empty()
    } else {
        let r = kept_pieces(ps.drop_last());
        if is_skipped_piece(ps.last()) { r } else { r.push(ps.last()) }
    }
}

/// The component that a path starts with before its named pieces: the root
/// `/`, a leading `.`, or none.
pub open spec fn head_components(s: Seq<char>) -> Seq<Seq<char>> {
    if s.len() > 0 && s[0] == '/' {
        seq![seq!['/']]
    } else if pieces(s)[0] == seq!['.'] {
        seq![seq!['.']]
    } else {
        Seq::empty()
    }
}

/// `Path::components` of `s`, each component as its string.
pub open spec fn components(s: Seq<char>) -> Seq<Seq<char>> {
    head_components(s) + kept_pieces(pieces(s))
}

/// A component that names an entry (what `Path::file_name` can return).
pub open spec fn is_name(c: Seq<char>) -> bool {
    c != seq!['/'] && c != seq!['.'] && c != seq!['.', '.']
}

/// `PathBuf::push` of one component onto the string `a`.
pub open spec fn push_component(a: Seq<char>, c: Seq<char>) -> Seq<char> {
    if c.len() > 0 && c[0] == '/' {
        c
    } else if a.len() == 0 || a.last() == '/' {
        a + c
    } else {
        a.push('/') + c
    }
}

/// The string of the path built by pushing `cs` in order onto an empty `PathBuf`.
pub open spec fn join_components(cs: Seq<Seq<char>>) -> Seq<char>
    decreases cs.len(),
{
    if cs.len() == 0 {
        Seq::empty()
    } else {
        push_component(join_components(cs.drop_last()), cs.last())
    }
}

/// `Path::file_name`: the last component when it names an entry.
pub open spec fn file_name_spec(s: Seq<char>) -> Option<Seq<char>> {
    let cs = components(s);
    if cs.len() > 0 && is_name(cs.last()) {
        Some(cs.last())
    } else {
        None
    }
}

/// The components of `Path::parent`, when there is a parent: all components
/// but the last, unless the path is empty or ends in its root.
pub open spec fn parent_components(s: Seq<char>) -> Option<Seq<Seq<char>>> {
    let cs = components(s);
    if cs.len() > 0 && cs.last() != seq!['/'] {
        Some(cs.drop_last())
    } else {
        None
    }
}

/// The string of the parent of `s` (`Path::parent`, displayed).
pub open spec fn parent_spec(s: Seq<char>) -> Option<Seq<char>> {
    match parent_components(s) {
        Some(cs) => Some(join_components(cs)),
        None => None,
    }
}

/// `Path::starts_with`: whole components only.
pub open spec fn starts_with_spec(s: Seq<char>, base: Seq<char>) -> bool {
    components(base).len() <= components(s).len()
        && components(s).subrange(0, components(base).len() as int) == components(base)
}

/// Path equality (`PathBuf == PathBuf` compares components).
pub open spec fn same_path(a: Seq<char>, b: Seq<char>) -> bool {
    components(a) == components(b)
}

/// Views of a vector of character vectors.
pub open spec fn views(v: Seq<Vec<char>>) -> Seq<Seq<char>> {
    Seq::new(v.len(), |i: int| v[i]@)
}

fn is_dot(p: &Vec<char>) -> (b: bool)
    ensures
        b == (p@ == seq!['.']),
{
    if p.len() == 1 && p[0] == '.' {
        assert(p@ =~= seq!['.']);
        true
    } else {
        if p.len() == 1 {
            assert(p@[0] != seq!['.'][0]);
        }
        false
    }
}

/// The components of `v`, each as its characters.
pub fn components_of(v: &Vec<char>) -> (r: Vec<Vec<char>>)
    ensures
        views(r@) == components(v@),
{
    let mut done: Vec<Vec<char>> = Vec::new();
    let mut cur: Vec<char> = Vec::new();
    let mut first: Option<Vec<char>> = None;
    let ghost mut all: Seq<Seq<char>> = Seq::empty();
    let mut i: usize = 0;
    while i < v.len()
        invariant
            i <= v.len(),
            pieces(v@.take(i as int)) == all.push(cur@),
            views(done@) == kept_pieces(all),
            first matches Some(f) ==> all.len() > 0 && f@ == all[0],
            first is None ==> all.len() == 0,
        decreases v.len() - i,
    {
        let c = v[i];
        proof {
            assert(v@.take(i + 1).drop_last() =~= v@.take(i as int));
            assert(v@.take(i + 1).last() == c);
        }
        if c == '/' {
            let ghost old_all = all;
            proof { all = all.push(cur@); }
            if first.is_none() {
                first = Some(copy_chars(&cur));
            }
            if !(cur.len() == 0 || is_dot(&cur)) {
                done.push(cur);
                proof { assert(views(done@) =~= kept_pieces(old_all).push(all.last())); }
            } else {
                proof { assert(all.drop_last() =~= old_all); assert(is_skipped_piece(all.last())); assert(kept_pieces(all) == kept_pieces(old_all)); }
            }
            cur = Vec::new();
            proof {
                assert(all.drop_last() =~= old_all);
                assert(pieces(v@.take(i + 1)) =~= all.push(cur@));
            }
        } else {
            cur.push(c);
            proof {
                assert(pieces(v@.take(i + 1)) =~= all.push(cur@));
            }
        }
        i = i + 1;
    }
    proof { assert(v@.take(v.len() as int) =~= v@); }
    let ghost full = all.push(cur@);
    let first_piece = match first {
        Some(f) => f,
        None => copy_chars(&cur),
    };
    assert(first_piece@ == full[0]);
    if !(cur.len() == 0 || is_dot(&cur)) {
        done.push(cur);
        proof { assert(full.drop_last() =~= all); assert(views(done@) =~= kept_pieces(full)); }
    } else {
        proof { assert(full.drop_last() =~= all); }
    }
    assert(views(done@) == kept_pieces(pieces(v@)));
    let starts_root = v.len() > 0 && v[0] == '/';
    if starts_root || is_dot(&first_piece) {
        let mut h: Vec<char> = Vec::new();
        h.push(if starts_root { '/' } else { '.' });
        let mut r: Vec<Vec<char>> = Vec::new();
        proof {
            assert(full == pieces(v@));
            assert(head_components(v@) =~= seq![h@]);
        }
        r.push(h);
        proof { assert(views(r@) =~= head_components(v@) + views(done@).take(0)); }
        let mut j: usize = 0;
        while j < done.len()
            invariant
                j <= done.len(),
                r@.len() == j + 1,
                views(r@) == head_components(v@) + views(done@).take(j as int),
            decreases done.len() - j,
        {
            let ghost old_r = r@;
            r.push(copy_chars(&done[j]));
            proof {
                assert(views(done@).take(j + 1) =~= views(done@).take(j as int).push(done@[j as int]@));
                assert(views(r@) =~= views(old_r).push(done@[j as int]@));
            }
            j = j + 1;
        }
        proof {
            assert(views(done@).take(done.len() as int) =~= views(done@));
        }
        r
    } else {
        proof { assert(views(done@) =~= head_components(v@) + views(done@)); }
        done
    }
}


/// `a == b` on character vectors.
pub fn chars_eq(a: &Vec<char>, b: &Vec<char>) -> (r: bool)
    ensures
        r == (a@ == b@),
{
    if a.len() != b.len() {
        return false;
    }
    let mut i: usize = 0;
    while i < a.len()
        invariant
            a.len() == b.len(),
            i <= a.len(),
            forall|k: int| 0 <= k < i ==> a@[k] == b@[k],
        decreases a.len() - i,
    {
        if a[i] != b[i] {
            return false;
        }
        i = i + 1;
    }
    proof { assert(a@ =~= b@); }
    true
}

/// `true` when the first `n` components of `a` and `b` agree.
fn components_prefix_eq(a: &Vec<Vec<char>>, b: &Vec<Vec<char>>, n: usize) -> (r: bool)
    requires
        n <= a.len(),
        n <= b.len(),
    ensures
        r == (views(a@).take(n as int) == views(b@).take(n as int)),
{
    let mut i: usize = 0;
    while i < n
        invariant
            n <= a.len(),
            n <= b.len(),
            i <= n,
            forall|k: int| 0 <= k < i ==> a@[k]@ == b@[k]@,
        decreases n - i,
    {
        if !chars_eq(&a[i], &b[i]) {
            proof { assert(views(a@).take(n as int)[i as int] != views(b@).take(n as int)[i as int]); }
            return false;
        }
        i = i + 1;
    }
    proof { assert(views(a@).take(n as int) =~= views(b@).take(n as int)); }
    true
}

/// Path equality, component by component.
pub fn same_path_chars(a: &Vec<char>, b: &Vec<char>) -> (r: bool)
    ensures
        r == same_path(a@, b@),
{
    let ca = components_of(a);
    let cb = components_of(b);
    if ca.len() != cb.len() {
        return false;
    }
    let r = components_prefix_eq(&ca, &cb, ca.len());
    proof {
        assert(views(ca@).take(ca.len() as int) =~= views(ca@));
        assert(views(cb@).take(cb.len() as int) =~= views(cb@));
    }
    r
}

/// `Path::starts_with`.
pub fn starts_with_chars(s: &Vec<char>, base: &Vec<char>) -> (r: bool)
    ensures
        r == starts_with_spec(s@, base@),
{
    let cs = components_of(s);
    let cb = components_of(base);
    if cb.len() > cs.len() {
        return false;
    }
    let r = components_prefix_eq(&cs, &cb, cb.len());
    proof {
        assert(views(cb@).take(cb.len() as int) =~= views(cb@));
        assert(views(cs@).take(cb.len() as int) =~= views(cs@).subrange(0, cb.len() as int));
    }
    r
}

/// The string of the path made of the first `n` components of `cs`.
pub fn join_prefix(cs: &Vec<Vec<char>>, n: usize) -> (r: Vec<char>)
    requires
        n <= cs.len(),
    ensures
        r@ == join_components(views(cs@).take(n as int)),
{
    let mut acc: Vec<char> = Vec::new();
    let mut i: usize = 0;
    proof { assert(views(cs@).take(0) =~= Seq::<Seq<char>>::empty()); }
    while i < n
        invariant
            n <= cs.len(),
            i <= n,
            acc@ == join_components(views(cs@).take(i as int)),
        decreases n - i,
    {
        let c = &cs[i];
        let ghost before = acc@;
        if c.len() > 0 && c[0] == '/' {
            acc = copy_chars(c);
        } else if acc.len() == 0 || acc[acc.len() - 1] == '/' {
            push_all(&mut acc, c);
        } else {
            acc.push('/');
            push_all(&mut acc, c);
        }
        proof {
            let t = views(cs@).take(i + 1);
            assert(t.drop_last() =~= views(cs@).take(i as int));
            assert(t.last() == c@);
            assert(acc@ =~= push_component(before, c@));
        }
        i = i + 1;
    }
    acc
}

/// The string of the path made of all of `cs`.
pub fn join_all(cs: &Vec<Vec<char>>) -> (r: Vec<char>)
    ensures
        r@ == join_components(views(cs@)),
{
    let r = join_prefix(cs, cs.len());
    proof { assert(views(cs@).take(cs.len() as int) =~= views(cs@)); }
    r
}

fn is_name_component(c: &Vec<char>) -> (b: bool)
    ensures
        b == is_name(c@),
{
    let root = c.len() == 1 && c[0] == '/';
    let dot = c.len() == 1 && c[0] == '.';
    let dotdot = c.len() == 2 && c[0] == '.' && c[1] == '.';
    proof {
        if c.len() == 1 {
            assert(root == (c@ == seq!['/'])) by {
                if c@ == seq!['/'] { assert(c@[0] == '/'); }
                if root { assert(c@ =~= seq!['/']); }
            }
            assert(dot == (c@ == seq!['.'])) by {
                if c@ == seq!['.'] { assert(c@[0] == '.'); }
                if dot { assert(c@ =~= seq!['.']); }
            }
        } else {
            assert(c@.len() != seq!['/'].len());
        }
        if c.len() == 2 {
            assert(dotdot == (c@ == seq!['.', '.'])) by {
                if c@ == seq!['.', '.'] { assert(c@[0] == '.' && c@[1] == '.'); }
                if dotdot { assert(c@ =~= seq!['.', '.']); }
            }
        } else {
            assert(c@.len() != seq!['.', '.'].len());
        }
    }
    !root && !dot && !dotdot
}

/// `Path::file_name`.
pub fn file_name_chars(s: &Vec<char>) -> (r: Option<Vec<char>>)
    ensures
        match r {
            Some(n) => file_name_spec(s@) == Some(n@),
            None => file_name_spec(s@) is None,
        },
{
    let mut cs = components_of(s);
    if cs.len() > 0 && is_name_component(&cs[cs.len() - 1]) {
        let n = copy_chars(&cs[cs.len() - 1]);
        Some(n)
    } else {
        None
    }
}

/// The components of `Path::parent`.
pub fn parent_components_of(s: &Vec<char>) -> (r: Option<Vec<Vec<char>>>)
    ensures
        match r {
            Some(cs) => parent_components(s@) == Some(views(cs@)),
            None => parent_components(s@) is None,
        },
{
    let mut cs = components_of(s);
    let n = cs.len();
    if n > 0 {
        let last = &cs[n - 1];
        let is_root = last.len() == 1 && last[0] == '/';
        proof {
            if last@ == seq!['/'] { assert(last@[0] == '/'); }
            if is_root { assert(last@ =~= seq!['/']); }
        }
        if !is_root {
            let ghost before = views(cs@);
            cs.pop();
            proof { assert(views(cs@) =~= before.drop_last()); }
            return Some(cs);
        }
    }
    None
}

/// `Path::parent`, as the string of the parent path.
pub fn parent_chars(s: &Vec<char>) -> (r: Option<Vec<char>>)
    ensures
        match r {
            Some(p) => parent_spec(s@) == Some(p@),
            None => parent_spec(s@) is None,
        },
{
    match parent_components_of(s) {
        Some(cs) => Some(join_all(&cs)),
        None => None,
    }
}

/// `dir.join(name)` (`PathBuf::push` of `name` onto `dir`).
pub fn join_path(dir: &str, name: &str) -> (r: String)
    ensures
        r@ == push_component(dir@, name@),
{
    let d = crate::text::chars_of(dir);
    let n = crate::text::chars_of(name);
    let mut acc: Vec<char>;
    if n.len() > 0 && n[0] == '/' {
        acc = copy_chars(&n);
    } else if d.len() == 0 || d[d.len() - 1] == '/' {
        acc = copy_chars(&d);
        push_all(&mut acc, &n);
    } else {
        acc = copy_chars(&d);
        acc.push('/');
        push_all(&mut acc, &n);
    }
    crate::text::string_of(acc.as_slice())
}

pub proof fn lemma_same_path_sym(a: Seq<char>, b: Seq<char>)
    ensures
        same_path(a, b) == same_path(b, a),
{
}

pub proof fn lemma_same_path_refl(a: Seq<char>)
    ensures
        same_path(a, a),
{
}

} // verus!
