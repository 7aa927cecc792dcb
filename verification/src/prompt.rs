//! Reading the generation prompt out of the text that AI image tools embed.
//!
//! AUTOMATIC1111 writes a plain-text `parameters` block: the positive prompt,
//! then optionally `Negative prompt:` and the negative one, then settings
//! lines (`Steps:`, `Model:`, `Sampler:` ...). This module cuts that block
//! apart.

use vstd::prelude::*;
use crate::text::{chars_of, string_of, trim_bounds, slice_chars, trim_chars, matches_at, find_chars, trim_start_spec, trim_spec, has_prefix, first_occurrence};

verus! {

pub open spec fn negative_marker() -> Seq<char> {
    seq!['N', 'e', 'g', 'a', 't', 'i', 'v', 'e', ' ', 'p', 'r', 'o', 'm', 'p', 't', ':']
}

pub open spec fn steps_marker() -> Seq<char> {
    seq!['S', 't', 'e', 'p', 's', ':']
}

pub open spec fn model_marker() -> Seq<char> {
    seq!['M', 'o', 'd', 'e', 'l', ':']
}

pub open spec fn sampler_marker() -> Seq<char> {
    seq!['S', 'a', 'm', 'p', 'l', 'e', 'r', ':']
}

/// Where the line that starts at `pos` ends: the first `'\n'` at or after
/// `pos`, or the end of `s`.
pub open spec fn next_newline(s: Seq<char>, pos: int) -> int
    decreases s.len() - pos,
{
    if pos < 0 || pos >= s.len() {
        s.len() as int
    } else if s[pos] == '\n' {
        pos
    } else {
        next_newline(s, pos + 1)
    }
}

/// The line that starts at `pos`, as `str::lines` yields it: without its
/// `'\n'`, and without a `'\r'` just before that `'\n'`.
pub open spec fn line_at(s: Seq<char>, pos: int) -> Seq<char> {
    let e = next_newline(s, pos);
    if e < s.len() && e > pos && s[e - 1] == '\r' {
        s.subrange(pos, e - 1)
    } else {
        s.subrange(pos, e)
    }
}

/// A settings line: once its leading white space is gone it starts with
/// `Steps:`, `Model:` or `Sampler:`.
pub open spec fn is_settings_line(line: Seq<char>) -> bool {
    let t = trim_start_spec(line);
    has_prefix(t, steps_marker()) || has_prefix(t, model_marker()) || has_prefix(t, sampler_marker())
}

/// Scanning the lines from `pos` on: where the first settings line starts.
pub open spec fn settings_line_from(s: Seq<char>, pos: int) -> Option<int>
    decreases s.len() - pos,
{
    if pos < 0 || pos >= s.len() {
        None
    } else if is_settings_line(line_at(s, pos)) {
        Some(pos)
    } else {
        let e = next_newline(s, pos);
        if e >= s.len() || e < pos {
            None
        } else {
            settings_line_from(s, e + 1)
        }
    }
}

/// Where the prompt text of `s` ends: where its first settings line starts,
/// or at the end of `s`.
pub open spec fn prompt_end(s: Seq<char>) -> int {
    match settings_line_from(s, 0) {
        Some(k) => k,
        None => s.len() as int,
    }
}

/// The prompt pair that the `parameters` text `p` holds, if any.
pub open spec fn a1111_prompt(p: Seq<char>) -> Option<(Seq<char>, Option<Seq<char>>)> {
    match first_occurrence(p, negative_marker()) {
        Some(k) => {
            let positive = trim_spec(p.subrange(0, k));
            let after = p.subrange(k + negative_marker().len(), p.len() as int);
            let negative = trim_spec(after.subrange(0, prompt_end(after)));
            if positive.len() == 0 {
                None
            } else {
                Some((positive, if negative.len() == 0 { None } else { Some(negative) }))
            }
        },
        None => {
            let positive = trim_spec(p.subrange(0, prompt_end(p)));
            if positive.len() == 0 { None } else { Some((positive, None)) }
        },
    }
}

/// The characters of a prompt pair.
pub open spec fn prompt_view(r: Option<(String, Option<String>)>) -> Option<(Seq<char>, Option<Seq<char>>)> {
    match r {
        Some((p, n)) => Some((p@, match n { Some(x) => Some(x@), None => None })),
        None => None,
    }
}

proof fn lemma_next_newline(s: Seq<char>, pos: int)
    requires
        0 <= pos <= s.len(),
    ensures
        pos <= next_newline(s, pos) <= s.len(),
        next_newline(s, pos) < s.len() ==> s[next_newline(s, pos)] == '\n',
        forall|k: int| pos <= k < next_newline(s, pos) ==> s[k] != '\n',
    decreases s.len() - pos,
{
    if pos < s.len() && s[pos] != '\n' {
        lemma_next_newline(s, pos + 1);
    }
}

fn newline_from(s: &Vec<char>, pos: usize) -> (e: usize)
    requires
        pos <= s.len(),
    ensures
        e == next_newline(s@, pos as int),
        pos <= e <= s.len(),
{
    let mut k = pos;
    while k < s.len()
        invariant
            pos <= k <= s.len(),
            next_newline(s@, pos as int) == next_newline(s@, k as int),
        decreases s.len() - k,
    {
        if s[k] == '\n' {
            return k;
        }
        k = k + 1;
    }
    k
}

fn marker(lit: &str, m: Ghost<Seq<char>>) -> (v: Vec<char>)
    requires
        lit@ == m@,
    ensures
        v@ == m@,
{
    chars_of(lit)
}

fn settings_line_chars(line: &Vec<char>) -> (b: bool)
    ensures
        b == is_settings_line(line@),
{
    let (start, _end) = trim_bounds(line);
    let t = slice_chars(line, start, line.len());
    proof { assert(t@ =~= trim_start_spec(line@)); }
    proof {
        reveal_strlit("Steps:");
        reveal_strlit("Model:");
        reveal_strlit("Sampler:");
        assert("Steps:"@ =~= steps_marker());
        assert("Model:"@ =~= model_marker());
        assert("Sampler:"@ =~= sampler_marker());
    }
    let steps = marker("Steps:", Ghost(steps_marker()));
    let model = marker("Model:", Ghost(model_marker()));
    let sampler = marker("Sampler:", Ghost(sampler_marker()));
    matches_at(&t, &steps, 0) || matches_at(&t, &model, 0) || matches_at(&t, &sampler, 0)
}

/// Where the prompt text of `s` ends (see [`prompt_end`]).
pub fn prompt_end_of(s: &Vec<char>) -> (r: usize)
    ensures
        r == prompt_end(s@),
        r <= s.len(),
{
    let mut pos: usize = 0;
    while pos < s.len()
        invariant
            pos <= s.len(),
            settings_line_from(s@, 0) == settings_line_from(s@, pos as int),
        decreases s.len() - pos,
    {
        let e = newline_from(s, pos);
        let line_end = if e < s.len() && e > pos && s[e - 1] == '\r' { e - 1 } else { e };
        let line = slice_chars(s, pos, line_end);
        proof { assert(line@ == line_at(s@, pos as int)); }
        if settings_line_chars(&line) {
            return pos;
        }
        if e >= s.len() {
            return s.len();
        }
        pos = e + 1;
    }
    s.len()
}

/// Positive (and optional negative) prompt of an AUTOMATIC1111 `parameters`
/// text block.
pub fn extract_a1111_prompt(params: &str) -> (r: Option<(String, Option<String>)>)
    ensures
        prompt_view(r) == a1111_prompt(params@),
{
    let p = chars_of(params);
    proof {
        reveal_strlit("Negative prompt:");
        assert("Negative prompt:"@ =~= negative_marker());
    }
    let neg = marker("Negative prompt:", Ghost(negative_marker()));
    match find_chars(&p, &neg) {
        Some(k) => {
            let head = slice_chars(&p, 0, k);
            let positive = trim_chars(&head);
            let after = slice_chars(&p, k + neg.len(), p.len());
            let cut = prompt_end_of(&after);
            let neg_part = slice_chars(&after, 0, cut);
            let negative = trim_chars(&neg_part);
            if positive.len() == 0 {
                return None;
            }
            let n = if negative.len() == 0 { None } else { Some(string_of(negative.as_slice())) };
            Some((string_of(positive.as_slice()), n))
        },
        None => {
            let cut = prompt_end_of(&p);
            let head = slice_chars(&p, 0, cut);
            let positive = trim_chars(&head);
            if positive.len() == 0 {
                None
            } else {
                Some((string_of(positive.as_slice()), None))
            }
        },
    }
}

} // verus!
