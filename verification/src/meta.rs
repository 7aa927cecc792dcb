//! Metadata entries shown in the info panel, and the prompts that AI image
//! tools leave in them.

use vstd::prelude::*;
use crate::text::{chars_of, string_of, lowercase, lowercase_of, trim_chars, trim_spec, trim_start_spec,
    contains_chars, contains_seq, push_all, copy_chars, has_prefix, matches_at, trim_bounds, slice_chars};
use crate::paths::chars_eq;
use crate::formats::{SupportedFormat, guessed_format_of, guessed_format, is_raw_extension, is_raw_extension_spec};
use crate::prompt::{extract_a1111_prompt, a1111_prompt, prompt_view};

verus! {

/// A single key/value metadata entry.
pub struct MetaEntry {
    pub key: String,
    /// Raw value string, potentially very long (ComfyUI JSON can be MBs).
    pub value: String,
    /// If true, this entry acts as a category header.
    pub is_header: bool,
}

/// The characters of an entry: key, value, header flag.
pub open spec fn entry_view(e: MetaEntry) -> (Seq<char>, Seq<char>, bool) {
    (e.key@, e.value@, e.is_header)
}

pub open spec fn entries_view(es: Seq<MetaEntry>) -> Seq<(Seq<char>, Seq<char>, bool)> {
    es.map_values(|e: MetaEntry| entry_view(e))
}

impl MetaEntry {
    pub fn duplicate(&self) -> (r: MetaEntry)
        ensures
            entry_view(r) == entry_view(*self),
    {
        MetaEntry { key: self.key.clone(), value: self.value.clone(), is_header: self.is_header }
    }
}

// ---------------------------------------------------------------------------
// ComfyUI node graphs
// ---------------------------------------------------------------------------

/// One node of a ComfyUI `prompt` graph, reduced to the strings that the
/// prompt search reads: `class_type`, `inputs.text` and `_meta.title`, each
/// present when the JSON holds a string there.
pub struct GraphNode {
    pub class_type: Option<String>,
    pub text: Option<String>,
    pub title: Option<String>,
}

pub open spec fn opt_chars(o: Option<String>) -> Option<Seq<char>> {
    match o {
        Some(s) => Some(s@),
        None => None,
    }
}

pub open spec fn node_view(n: GraphNode) -> (Option<Seq<char>>, Option<Seq<char>>, Option<Seq<char>>) {
    (opt_chars(n.class_type), opt_chars(n.text), opt_chars(n.title))
}

pub open spec fn nodes_view(v: Seq<GraphNode>) -> Seq<(Option<Seq<char>>, Option<Seq<char>>, Option<Seq<char>>)> {
    v.map_values(|n: GraphNode| node_view(n))
}

/// The nodes that `serde_json` reads from `json` when it is a JSON object,
/// in the order in which its map is walked (sorted by key); `None` when the
/// text is no JSON object.
pub uninterp spec fn json_graph_nodes(json: Seq<char>)
    -> Option<Seq<(Option<Seq<char>>, Option<Seq<char>>, Option<Seq<char>>)>>;

/// `serde_json::from_str::<Value>` followed by `Value::as_object` and, for
/// each node, `Value::get` / `Value::as_str` on the three fields read.
/// Trusted: the result is named by [`json_graph_nodes`], a function of the
/// text alone; nothing more is claimed of it.
#[verifier::external_body]
fn graph_nodes(json: &str) -> (r: Option<Vec<GraphNode>>)
    ensures
        match r {
            Some(v) => json_graph_nodes(json@) == Some(nodes_view(v@)),
            None => json_graph_nodes(json@) is None,
        },
{
    let val: serde_json::Value = serde_json::from_str(json).ok()?;
    let obj = val.as_object()?;
    Some(obj.values().map(|n| GraphNode {
        class_type: n.get("class_type").and_then(|v| v.as_str()).map(String::from),
        text: n.get("inputs").and_then(|i| i.get("text")).and_then(|t| t.as_str()).map(String::from),
        title: n.get("_meta").and_then(|m| m.get("title")).and_then(|t| t.as_str()).map(String::from),
    }).collect())
}

pub open spec fn clip_text_encode() -> Seq<char> {
    seq!['C', 'L', 'I', 'P', 'T', 'e', 'x', 't', 'E', 'n', 'c', 'o', 'd', 'e']
}

pub open spec fn negative_word() -> Seq<char> {
    seq!['n', 'e', 'g', 'a', 't', 'i', 'v', 'e']
}

pub open spec fn paragraph_break() -> Seq<char> {
    seq!['\n', '\n']
}

/// The trimmed text of a node (empty when it has none).
pub open spec fn node_text(n: (Option<Seq<char>>, Option<Seq<char>>, Option<Seq<char>>)) -> Seq<char> {
    match n.1 {
        Some(t) => trim_spec(t),
        None => Seq::empty(),
    }
}

/// A `CLIPTextEncode` node with non-empty text.
pub open spec fn is_prompt_node(n: (Option<Seq<char>>, Option<Seq<char>>, Option<Seq<char>>)) -> bool {
    n.0 == Some(clip_text_encode()) && node_text(n).len() > 0
}

/// A node whose lower-cased title mentions "negative".
pub open spec fn is_negative_node(n: (Option<Seq<char>>, Option<Seq<char>>, Option<Seq<char>>)) -> bool {
    match n.2 {
        Some(t) => contains_seq(lowercase_of(t), negative_word()),
        None => false,
    }
}

/// The texts of the prompt nodes of one polarity, in graph order.
pub open spec fn graph_texts(nodes: Seq<(Option<Seq<char>>, Option<Seq<char>>, Option<Seq<char>>)>, negative: bool)
    -> Seq<Seq<char>>
    decreases nodes.len(),
{
    if nodes.len() == 0 {
        Seq::empty()
    } else {
        let rest = graph_texts(nodes.drop_last(), negative);
        let n = nodes.last();
        if is_prompt_node(n) && is_negative_node(n) == negative { rest.push(node_text(n)) } else { rest }
    }
}

/// `parts` joined with `sep` between them (`[String]::join`).
pub open spec fn join_parts(parts: Seq<Seq<char>>, sep: Seq<char>) -> Seq<char>
    decreases parts.len(),
{
    if parts.len() == 0 {
        Seq::empty()
    } else if parts.len() == 1 {
        parts[0]
    } else {
        join_parts(parts.drop_last(), sep) + sep + parts.last()
    }
}

/// The prompt pair of a node graph: the positive texts, and the negative
/// ones if there are any, each joined by blank lines.
pub open spec fn graph_prompt(nodes: Seq<(Option<Seq<char>>, Option<Seq<char>>, Option<Seq<char>>)>)
    -> Option<(Seq<char>, Option<Seq<char>>)>
{
    let pos = graph_texts(nodes, false);
    let neg = graph_texts(nodes, true);
    if pos.len() == 0 {
        None
    } else {
        Some((join_parts(pos, paragraph_break()),
            if neg.len() == 0 { None } else { Some(join_parts(neg, paragraph_break())) }))
    }
}

/// What the ComfyUI search finds in the text of a `prompt` entry.
pub open spec fn comfyui_prompt(json: Seq<char>) -> Option<(Seq<char>, Option<Seq<char>>)> {
    match json_graph_nodes(json) {
        Some(nodes) => graph_prompt(nodes),
        None => None,
    }
}

fn joined(parts: &Vec<Vec<char>>) -> (r: Vec<char>)
    ensures
        r@ == join_parts(crate::paths::views(parts@), paragraph_break()),
{
    let mut out: Vec<char> = Vec::new();
    let mut i: usize = 0;
    while i < parts.len()
        invariant
            i <= parts.len(),
            out@ == join_parts(crate::paths::views(parts@).take(i as int), paragraph_break()),
        decreases parts.len() - i,
    {
        proof {
            let v = crate::paths::views(parts@);
            assert(v.take(i + 1).drop_last() =~= v.take(i as int));
            if i == 0 {
                assert(v.take(1) =~= seq![v[0]]);
            }
        }
        if i > 0 {
            out.push('\n');
            out.push('\n');
        }
        push_all(&mut out, &parts[i]);
        i = i + 1;
        proof {
            let v = crate::paths::views(parts@);
            if i > 1 {
                assert(out@ =~= join_parts(v.take(i - 1), paragraph_break()) + paragraph_break() + v[i - 1]);
            } else {
                assert(out@ =~= v[0]);
            }
        }
    }
    proof { assert(crate::paths::views(parts@).take(parts.len() as int) =~= crate::paths::views(parts@)); }
    out
}

/// The prompt pair of a ComfyUI node graph: `CLIPTextEncode` nodes with
/// text, split by whether their title mentions "negative".
pub fn prompt_from_graph(nodes: &Vec<GraphNode>) -> (r: Option<(String, Option<String>)>)
    ensures
        prompt_view(r) == graph_prompt(nodes_view(nodes@)),
{
    let ghost nv = nodes_view(nodes@);
    proof { reveal_strlit("CLIPTextEncode"); reveal_strlit("negative"); }
    let clip = chars_of("CLIPTextEncode");
    let neg_word = chars_of("negative");
    proof {
        assert(clip@ =~= clip_text_encode());
        assert(neg_word@ =~= negative_word());
    }
    let mut positives: Vec<Vec<char>> = Vec::new();
    let mut negatives: Vec<Vec<char>> = Vec::new();
    let mut i: usize = 0;
    while i < nodes.len()
        invariant
            i <= nodes.len(),
            nv == nodes_view(nodes@),
            clip@ == clip_text_encode(),
            neg_word@ == negative_word(),
            crate::paths::views(positives@) == graph_texts(nv.take(i as int), false),
            crate::paths::views(negatives@) == graph_texts(nv.take(i as int), true),
        decreases nodes.len() - i,
    {
        let node = &nodes[i];
        proof { assert(nv.take(i + 1).drop_last() =~= nv.take(i as int)); }
        let is_clip = match &node.class_type {
            Some(c) => {
                let cv = chars_of(c.as_str());
                chars_eq(&cv, &clip)
            },
            None => false,
        };
        let text = match &node.text {
            Some(t) => {
                let tv = chars_of(t.as_str());
                trim_chars(&tv)
            },
            None => Vec::new(),
        };
        let negative = match &node.title {
            Some(t) => {
                let low = lowercase(t.as_str());
                let lv = chars_of(low.as_str());
                contains_chars(&lv, &neg_word)
            },
            None => false,
        };
        proof {
            let n = nv[i as int];
            assert(n == node_view(nodes@[i as int]));
            assert(text@ == node_text(n));
            assert(is_clip == (n.0 == Some(clip_text_encode())));
            assert(negative == is_negative_node(n));
        }
        if is_clip && text.len() > 0 {
            if negative {
                negatives.push(text);
            } else {
                positives.push(text);
            }
        }
        i = i + 1;
        proof {
            assert(crate::paths::views(positives@) =~= graph_texts(nv.take(i as int), false));
            assert(crate::paths::views(negatives@) =~= graph_texts(nv.take(i as int), true));
        }
    }
    proof { assert(nv.take(nodes.len() as int) =~= nv); }
    if positives.len() == 0 {
        return None;
    }
    let p = joined(&positives);
    let n = if negatives.len() == 0 {
        None
    } else {
        let j = joined(&negatives);
        Some(string_of(j.as_slice()))
    };
    Some((string_of(p.as_slice()), n))
}

/// Positive (and optional negative) prompt of a ComfyUI `prompt` JSON graph.
pub fn extract_comfyui_prompt(json_str: &str) -> (r: Option<(String, Option<String>)>)
    ensures
        prompt_view(r) == comfyui_prompt(json_str@),
{
    match graph_nodes(json_str) {
        Some(nodes) => prompt_from_graph(&nodes),
        None => None,
    }
}

// ---------------------------------------------------------------------------
// Prompt search over the entries
// ---------------------------------------------------------------------------

/// The first entry at or after `i` whose key is `key`.
pub open spec fn key_index_from(es: Seq<(Seq<char>, Seq<char>, bool)>, key: Seq<char>, i: int) -> Option<int>
    decreases es.len() - i,
{
    if i < 0 || i >= es.len() {
        None
    } else if es[i].0 == key {
        Some(i)
    } else {
        key_index_from(es, key, i + 1)
    }
}

/// The value of the first entry whose key is `key`.
pub open spec fn value_of_key(es: Seq<(Seq<char>, Seq<char>, bool)>, key: Seq<char>) -> Option<Seq<char>> {
    match key_index_from(es, key, 0) {
        Some(i) => Some(es[i].1),
        None => None,
    }
}

/// A ComfyUI graph is looked for only in text that starts (once trimmed) with `{`.
pub open spec fn opens_object(v: Seq<char>) -> bool {
    has_prefix(trim_spec(v), seq!['{'])
}

/// The prompt the entries hold: from an AUTOMATIC1111 `parameters` entry,
/// else from a ComfyUI `prompt` graph, else a non-empty `Description`.
pub open spec fn ai_prompt(es: Seq<(Seq<char>, Seq<char>, bool)>) -> Option<(Seq<char>, Option<Seq<char>>)> {
    let a = match value_of_key(es, "parameters"@) {
        Some(v) => a1111_prompt(v),
        None => None,
    };
    let c = match value_of_key(es, "prompt"@) {
        Some(v) => if opens_object(v) { comfyui_prompt(v) } else { None },
        None => None,
    };
    let d = match value_of_key(es, "Description"@) {
        Some(v) => if v.len() > 0 { Some((v, None)) } else { None },
        None => None,
    };
    if a is Some { a } else if c is Some { c } else { d }
}

fn find_key(entries: &Vec<MetaEntry>, key: &String) -> (r: Option<usize>)
    ensures
        match r {
            Some(i) => key_index_from(entries_view(entries@), key@, 0) == Some(i as int) && i < entries.len(),
            None => key_index_from(entries_view(entries@), key@, 0) is None,
        },
{
    let ghost es = entries_view(entries@);
    let mut i: usize = 0;
    while i < entries.len()
        invariant
            i <= entries.len(),
            es == entries_view(entries@),
            key_index_from(es, key@, 0) == key_index_from(es, key@, i as int),
        decreases entries.len() - i,
    {
        proof { assert(es[i as int] == entry_view(entries@[i as int])); }
        if entries[i].key == *key {
            return Some(i);
        }
        i = i + 1;
    }
    None
}

fn value_in_chars(v: &String) -> (b: bool)
    ensures
        b == opens_object(v@),
{
    let cv = chars_of(v.as_str());
    let t = trim_chars(&cv);
    let brace: Vec<char> = vec!['{'];
    proof { assert(brace@ =~= seq!['{']); }
    matches_at(&t, &brace, 0)
}

/// Finds a human-readable prompt in the metadata entries:
/// `(positive, Option<negative>)`.
pub fn extract_ai_prompt(entries: &Vec<MetaEntry>) -> (r: Option<(String, Option<String>)>)
    ensures
        prompt_view(r) == ai_prompt(entries_view(entries@)),
{
    let ghost es = entries_view(entries@);
    let parameters = "parameters".to_owned();
    if let Some(i) = find_key(entries, &parameters) {
        proof { assert(es[i as int] == entry_view(entries@[i as int])); }
        let a = extract_a1111_prompt(entries[i].value.as_str());
        if a.is_some() {
            return a;
        }
    }
    let prompt = "prompt".to_owned();
    if let Some(i) = find_key(entries, &prompt) {
        proof { assert(es[i as int] == entry_view(entries@[i as int])); }
        if value_in_chars(&entries[i].value) {
            let c = extract_comfyui_prompt(entries[i].value.as_str());
            if c.is_some() {
                return c;
            }
        }
    }
    let description = "Description".to_owned();
    if let Some(i) = find_key(entries, &description) {
        proof { assert(es[i as int] == entry_view(entries@[i as int])); }
        if !entries[i].value.as_str().is_empty() {
            return Some((entries[i].value.clone(), None));
        }
    }
    None
}

/// The entries with the prompt found in them put first: a "Prompt" entry
/// and, when there is a negative prompt, a "Negative Prompt" entry.
pub open spec fn with_prompts(es: Seq<(Seq<char>, Seq<char>, bool)>) -> Seq<(Seq<char>, Seq<char>, bool)> {
    match ai_prompt(es) {
        None => es,
        Some((p, None)) => seq![("Prompt"@, p, false)] + es,
        Some((p, Some(n))) => seq![("Prompt"@, p, false), ("Negative Prompt"@, n, false)] + es,
    }
}

/// Prepends top-level "Prompt" / "Negative Prompt" entries for the prompt
/// the entries hold; the entries given stay in place after them.
pub fn inject_ai_prompts(entries: &mut Vec<MetaEntry>)
    ensures
        entries_view(final(entries)@) == with_prompts(entries_view(old(entries)@)),
{
    let found = extract_ai_prompt(entries);
    match found {
        None => {},
        Some((positive, negative)) => {
            entries.insert(0, MetaEntry { key: "Prompt".to_owned(), value: positive, is_header: false });
            match negative {
                Some(neg) => {
                    entries.insert(1, MetaEntry { key: "Negative Prompt".to_owned(), value: neg, is_header: false });
                },
                None => {},
            }
        },
    }
    proof {
        assert(entries_view(entries@) =~= with_prompts(entries_view(old(entries)@)));
    }
}

// ---------------------------------------------------------------------------
// JSON values
// ---------------------------------------------------------------------------

/// What `serde_json::to_string_pretty` gives for the JSON value that
/// `serde_json::from_str` reads from `text`; `None` when either fails.
pub uninterp spec fn pretty_json_of(text: Seq<char>) -> Option<Seq<char>>;

/// `serde_json::from_str::<Value>` then `serde_json::to_string_pretty`.
/// Trusted: the result is named by [`pretty_json_of`], a function of the
/// text alone; nothing more is claimed.
#[verifier::external_body]
fn pretty_json(text: &str) -> (r: Option<String>)
    ensures
        opt_chars(r) == pretty_json_of(text@),
{
    let val: serde_json::Value = serde_json::from_str(text).ok()?;
    serde_json::to_string_pretty(&val).ok()
}

/// A value that looks like JSON: once trimmed it starts with `{` or `[`.
pub open spec fn looks_like_json(v: Seq<char>) -> bool {
    has_prefix(trim_spec(v), seq!['{']) || has_prefix(trim_spec(v), seq!['['])
}

/// An entry after pretty-printing: a non-header entry whose value looks
/// like JSON and parses gets the pretty-printed text as its value.
pub open spec fn pretty_entry(e: (Seq<char>, Seq<char>, bool)) -> (Seq<char>, Seq<char>, bool) {
    if !e.2 && looks_like_json(e.1) && pretty_json_of(e.1) is Some {
        (e.0, pretty_json_of(e.1)->0, e.2)
    } else {
        e
    }
}

fn looks_like_json_exec(v: &String) -> (b: bool)
    ensures
        b == looks_like_json(v@),
{
    let cv = chars_of(v.as_str());
    let t = trim_chars(&cv);
    let brace: Vec<char> = vec!['{'];
    let bracket: Vec<char> = vec!['['];
    proof {
        assert(brace@ =~= seq!['{']);
        assert(bracket@ =~= seq!['[']);
    }
    matches_at(&t, &brace, 0) || matches_at(&t, &bracket, 0)
}

/// Pretty-prints the JSON values of the entries (see [`pretty_entry`]).
pub fn post_process_metadata(entries: &mut Vec<MetaEntry>)
    ensures
        entries_view(final(entries)@) == entries_view(old(entries)@).map_values(
            |e: (Seq<char>, Seq<char>, bool)| pretty_entry(e)),
{
    let ghost start = entries_view(entries@);
    let mut i: usize = 0;
    while i < entries.len()
        invariant
            i <= entries.len(),
            entries@.len() == start.len(),
            forall|k: int| 0 <= k < i ==> #[trigger] entry_view(entries@[k]) == pretty_entry(start[k]),
            forall|k: int| i <= k < start.len() ==> #[trigger] entry_view(entries@[k]) == start[k],
        decreases entries.len() - i,
    {
        proof { assert(entry_view(entries@[i as int]) == start[i as int]); }
        if !entries[i].is_header && looks_like_json_exec(&entries[i].value) {
            match pretty_json(entries[i].value.as_str()) {
                Some(pretty) => {
                    let e = MetaEntry { key: entries[i].key.clone(), value: pretty, is_header: false };
                    entries.set(i, e);
                },
                None => {},
            }
        }
        i = i + 1;
    }
    proof {
        assert(entries_view(entries@) =~= start.map_values(|e: (Seq<char>, Seq<char>, bool)| pretty_entry(e)));
    }
}

/// The characters of `(keyword, text)` pairs.
pub open spec fn pairs_view(v: Seq<(String, String)>) -> Seq<(Seq<char>, Seq<char>)> {
    v.map_values(|c: (String, String)| (c.0@, c.1@))
}

/// Entries for the text chunks of a PNG: every Latin-1 `tEXt` chunk, then
/// every UTF-8 `iTXt` chunk with non-empty text, as `(keyword, text)`.
pub open spec fn png_entries(latin1: Seq<(Seq<char>, Seq<char>)>, utf8: Seq<(Seq<char>, Seq<char>)>)
    -> Seq<(Seq<char>, Seq<char>, bool)>
    decreases utf8.len(),
{
    if utf8.len() == 0 {
        latin1.map_values(|c: (Seq<char>, Seq<char>)| (c.0, c.1, false))
    } else {
        let rest = png_entries(latin1, utf8.drop_last());
        let c = utf8.last();
        if c.1.len() > 0 { rest.push((c.0, c.1, false)) } else { rest }
    }
}

/// The metadata entries of a PNG's text chunks (see [`png_entries`]).
pub fn png_text_entries(latin1: &Vec<(String, String)>, utf8: &Vec<(String, String)>) -> (r: Vec<MetaEntry>)
    ensures
        entries_view(r@) == png_entries(pairs_view(latin1@), pairs_view(utf8@)),
{
    let ghost l = pairs_view(latin1@);
    let ghost u = pairs_view(utf8@);
    let mut out: Vec<MetaEntry> = Vec::new();
    let mut i: usize = 0;
    while i < latin1.len()
        invariant
            i <= latin1.len(),
            l == pairs_view(latin1@),
            out@.len() == i,
            entries_view(out@) == l.take(i as int).map_values(|c: (Seq<char>, Seq<char>)| (c.0, c.1, false)),
        decreases latin1.len() - i,
    {
        let ghost before = out@;
        out.push(MetaEntry { key: latin1[i].0.clone(), value: latin1[i].1.clone(), is_header: false });
        i = i + 1;
        proof {
            let m = l.take(i as int).map_values(|c: (Seq<char>, Seq<char>)| (c.0, c.1, false));
            assert forall|k: int| 0 <= k < i implies #[trigger] entries_view(out@)[k] == m[k] by {
                if k < i - 1 {
                    assert(out@[k] == before[k]);
                    assert(entries_view(before)[k] == entry_view(before[k]));
                }
            }
            assert(entries_view(out@) =~= m);
        }
    }
    proof {
        assert(l.take(latin1.len() as int) =~= l);
        assert(u.take(0) =~= Seq::<(Seq<char>, Seq<char>)>::empty());
    }
    let mut j: usize = 0;
    while j < utf8.len()
        invariant
            j <= utf8.len(),
            l == pairs_view(latin1@),
            u == pairs_view(utf8@),
            entries_view(out@) == png_entries(l, u.take(j as int)),
        decreases utf8.len() - j,
    {
        proof {
            assert(u.take(j + 1).drop_last() =~= u.take(j as int));
            assert(u.take(j + 1).last() == (utf8@[j as int].0@, utf8@[j as int].1@));
        }
        if !utf8[j].1.as_str().is_empty() {
            out.push(MetaEntry { key: utf8[j].0.clone(), value: utf8[j].1.clone(), is_header: false });
        }
        j = j + 1;
        proof {
            assert(entries_view(out@) =~= png_entries(l, u.take(j as int)));
        }
    }
    proof { assert(u.take(utf8.len() as int) =~= u); }
    out
}

/// The `(keyword, text)` pairs of the Latin-1 `tEXt` and the UTF-8 `iTXt`
/// chunks that the `png` crate reads before the image data of the PNG in
/// `data`; `None` when it cannot read the PNG's header chunks.
pub uninterp spec fn png_text_of(data: Seq<u8>) -> Option<(Seq<(Seq<char>, Seq<char>)>, Seq<(Seq<char>, Seq<char>)>)>;

/// `png::Decoder::new(..).read_info()` on the bytes, then the `Info`'s
/// `uncompressed_latin1_text` and `utf8_text` (with `get_text`, empty when
/// it fails). Trusted: the result is named by [`png_text_of`], a function
/// of the bytes alone.
#[verifier::external_body]
fn png_text_chunks(data: &[u8]) -> (r: Option<(Vec<(String, String)>, Vec<(String, String)>)>)
    ensures
        match r {
            Some((l, u)) => png_text_of(data@) == Some((pairs_view(l@), pairs_view(u@))),
            None => png_text_of(data@) is None,
        },
{
    let reader = png::Decoder::new(std::io::Cursor::new(data)).read_info().ok()?;
    let info = reader.info();
    let l = info.uncompressed_latin1_text.iter().map(|c| (c.keyword.clone(), c.text.clone())).collect();
    let u = info.utf8_text.iter().map(|c| (c.keyword.clone(), c.get_text().unwrap_or_default())).collect();
    Some((l, u))
}

/// The metadata entries of a PNG file's text chunks; none when the PNG does
/// not read.
pub fn png_metadata(data: &[u8]) -> (r: Vec<MetaEntry>)
    ensures
        match png_text_of(data@) {
            Some((l, u)) => entries_view(r@) == png_entries(l, u),
            None => r@.len() == 0,
        },
{
    match png_text_chunks(data) {
        Some((l, u)) => png_text_entries(&l, &u),
        None => Vec::new(),
    }
}

/// Which reader the metadata of a file comes from.
#[derive(Clone, Copy, Debug, PartialEq, Eq)]
pub enum MetadataSource {
    /// The PNG text chunks.
    Png,
    /// The EXIF fields.
    Exif,
    /// None: the file has no metadata the viewer reads.
    Nothing,
}

/// PNG files (by their bytes) are read for text chunks; JPEG, TIFF and WebP
/// files for EXIF; other files for EXIF when their extension names a camera
/// RAW format, else not at all.
pub open spec fn metadata_source_spec(data: Seq<u8>, path: Seq<char>) -> MetadataSource {
    match guessed_format_of(data) {
        Some(SupportedFormat::Png) => MetadataSource::Png,
        Some(SupportedFormat::Jpeg) | Some(SupportedFormat::Tiff) | Some(SupportedFormat::WebP) => MetadataSource::Exif,
        _ => if is_raw_extension_spec(path) { MetadataSource::Exif } else { MetadataSource::Nothing },
    }
}

/// Which reader the metadata of the file at `path`, holding `data`, comes
/// from (see [`metadata_source_spec`]).
pub fn metadata_source(data: &[u8], path: &str) -> (r: MetadataSource)
    ensures
        r == metadata_source_spec(data@, path@),
{
    match guessed_format(data) {
        Some(SupportedFormat::Png) => MetadataSource::Png,
        Some(SupportedFormat::Jpeg) | Some(SupportedFormat::Tiff) | Some(SupportedFormat::WebP) => MetadataSource::Exif,
        _ => if is_raw_extension(path) { MetadataSource::Exif } else { MetadataSource::Nothing },
    }
}

/// Law: the prompt found in the entries comes first, and every given
/// entry stays after it, in order (no detail is lost).
pub proof fn law_prompts_first(es: Seq<(Seq<char>, Seq<char>, bool)>)
    ensures
        ai_prompt(es) is None ==> with_prompts(es) == es,
        ai_prompt(es) matches Some((p, None)) ==> with_prompts(es)[0] == ("Prompt"@, p, false)
            && with_prompts(es).skip(1) == es,
        ai_prompt(es) matches Some((p, Some(n))) ==> with_prompts(es)[0] == ("Prompt"@, p, false)
            && with_prompts(es)[1] == ("Negative Prompt"@, n, false) && with_prompts(es).skip(2) == es,
{
    match ai_prompt(es) {
        None => {},
        Some((p, None)) => {
            assert(with_prompts(es).skip(1) =~= es);
        },
        Some((p, Some(n))) => {
            assert(with_prompts(es).skip(2) =~= es);
        },
    }
}

} // verus!
