//! The records the database stores (directories, rated images, tags), how
//! a result row becomes a record, and the SQL text of the filtered image
//! query.

use vstd::prelude::*;
use crate::text::{string_of, push_decimal, push_str, decimal, chars_of, trim_chars, trim_spec};
use crate::listing::{RatingFilter, RatingFilterOp};

verus! {

pub struct DirectoryRecord {
    pub id: i64,
    pub uuid: String,
    pub path: String,
    pub sort_override: Option<String>,
    pub created_at: i64,
    pub path_last_verified_at: Option<i64>,
}

pub struct ImageRecord {
    pub id: i64,
    pub directory_id: i64,
    pub filename: String,
    pub file_size: i64,
    pub file_modified_at: i64,
    pub rating: Option<u8>,
    pub bookmarked: bool,
    pub rotation: u8,
    pub note: Option<String>,
    pub created_at: i64,
    pub updated_at: i64,
}

pub struct TagRecord {
    pub id: i64,
    pub name: String,
    pub color: u32,
}

fn copy_opt(s: &Option<String>) -> (r: Option<String>)
    ensures
        r == *s,
{
    match s {
        Some(x) => Some(x.clone()),
        None => None,
    }
}

impl DirectoryRecord {
    pub fn duplicate(&self) -> (r: DirectoryRecord)
        ensures
            r == *self,
    {
        DirectoryRecord {
            id: self.id,
            uuid: self.uuid.clone(),
            path: self.path.clone(),
            sort_override: copy_opt(&self.sort_override),
            created_at: self.created_at,
            path_last_verified_at: self.path_last_verified_at,
        }
    }
}

impl ImageRecord {
    pub fn duplicate(&self) -> (r: ImageRecord)
        ensures
            r == *self,
    {
        ImageRecord {
            id: self.id,
            directory_id: self.directory_id,
            filename: self.filename.clone(),
            file_size: self.file_size,
            file_modified_at: self.file_modified_at,
            rating: self.rating,
            bookmarked: self.bookmarked,
            rotation: self.rotation,
            note: copy_opt(&self.note),
            created_at: self.created_at,
            updated_at: self.updated_at,
        }
    }

    /// The record of a result row's columns: the rating and the rotation
    /// are cut to their low byte, and any non-zero bookmark column means
    /// bookmarked.
    pub fn from_columns(
        id: i64,
        directory_id: i64,
        filename: String,
        file_size: i64,
        file_modified_at: i64,
        rating: Option<i64>,
        bookmarked: i64,
        rotation: i64,
        note: Option<String>,
        created_at: i64,
        updated_at: i64,
    ) -> (r: ImageRecord)
        ensures
            r.id == id,
            r.directory_id == directory_id,
            r.filename == filename,
            r.file_size == file_size,
            r.file_modified_at == file_modified_at,
            r.rating == (match rating {
                Some(x) => Some(x as u8),
                None => None,
            }),
            r.bookmarked == (bookmarked != 0),
            r.rotation == rotation as u8,
            r.note == note,
            r.created_at == created_at,
            r.updated_at == updated_at,
    {
        ImageRecord {
            id,
            directory_id,
            filename,
            file_size,
            file_modified_at,
            rating: match rating {
                Some(x) => Some(x as u8),
                None => None,
            },
            bookmarked: bookmarked != 0,
            rotation: rotation as u8,
            note,
            created_at,
            updated_at,
        }
    }
}

impl TagRecord {
    pub fn duplicate(&self) -> (r: TagRecord)
        ensures
            r == *self,
    {
        TagRecord { id: self.id, name: self.name.clone(), color: self.color }
    }

    /// The record of a result row: the color column is cut to 32 bits.
    pub fn from_columns(id: i64, name: String, color: i64) -> (r: TagRecord)
        ensures
            r.id == id,
            r.name == name,
            r.color == color as u32,
    {
        TagRecord { id, name, color: color as u32 }
    }
}

// ---------------------------------------------------------------------------
// The filtered image query
// ---------------------------------------------------------------------------

/// A value bound to a `?N` placeholder of a query.
pub enum SqlParam {
    Integer(i64),
    Text(String),
}

pub open spec fn query_head() -> Seq<char> {
    "SELECT d.path,
                    i.id, i.directory_id, i.filename, i.file_size,
                    i.file_modified_at, i.rating, i.bookmarked, i.rotation, i.note,
                    i.created_at, i.updated_at
             FROM images i JOIN directories d ON i.directory_id = d.id"@
}

/// The comparison operator of a rating filter in SQL.
pub open spec fn op_sql(op: RatingFilterOp) -> Seq<char> {
    match op {
        RatingFilterOp::AtLeast => ">="@,
        RatingFilterOp::AtMost => "<="@,
        RatingFilterOp::Exactly => "="@,
    }
}

/// The number of placeholders the rating filter takes.
pub open spec fn rating_param_count(rf: Option<RatingFilter>) -> nat {
    match rf {
        Some(f) => if f.path_prefix is Some { 2 } else { 1 },
        None => 0,
    }
}

/// The joins that require tag `idx` (named by placeholder `n`).
pub open spec fn tag_join(idx: nat, n: nat) -> Seq<char> {
    let it = "it"@ + decimal(idx);
    let t = "t"@ + decimal(idx);
    " JOIN image_tags "@ + it + " ON i.id = "@ + it + ".image_id
                      JOIN tags "@ + t + " ON "@ + it + ".tag_id = "@ + t + ".id AND "@ + t
        + ".name = ?"@ + decimal(n)
}

/// The joins for the first `k` tags.
pub open spec fn tag_joins(k: nat, first: nat) -> Seq<char>
    decreases k,
{
    if k == 0 {
        Seq::empty()
    } else {
        tag_joins((k - 1) as nat, first) + tag_join((k - 1) as nat, first + k)
    }
}

/// The WHERE part for a rating filter.
pub open spec fn where_part(rf: Option<RatingFilter>) -> Seq<char> {
    match rf {
        Some(f) => {
            let rating = "i.rating "@ + op_sql(f.op) + " ?1"@;
            if f.path_prefix is Some {
                " WHERE "@ + rating + " AND "@ + "d.path LIKE ?2"@
            } else {
                " WHERE "@ + rating
            }
        },
        None => Seq::empty(),
    }
}

/// The SQL text of the query for images that pass a rating filter and
/// carry every tag of `tags`, most recently updated first.
pub open spec fn filtered_query(rf: Option<RatingFilter>, tags: Seq<String>) -> Seq<char> {
    query_head() + tag_joins(tags.len(), rating_param_count(rf)) + where_part(rf) + " ORDER BY i.updated_at DESC"@
}

/// A placeholder value as `(is an integer, the integer, the text)`.
pub open spec fn param_view(p: SqlParam) -> (bool, i64, Seq<char>) {
    match p {
        SqlParam::Integer(n) => (true, n, Seq::empty()),
        SqlParam::Text(t) => (false, 0, t@),
    }
}

pub open spec fn params_view(ps: Seq<SqlParam>) -> Seq<(bool, i64, Seq<char>)> {
    ps.map_values(|p: SqlParam| param_view(p))
}

/// The values bound to the placeholders of [`filtered_query`], in order:
/// the rating, the path prefix followed by `%`, then the tags.
pub open spec fn filtered_params(rf: Option<RatingFilter>, tags: Seq<String>) -> Seq<(bool, i64, Seq<char>)> {
    let head = match rf {
        Some(f) => match f.path_prefix {
            Some(p) => seq![(true, f.value as i64, Seq::<char>::empty()), (false, 0i64, p@.push('%'))],
            None => seq![(true, f.value as i64, Seq::<char>::empty())],
        },
        None => Seq::empty(),
    };
    head + Seq::new(tags.len(), |i: int| (false, 0i64, tags[i]@))
}

fn push_tag_join(q: &mut Vec<char>, idx: u64, n: u64)
    ensures
        final(q)@ == old(q)@ + tag_join(idx as nat, n as nat),
{
    let mut it: Vec<char> = Vec::new();
    push_str(&mut it, "it");
    push_decimal(&mut it, idx);
    let mut t: Vec<char> = Vec::new();
    push_str(&mut t, "t");
    push_decimal(&mut t, idx);
    push_str(q, " JOIN image_tags ");
    crate::text::push_all(q, &it);
    push_str(q, " ON i.id = ");
    crate::text::push_all(q, &it);
    push_str(q, ".image_id
                      JOIN tags ");
    crate::text::push_all(q, &t);
    push_str(q, " ON ");
    crate::text::push_all(q, &it);
    push_str(q, ".tag_id = ");
    crate::text::push_all(q, &t);
    push_str(q, ".id AND ");
    crate::text::push_all(q, &t);
    push_str(q, ".name = ?");
    push_decimal(q, n);
    proof {
        assert(q@ =~= old(q)@ + tag_join(idx as nat, n as nat));
    }
}

/// The SQL text and the placeholder values of the query for images that
/// pass `rating_filter` and carry every tag of `tags`.
pub fn filtered_images_query(rating_filter: Option<&RatingFilter>, tags: &Vec<String>) -> (r: (String, Vec<SqlParam>))
    requires
        tags.len() < 0x1000_0000,
    ensures
        r.0@ == filtered_query(match rating_filter { Some(f) => Some(*f), None => None }, tags@),
        params_view(r.1@) == filtered_params(match rating_filter { Some(f) => Some(*f), None => None }, tags@),
{
    let ghost rf = match rating_filter { Some(f) => Some(*f), None => None };
    let mut q: Vec<char> = Vec::new();
    push_str(&mut q, "SELECT d.path,
                    i.id, i.directory_id, i.filename, i.file_size,
                    i.file_modified_at, i.rating, i.bookmarked, i.rotation, i.note,
                    i.created_at, i.updated_at
             FROM images i JOIN directories d ON i.directory_id = d.id");
    let mut params: Vec<SqlParam> = Vec::new();
    let mut where_text: Vec<char> = Vec::new();
    match rating_filter {
        Some(f) => {
            push_str(&mut where_text, " WHERE ");
            push_str(&mut where_text, "i.rating ");
            match f.op {
                RatingFilterOp::AtLeast => push_str(&mut where_text, ">="),
                RatingFilterOp::AtMost => push_str(&mut where_text, "<="),
                RatingFilterOp::Exactly => push_str(&mut where_text, "="),
            }
            push_str(&mut where_text, " ?1");
            params.push(SqlParam::Integer(f.value as i64));
            match &f.path_prefix {
                Some(p) => {
                    push_str(&mut where_text, " AND ");
                    push_str(&mut where_text, "d.path LIKE ?2");
                    let mut pv = crate::text::chars_of(p.as_str());
                    pv.push('%');
                    params.push(SqlParam::Text(string_of(pv.as_slice())));
                },
                None => {},
            }
        },
        None => {},
    }
    proof {
        assert(where_text@ =~= where_part(rf));
        assert(params_view(params@) =~= filtered_params(rf, Seq::empty()));
    }
    let first = params.len();
    let ghost head_q = q@;
    let ghost head_p = params_view(params@);
    let mut idx: usize = 0;
    while idx < tags.len()
        invariant
            idx <= tags.len(),
            tags.len() < 0x1000_0000,
            first == rating_param_count(rf),
            first <= 2,
            q@ == head_q + tag_joins(idx as nat, first as nat),
            params_view(params@) == head_p + Seq::new(idx as nat, |i: int| (false, 0i64, tags@[i]@)),
        decreases tags.len() - idx,
    {
        let ghost before = q@;
        let n = (first + idx + 1) as u64;
        push_tag_join(&mut q, idx as u64, n);
        let ghost ps = params@;
        params.push(SqlParam::Text(tags[idx].clone()));
        idx = idx + 1;
        proof {
            assert(q@ =~= before + tag_join((idx - 1) as nat, (first + idx) as nat));
            assert(params_view(params@) =~= params_view(ps).push((false, 0i64, tags@[idx - 1]@)));
            assert(params_view(params@) =~= head_p + Seq::new(idx as nat, |i: int| (false, 0i64, tags@[i]@)));
        }
    }
    crate::text::push_all(&mut q, &where_text);
    push_str(&mut q, " ORDER BY i.updated_at DESC");
    proof {
        assert(q@ =~= filtered_query(rf, tags@));
        assert(params_view(params@) =~= filtered_params(rf, tags@));
    }
    (string_of(q.as_slice()), params)
}

/// The tag names stored for an image, of the first `n` given: each trimmed
/// of white space, the ones left empty dropped, in order.
pub open spec fn stored_tag_names(names: Seq<Seq<char>>) -> Seq<Seq<char>>
    decreases names.len(),
{
    if names.len() == 0 {
        Seq::empty()
    } else {
        let rest = stored_tag_names(names.drop_last());
        let t = trim_spec(names.last());
        if t.len() == 0 { rest } else { rest.push(t) }
    }
}

pub open spec fn string_views(v: Seq<String>) -> Seq<Seq<char>> {
    v.map_values(|s: String| s@)
}

/// The names under which the tags of an image are stored (see
/// [`stored_tag_names`]).
pub fn tag_names_to_store(names: &Vec<String>) -> (r: Vec<String>)
    ensures
        string_views(r@) == stored_tag_names(string_views(names@)),
{
    let mut out: Vec<String> = Vec::new();
    let mut i: usize = 0;
    while i < names.len()
        invariant
            i <= names@.len(),
            string_views(out@) == stored_tag_names(string_views(names@.take(i as int))),
        decreases names.len() - i,
    {
        let t = trim_chars(&chars_of(names[i].as_str()));
        proof {
            assert(string_views(names@.take(i + 1)).drop_last() =~= string_views(names@.take(i as int)));
            assert(string_views(names@.take(i + 1)).last() == names@[i as int]@);
        }
        if t.len() > 0 {
            let s = string_of(t.as_slice());
            out.push(s);
            proof { assert(string_views(out@) =~= stored_tag_names(string_views(names@.take(i as int))).push(t@)); }
        }
        i = i + 1;
    }
    proof { assert(names@.take(names@.len() as int) =~= names@); }
    out
}

/// What an SQL comparison operator tests of a rating `r` against a value `v`.
pub open spec fn sql_compares(text: Seq<char>, r: int, v: int) -> bool {
    if text == seq!['<', '='] {
        r <= v
    } else if text == seq!['>', '='] {
        r >= v
    } else if text == seq!['='] {
        r == v
    } else {
        false
    }
}

/// Law: the library-wide query filters ratings as the folder view does:
/// the SQL operator written for a filter tests exactly what the filter
/// accepts.
pub proof fn law_query_agrees_with_filter(op: RatingFilterOp, r: u8, v: u8)
    ensures
        sql_compares(op_sql(op), r as int, v as int) == crate::listing::rating_passes(op, r, v),
{
    reveal_strlit("<=");
    reveal_strlit(">=");
    reveal_strlit("=");
    assert("<="@ =~= seq!['<', '=']);
    assert(">="@ =~= seq!['>', '=']);
    assert("="@ =~= seq!['=']);
}

} // verus!
