//! Image formats the viewer recognises, by file extension.

use vstd::prelude::*;
use crate::text::{chars_of, lowercase, lowercase_of};
use crate::paths::{file_name_spec, file_name_chars};

verus! {

/// A file format that the viewer opens.
#[derive(Clone, Copy, Debug, PartialEq, Eq)]
pub enum SupportedFormat {
    Jpeg,
    Png,
    WebP,
    Bmp,
    Tiff,
    Gif,
    Exr,
    Svg,
    Raw,
}

/// ASCII lowercase of one character.
pub open spec fn ascii_lower(c: char) -> char {
    if 'A' <= c && c <= 'Z' { (((c as u8) + 32) as u8) as char } else { c }
}

pub open spec fn ascii_lower_seq(s: Seq<char>) -> Seq<char> {
    Seq::new(s.len(), |i: int| ascii_lower(s[i]))
}

/// `Path::extension` of a file name: the part after the last `.`, unless the
/// name has no `.` or its only `.` is the first character.
pub open spec fn extension_of_name(n: Seq<char>) -> Option<Seq<char>> {
    if exists|i: int| 0 < i < n.len() && n[i] == '.' {
        let i = choose|i: int| 0 < i < n.len() && n[i] == '.' && forall|j: int| i < j < n.len() ==> n[j] != '.';
        Some(n.subrange(i + 1, n.len() as int))
    } else {
        None
    }
}

/// `Path::extension`.
pub open spec fn extension_spec(path: Seq<char>) -> Option<Seq<char>> {
    match file_name_spec(path) {
        Some(n) => extension_of_name(n),
        None => None,
    }
}

pub open spec fn raw_extension(e: Seq<char>) -> bool {
    e == seq!['a', 'r', 'w'] || e == seq!['c', 'r', '2'] || e == seq!['c', 'r', '3']
        || e == seq!['n', 'e', 'f'] || e == seq!['n', 'r', 'w'] || e == seq!['o', 'r', 'f']
        || e == seq!['r', 'a', 'f'] || e == seq!['r', 'w', '2'] || e == seq!['d', 'n', 'g']
}

/// The format of a (lowercased) extension.
pub open spec fn format_of_extension(e: Seq<char>) -> Option<SupportedFormat> {
    if e == seq!['j', 'p', 'g'] || e == seq!['j', 'p', 'e', 'g'] {
        Some(SupportedFormat::Jpeg)
    } else if e == seq!['p', 'n', 'g'] {
        Some(SupportedFormat::Png)
    } else if e == seq!['w', 'e', 'b', 'p'] {
        Some(SupportedFormat::WebP)
    } else if e == seq!['b', 'm', 'p'] {
        Some(SupportedFormat::Bmp)
    } else if e == seq!['t', 'i', 'f', 'f'] || e == seq!['t', 'i', 'f'] {
        Some(SupportedFormat::Tiff)
    } else if e == seq!['g', 'i', 'f'] {
        Some(SupportedFormat::Gif)
    } else if e == seq!['e', 'x', 'r'] {
        Some(SupportedFormat::Exr)
    } else if e == seq!['s', 'v', 'g'] {
        Some(SupportedFormat::Svg)
    } else if raw_extension(e) {
        Some(SupportedFormat::Raw)
    } else {
        None
    }
}

/// The format of a path, from its extension (ASCII case ignored).
pub open spec fn format_of_path(path: Seq<char>) -> Option<SupportedFormat> {
    match extension_spec(path) {
        Some(e) => format_of_extension(ascii_lower_seq(e)),
        None => None,
    }
}

fn lower_ascii(v: &Vec<char>) -> (r: Vec<char>)
    ensures
        r@ == ascii_lower_seq(v@),
{
    let mut r: Vec<char> = Vec::new();
    let mut i: usize = 0;
    while i < v.len()
        invariant
            i <= v.len(),
            r@ == ascii_lower_seq(v@.take(i as int)),
        decreases v.len() - i,
    {
        let c = v[i];
        let l = if 'A' <= c && c <= 'Z' { ((c as u8) + 32) as char } else { c };
        r.push(l);
        i = i + 1;
        proof { assert(r@ =~= ascii_lower_seq(v@.take(i as int))); }
    }
    proof { assert(v@.take(v.len() as int) =~= v@); }
    r
}

/// The extension of a file name.
fn extension_of(n: &Vec<char>) -> (r: Option<Vec<char>>)
    ensures
        match r {
            Some(e) => extension_of_name(n@) == Some(e@),
            None => extension_of_name(n@) is None,
        },
{
    let mut i: usize = n.len();
    while i > 1
        invariant
            i <= n.len(),
            forall|j: int| i <= j < n.len() ==> n@[j] != '.',
        decreases i,
    {
        if n[i - 1] == '.' {
            let e = crate::text::slice_chars(n, i, n.len());
            proof {
                let k = (i - 1) as int;
                assert(0 < k < n.len() && n@[k] == '.');
                let w = choose|w: int| 0 < w < n@.len() && n@[w] == '.' && forall|j: int| w < j < n@.len() ==> n@[j] != '.';
                if w < k { assert(n@[k] != '.'); }
                if w > k { assert(n@[w] != '.'); }
            }
            return Some(e);
        }
        i = i - 1;
    }
    proof {
        if exists|k: int| 0 < k < n@.len() && n@[k] == '.' {
            let k = choose|k: int| 0 < k < n@.len() && n@[k] == '.';
            assert(k >= i);
        }
    }
    None
}

fn seq_is(v: &Vec<char>, s: &str) -> (b: bool)
    ensures
        b == (v@ == s@),
{
    let t = chars_of(s);
    crate::paths::chars_eq(v, &t)
}

impl SupportedFormat {
    /// The format named by a lowercased extension.
    pub fn from_extension(e: &Vec<char>) -> (r: Option<SupportedFormat>)
        ensures
            r == format_of_extension(e@),
    {
        proof {
            reveal_strlit("jpg"); reveal_strlit("jpeg"); reveal_strlit("png"); reveal_strlit("webp");
            reveal_strlit("bmp"); reveal_strlit("tiff"); reveal_strlit("tif"); reveal_strlit("gif");
            reveal_strlit("exr"); reveal_strlit("svg");
            assert("jpg"@ =~= seq!['j', 'p', 'g']);
            assert("jpeg"@ =~= seq!['j', 'p', 'e', 'g']);
            assert("png"@ =~= seq!['p', 'n', 'g']);
            assert("webp"@ =~= seq!['w', 'e', 'b', 'p']);
            assert("bmp"@ =~= seq!['b', 'm', 'p']);
            assert("tiff"@ =~= seq!['t', 'i', 'f', 'f']);
            assert("tif"@ =~= seq!['t', 'i', 'f']);
            assert("gif"@ =~= seq!['g', 'i', 'f']);
            assert("exr"@ =~= seq!['e', 'x', 'r']);
            assert("svg"@ =~= seq!['s', 'v', 'g']);
        }
        if seq_is(e, "jpg") || seq_is(e, "jpeg") {
            Some(SupportedFormat::Jpeg)
        } else if seq_is(e, "png") {
            Some(SupportedFormat::Png)
        } else if seq_is(e, "webp") {
            Some(SupportedFormat::WebP)
        } else if seq_is(e, "bmp") {
            Some(SupportedFormat::Bmp)
        } else if seq_is(e, "tiff") || seq_is(e, "tif") {
            Some(SupportedFormat::Tiff)
        } else if seq_is(e, "gif") {
            Some(SupportedFormat::Gif)
        } else if seq_is(e, "exr") {
            Some(SupportedFormat::Exr)
        } else if seq_is(e, "svg") {
            Some(SupportedFormat::Svg)
        } else if is_raw_name(e) {
            Some(SupportedFormat::Raw)
        } else {
            None
        }
    }

    /// The format of the file at `path`, by its extension.
    pub fn from_path(path: &str) -> (r: Option<SupportedFormat>)
        ensures
            r == format_of_path(path@),
    {
        let v = chars_of(path);
        match file_name_chars(&v) {
            Some(n) => match extension_of(&n) {
                Some(e) => {
                    let l = lower_ascii(&e);
                    SupportedFormat::from_extension(&l)
                }
                None => None,
            },
            None => None,
        }
    }
}

fn is_raw_name(e: &Vec<char>) -> (b: bool)
    ensures
        b == raw_extension(e@),
{
    proof {
        reveal_strlit("arw"); reveal_strlit("cr2"); reveal_strlit("cr3"); reveal_strlit("nef");
        reveal_strlit("nrw"); reveal_strlit("orf"); reveal_strlit("raf"); reveal_strlit("rw2");
        reveal_strlit("dng");
            assert("arw"@ =~= seq!['a', 'r', 'w']);
            assert("cr2"@ =~= seq!['c', 'r', '2']);
            assert("cr3"@ =~= seq!['c', 'r', '3']);
            assert("nef"@ =~= seq!['n', 'e', 'f']);
            assert("nrw"@ =~= seq!['n', 'r', 'w']);
            assert("orf"@ =~= seq!['o', 'r', 'f']);
            assert("raf"@ =~= seq!['r', 'a', 'f']);
            assert("rw2"@ =~= seq!['r', 'w', '2']);
            assert("dng"@ =~= seq!['d', 'n', 'g']);
        }
    seq_is(e, "arw") || seq_is(e, "cr2") || seq_is(e, "cr3") || seq_is(e, "nef")
        || seq_is(e, "nrw") || seq_is(e, "orf") || seq_is(e, "raf") || seq_is(e, "rw2")
        || seq_is(e, "dng")
}

/// `true` when the extension of `path`, lowercased, names a camera RAW format.
pub open spec fn is_raw_extension_spec(path: Seq<char>) -> bool {
    match extension_spec(path) {
        Some(e) => raw_extension(lowercase_of(e)),
        None => false,
    }
}

/// Whether `path` has a camera RAW extension (`str::to_lowercase` of the
/// extension is one of arw, cr2, cr3, nef, nrw, orf, raf, rw2, dng).
pub fn is_raw_extension(path: &str) -> (b: bool)
    ensures
        b == is_raw_extension_spec(path@),
{
    let v = chars_of(path);
    match file_name_chars(&v) {
        Some(n) => match extension_of(&n) {
            Some(e) => {
                let es = crate::text::string_of(e.as_slice());
                let l = lowercase(es.as_str());
                let lv = chars_of(l.as_str());
                is_raw_name(&lv)
            }
            None => false,
        },
        None => false,
    }
}

/// The extension of `path`, lower-cased (`str::to_lowercase`).
pub fn lowercase_extension(path: &str) -> (r: Option<String>)
    ensures
        match r {
            Some(l) => extension_spec(path@) matches Some(e) && l@ == lowercase_of(e),
            None => extension_spec(path@) is None,
        },
{
    let v = chars_of(path);
    match file_name_chars(&v) {
        Some(n) => match extension_of(&n) {
            Some(e) => {
                let es = crate::text::string_of(e.as_slice());
                Some(lowercase(es.as_str()))
            }
            None => None,
        },
        None => None,
    }
}

/// The format an image is saved in under `dst`: JPEG or PNG by the
/// extension, `None` for any other.
pub open spec fn output_format_spec(dst: Seq<char>) -> Option<SupportedFormat> {
    match format_of_path(dst) {
        Some(SupportedFormat::Jpeg) => Some(SupportedFormat::Jpeg),
        Some(SupportedFormat::Png) => Some(SupportedFormat::Png),
        _ => None,
    }
}

/// The format an image is saved in under `dst` (see [`output_format_spec`]).
pub fn output_format(dst: &str) -> (r: Option<SupportedFormat>)
    ensures
        r == output_format_spec(dst@),
{
    match SupportedFormat::from_path(dst) {
        Some(SupportedFormat::Jpeg) => Some(SupportedFormat::Jpeg),
        Some(SupportedFormat::Png) => Some(SupportedFormat::Png),
        _ => None,
    }
}

/// The format that `image::guess_format` recognises by the first bytes of
/// `data`, where it is one the viewer opens; `None` for others and for
/// unknown data.
pub uninterp spec fn guessed_format_of(data: Seq<u8>) -> Option<SupportedFormat>;

/// `image::guess_format` (the magic-byte test that
/// `ImageReader::with_guessed_format` makes on a file's first 16 bytes),
/// its variants told apart. Trusted: the result is named by
/// [`guessed_format_of`], a function of the bytes alone.
#[verifier::external_body]
pub(crate) fn guessed_format(data: &[u8]) -> (r: Option<SupportedFormat>)
    ensures
        r == guessed_format_of(data@),
{
    match image::guess_format(data) {
        Ok(image::ImageFormat::Jpeg) => Some(SupportedFormat::Jpeg),
        Ok(image::ImageFormat::Png) => Some(SupportedFormat::Png),
        Ok(image::ImageFormat::WebP) => Some(SupportedFormat::WebP),
        Ok(image::ImageFormat::Bmp) => Some(SupportedFormat::Bmp),
        Ok(image::ImageFormat::Tiff) => Some(SupportedFormat::Tiff),
        Ok(image::ImageFormat::Gif) => Some(SupportedFormat::Gif),
        Ok(image::ImageFormat::OpenExr) => Some(SupportedFormat::Exr),
        _ => None,
    }
}

/// The extensions that the "open image" dialog offers in its filter, in the
/// order it lists them.
pub open spec fn dialog_extensions() -> Seq<Seq<char>> {
    seq![
        seq!['p', 'n', 'g'],
        seq!['j', 'p', 'g'],
        seq!['j', 'p', 'e', 'g'],
        seq!['w', 'e', 'b', 'p'],
        seq!['b', 'm', 'p'],
        seq!['t', 'i', 'f', 'f'],
        seq!['t', 'i', 'f'],
        seq!['g', 'i', 'f'],
        seq!['e', 'x', 'r'],
        seq!['s', 'v', 'g'],
        seq!['a', 'r', 'w'],
        seq!['c', 'r', '2'],
        seq!['c', 'r', '3'],
        seq!['n', 'e', 'f'],
        seq!['n', 'r', 'w'],
        seq!['o', 'r', 'f'],
        seq!['r', 'a', 'f'],
        seq!['r', 'w', '2'],
        seq!['d', 'n', 'g']
    ]
}

/// Law: the viewer opens exactly the files that its "open image" dialog
/// offers: each extension of the dialog's filter has a format, and an
/// extension with a format is one of the filter's. `tif` and `tiff` are the
/// same format, as are `jpg` and `jpeg`.
pub proof fn law_supported_extensions(e: Seq<char>)
    ensures
        forall|i: int| 0 <= i < dialog_extensions().len()
            ==> (#[trigger] format_of_extension(dialog_extensions()[i])) is Some,
        format_of_extension(e) is Some
            ==> exists|i: int| 0 <= i < dialog_extensions().len() && dialog_extensions()[i] == e,
        format_of_extension(seq!['t', 'i', 'f']) == format_of_extension(seq!['t', 'i', 'f', 'f']),
        format_of_extension(seq!['t', 'i', 'f']) == Some(SupportedFormat::Tiff),
        format_of_extension(seq!['j', 'p', 'g']) == format_of_extension(seq!['j', 'p', 'e', 'g']),
{
    assert forall|i: int| 0 <= i < dialog_extensions().len()
        implies (#[trigger] format_of_extension(dialog_extensions()[i])) is Some by {
        let x = dialog_extensions()[i];
        if i == 0 { assert(x == seq!['p', 'n', 'g']); }
        if i == 1 { assert(x == seq!['j', 'p', 'g']); }
        if i == 2 { assert(x == seq!['j', 'p', 'e', 'g']); }
        if i == 3 { assert(x == seq!['w', 'e', 'b', 'p']); }
        if i == 4 { assert(x == seq!['b', 'm', 'p']); }
        if i == 5 { assert(x == seq!['t', 'i', 'f', 'f']); }
        if i == 6 { assert(x == seq!['t', 'i', 'f']); }
        if i == 7 { assert(x == seq!['g', 'i', 'f']); }
        if i == 8 { assert(x == seq!['e', 'x', 'r']); }
        if i == 9 { assert(x == seq!['s', 'v', 'g']); }
        if i == 10 { assert(x == seq!['a', 'r', 'w']); }
        if i == 11 { assert(x == seq!['c', 'r', '2']); }
        if i == 12 { assert(x == seq!['c', 'r', '3']); }
        if i == 13 { assert(x == seq!['n', 'e', 'f']); }
        if i == 14 { assert(x == seq!['n', 'r', 'w']); }
        if i == 15 { assert(x == seq!['o', 'r', 'f']); }
        if i == 16 { assert(x == seq!['r', 'a', 'f']); }
        if i == 17 { assert(x == seq!['r', 'w', '2']); }
        if i == 18 { assert(x == seq!['d', 'n', 'g']); }
    }
    if format_of_extension(e) is Some {
        if e == seq!['p', 'n', 'g'] { assert(dialog_extensions()[0] == e); }
        if e == seq!['j', 'p', 'g'] { assert(dialog_extensions()[1] == e); }
        if e == seq!['j', 'p', 'e', 'g'] { assert(dialog_extensions()[2] == e); }
        if e == seq!['w', 'e', 'b', 'p'] { assert(dialog_extensions()[3] == e); }
        if e == seq!['b', 'm', 'p'] { assert(dialog_extensions()[4] == e); }
        if e == seq!['t', 'i', 'f', 'f'] { assert(dialog_extensions()[5] == e); }
        if e == seq!['t', 'i', 'f'] { assert(dialog_extensions()[6] == e); }
        if e == seq!['g', 'i', 'f'] { assert(dialog_extensions()[7] == e); }
        if e == seq!['e', 'x', 'r'] { assert(dialog_extensions()[8] == e); }
        if e == seq!['s', 'v', 'g'] { assert(dialog_extensions()[9] == e); }
        if e == seq!['a', 'r', 'w'] { assert(dialog_extensions()[10] == e); }
        if e == seq!['c', 'r', '2'] { assert(dialog_extensions()[11] == e); }
        if e == seq!['c', 'r', '3'] { assert(dialog_extensions()[12] == e); }
        if e == seq!['n', 'e', 'f'] { assert(dialog_extensions()[13] == e); }
        if e == seq!['n', 'r', 'w'] { assert(dialog_extensions()[14] == e); }
        if e == seq!['o', 'r', 'f'] { assert(dialog_extensions()[15] == e); }
        if e == seq!['r', 'a', 'f'] { assert(dialog_extensions()[16] == e); }
        if e == seq!['r', 'w', '2'] { assert(dialog_extensions()[17] == e); }
        if e == seq!['d', 'n', 'g'] { assert(dialog_extensions()[18] == e); }
    }
}

} // verus!
