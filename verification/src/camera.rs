//! Camera metadata: the EXIF fields of a photo turned into the entries of
//! the info panel.

use vstd::prelude::*;
use exif::Context::{Exif, Gps, Interop, Tiff};
use exif::{In, Reader, Value};
use std::io::Cursor;
use crate::text::{chars_of, string_of, lowercase, lowercase_of, trim_chars, trim_spec, contains_chars,
    contains_seq, push_all, push_str, is_white_space, white_space, slice_chars};
use crate::meta::{MetaEntry, entries_view, opt_chars};
use crate::tiff::{tiff_header_spec, find_tiff_header};
use crate::formats::{SupportedFormat, guessed_format_of, guessed_format};

verus! {

// ---------------------------------------------------------------------------
// Device name
// ---------------------------------------------------------------------------

/// The device name made of the EXIF `Make` and `Model` strings (trimmed):
/// the model alone when it already names the make (ignoring case), else
/// both separated by a space.
pub open spec fn device_name(make: Option<Seq<char>>, model: Option<Seq<char>>) -> Option<Seq<char>> {
    match (make, model) {
        (Some(mk), Some(md)) => {
            let a = trim_spec(mk);
            let b = trim_spec(md);
            if contains_seq(lowercase_of(b), lowercase_of(a)) { Some(b) } else { Some(a + seq![' '] + b) }
        },
        (Some(mk), None) => Some(trim_spec(mk)),
        (None, Some(md)) => Some(trim_spec(md)),
        (None, None) => None,
    }
}

fn trimmed(s: &String) -> (r: Vec<char>)
    ensures
        r@ == trim_spec(s@),
{
    let v = chars_of(s.as_str());
    trim_chars(&v)
}

/// Combines the `Make` and `Model` strings into one device name.
pub fn combine_make_model(make: Option<String>, model: Option<String>) -> (r: Option<String>)
    ensures
        opt_chars(r) == device_name(opt_chars(make), opt_chars(model)),
{
    match (make, model) {
        (Some(mk), Some(md)) => {
            let a = trimmed(&mk);
            let b = trimmed(&md);
            let a_s = string_of(a.as_slice());
            let b_s = string_of(b.as_slice());
            let a_low = lowercase(a_s.as_str());
            let b_low = lowercase(b_s.as_str());
            let al = chars_of(a_low.as_str());
            let bl = chars_of(b_low.as_str());
            if contains_chars(&bl, &al) {
                Some(b_s)
            } else {
                let mut out = a;
                out.push(' ');
                push_all(&mut out, &b);
                Some(string_of(out.as_slice()))
            }
        },
        (Some(mk), None) => {
            let a = trimmed(&mk);
            Some(string_of(a.as_slice()))
        },
        (None, Some(md)) => {
            let b = trimmed(&md);
            Some(string_of(b.as_slice()))
        },
        (None, None) => None,
    }
}

// ---------------------------------------------------------------------------
// Timestamps
// ---------------------------------------------------------------------------

/// Where the word that starts at `i` ends (at the next white space).
pub open spec fn word_end(s: Seq<char>, i: int) -> int
    decreases s.len() - i,
{
    if i < 0 || i >= s.len() || is_white_space(s[i]) { i } else { word_end(s, i + 1) }
}

/// The white-space separated words of `s` from `i` on (`str::split_whitespace`).
pub open spec fn words_from(s: Seq<char>, i: int) -> Seq<Seq<char>>
    decreases s.len() - i,
{
    if i < 0 || i >= s.len() {
        Seq::empty()
    } else if is_white_space(s[i]) {
        words_from(s, i + 1)
    } else {
        let e = word_end(s, i);
        if e <= i || e > s.len() { Seq::empty() } else { seq![s.subrange(i, e)] + words_from(s, e) }
    }
}

/// `s` with each `:` replaced by `-`.
pub open spec fn colon_to_dash(s: Seq<char>) -> Seq<char> {
    Seq::new(s.len(), |i: int| if s[i] == ':' { '-' } else { s[i] })
}

/// The ISO 8601 form of an EXIF date-time: `YYYY:MM:DD HH:MM:SS` becomes
/// `YYYY-MM-DDTHH:MM:SS`, followed by `.` and the sub-seconds and by the
/// offset (with a `+` added when it has no sign). A date-time that is not
/// exactly two words is returned as it is.
pub open spec fn iso_timestamp(dt: Option<Seq<char>>, offset: Option<Seq<char>>, subsec: Option<Seq<char>>)
    -> Option<Seq<char>>
{
    match dt {
        None => None,
        Some(d) => {
            let parts = words_from(d, 0);
            if parts.len() != 2 {
                Some(d)
            } else {
                let base = colon_to_dash(parts[0]) + seq!['T'] + parts[1];
                let with_sub = match subsec {
                    Some(ss) => base + seq!['.'] + trim_spec(ss),
                    None => base,
                };
                match offset {
                    Some(off) => {
                        let o = trim_spec(off);
                        if o.len() > 0 && (o[0] == '+' || o[0] == '-') {
                            Some(with_sub + o)
                        } else {
                            Some(with_sub + seq!['+'] + o)
                        }
                    },
                    None => Some(with_sub),
                }
            }
        },
    }
}

proof fn lemma_word_end(s: Seq<char>, i: int)
    requires
        0 <= i <= s.len(),
    ensures
        i <= word_end(s, i) <= s.len(),
        forall|k: int| i <= k < word_end(s, i) ==> !is_white_space(#[trigger] s[k]),
        word_end(s, i) < s.len() ==> is_white_space(s[word_end(s, i)]),
    decreases s.len() - i,
{
    if i < s.len() && !is_white_space(s[i]) {
        lemma_word_end(s, i + 1);
    }
}

/// The words of `s` (`str::split_whitespace`).
pub fn split_words(s: &Vec<char>) -> (r: Vec<Vec<char>>)
    ensures
        crate::paths::views(r@) == words_from(s@, 0),
{
    let mut out: Vec<Vec<char>> = Vec::new();
    let mut i: usize = 0;
    while i < s.len()
        invariant
            i <= s.len(),
            words_from(s@, 0) == crate::paths::views(out@) + words_from(s@, i as int),
        decreases s.len() - i,
    {
        if white_space(s[i]) {
            i = i + 1;
        } else {
            let mut e = i;
            while e < s.len() && !white_space(s[e])
                invariant
                    i <= e <= s.len(),
                    word_end(s@, i as int) == word_end(s@, e as int),
                decreases s.len() - e,
            {
                e = e + 1;
            }
            proof { lemma_word_end(s@, i as int); }
            let w = slice_chars(s, i, e);
            let ghost before = out@;
            out.push(w);
            proof {
                assert(crate::paths::views(out@) =~= crate::paths::views(before).push(w@));
                assert(words_from(s@, i as int) == seq![w@] + words_from(s@, e as int));
                assert(crate::paths::views(out@) + words_from(s@, e as int)
                    =~= crate::paths::views(before) + words_from(s@, i as int));
            }
            i = e;
        }
    }
    proof { assert(crate::paths::views(out@) + Seq::<Seq<char>>::empty() =~= crate::paths::views(out@)); }
    out
}

/// Builds an ISO 8601 timestamp from the EXIF date-time, its offset and
/// sub-seconds (see [`iso_timestamp`]).
pub fn format_iso_timestamp(dt: Option<String>, offset: Option<String>, subsec: Option<String>) -> (r: Option<String>)
    ensures
        opt_chars(r) == iso_timestamp(opt_chars(dt), opt_chars(offset), opt_chars(subsec)),
{
    let d = match dt {
        Some(d) => d,
        None => return None,
    };
    let dv = chars_of(d.as_str());
    let parts = split_words(&dv);
    if parts.len() != 2 {
        return Some(d);
    }
    let mut out: Vec<char> = Vec::new();
    let date = &parts[0];
    let mut k: usize = 0;
    while k < date.len()
        invariant
            k <= date.len(),
            out@ == colon_to_dash(date@).take(k as int),
        decreases date.len() - k,
    {
        let c = date[k];
        out.push(if c == ':' { '-' } else { c });
        k = k + 1;
        proof { assert(out@ =~= colon_to_dash(date@).take(k as int)); }
    }
    proof { assert(colon_to_dash(date@).take(date.len() as int) =~= colon_to_dash(date@)); }
    out.push('T');
    push_all(&mut out, &parts[1]);
    proof {
        assert(crate::paths::views(parts@)[0] == parts@[0]@);
        assert(crate::paths::views(parts@)[1] == parts@[1]@);
    }
    match subsec {
        Some(ss) => {
            out.push('.');
            let t = trimmed(&ss);
            push_all(&mut out, &t);
        },
        None => {},
    }
    match offset {
        Some(off) => {
            let o = trimmed(&off);
            if o.len() > 0 && (o[0] == '+' || o[0] == '-') {
                push_all(&mut out, &o);
            } else {
                out.push('+');
                push_all(&mut out, &o);
            }
        },
        None => {},
    }
    let r = Some(string_of(out.as_slice()));
    proof {
        let ds = opt_chars(Some(d));
        assert(r->0@ =~= iso_timestamp(Some(d@), opt_chars(offset), opt_chars(subsec))->0);
    }
    r
}

// ---------------------------------------------------------------------------
// EXIF fields
// ---------------------------------------------------------------------------

/// The IFD context of a tag, as the `exif` crate numbers its `Context` variants.
pub const CONTEXT_TIFF: u8 = 0;
pub const CONTEXT_EXIF: u8 = 1;
pub const CONTEXT_GPS: u8 = 2;
pub const CONTEXT_INTEROP: u8 = 3;

/// One EXIF field as the info panel reads it: its tag (context and number),
/// whether it belongs to the primary image, and its texts.
pub struct ExifField {
    pub context: u8,
    pub number: u16,
    pub primary: bool,
    /// The tag's name (`Tag`'s `Display`).
    pub name: String,
    /// The value as the crate displays it.
    pub display: String,
    /// The value with its unit.
    pub display_with_unit: String,
    /// The first value as an unsigned integer, when it is one.
    pub first_uint: Option<u32>,
    /// The values as (numerator, denominator) pairs, when they are
    /// unsigned rationals; empty otherwise.
    pub rationals: Vec<(u32, u32)>,
}

/// Tags whose fields are noise in the panel.
pub open spec fn blocked_tags() -> Seq<(u8, u16)> {
    seq![(1u8, 0x9101u16), (0u8, 0x213u16), (1u8, 0x9000u16), (1u8, 0xa000u16), (3u8, 0x1u16),
        (0u8, 0x100u16), (0u8, 0x101u16), (1u8, 0xa002u16), (1u8, 0xa003u16)]
}

/// Tags that the curated part of the panel shows.
pub open spec fn handled_tags() -> Seq<(u8, u16)> {
    seq![(0u8, 0x10eu16), (0u8, 0x10fu16), (0u8, 0x110u16), (1u8, 0x9003u16), (1u8, 0x9011u16),
        (1u8, 0x9291u16), (0u8, 0x131u16), (1u8, 0x829du16), (1u8, 0x829au16), (1u8, 0x8827u16),
        (1u8, 0x920au16), (2u8, 0x2u16), (2u8, 0x1u16), (2u8, 0x4u16), (2u8, 0x3u16), (2u8, 0x6u16),
        (2u8, 0x5u16), (2u8, 0x11u16), (0u8, 0x112u16), (1u8, 0xa001u16), (1u8, 0x9207u16),
        (1u8, 0x9209u16), (1u8, 0xa403u16)]
}

/// The first field of the primary image with the given tag, from `i` on.
pub open spec fn first_field_from(fs: Seq<ExifField>, ctx: u8, num: u16, i: int) -> Option<int>
    decreases fs.len() - i,
{
    if i < 0 || i >= fs.len() {
        None
    } else if fs[i].primary && fs[i].context == ctx && fs[i].number == num {
        Some(i)
    } else {
        first_field_from(fs, ctx, num, i + 1)
    }
}

pub open spec fn first_field(fs: Seq<ExifField>, ctx: u8, num: u16) -> Option<int> {
    first_field_from(fs, ctx, num, 0)
}

/// The displayed value of that field.
pub open spec fn display_of(fs: Seq<ExifField>, ctx: u8, num: u16) -> Option<Seq<char>> {
    match first_field(fs, ctx, num) {
        Some(i) => Some(fs[i].display@),
        None => None,
    }
}

/// `v` with `suffix` appended, when there is a `v`.
pub open spec fn suffixed(v: Option<Seq<char>>, prefix: Seq<char>, suffix: Seq<char>) -> Option<Seq<char>> {
    match v {
        Some(x) => Some(prefix + x + suffix),
        None => None,
    }
}

/// A one-entry sequence when there is a value.
pub open spec fn entry_if(key: Seq<char>, v: Option<Seq<char>>) -> Seq<(Seq<char>, Seq<char>, bool)> {
    match v {
        Some(x) => seq![(key, x, false)],
        None => Seq::empty(),
    }
}

/// The Orientation field shown as a rotation for the pure rotations.
pub open spec fn orientation_text(f: ExifField) -> Seq<char> {
    match f.first_uint {
        Some(1u32) => "0°"@,
        Some(6u32) => "90° CW"@,
        Some(3u32) => "180°"@,
        Some(8u32) => "270° CW"@,
        _ => f.display@,
    }
}

/// The curated entries, in panel order. `exposure` is the formatted
/// exposure time of the ExposureTime field and `latitude`, `longitude`,
/// `altitude` the formatted GPS values, as the caller computed them.
pub open spec fn main_exif_entries(fs: Seq<ExifField>, exposure: Option<Seq<char>>, latitude: Option<Seq<char>>,
    longitude: Option<Seq<char>>, altitude: Option<Seq<char>>) -> Seq<(Seq<char>, Seq<char>, bool)>
{
    let desc = match display_of(fs, 0, 0x10e) {
        Some(v) => if v.len() > 0 { Some(v) } else { None },
        None => None,
    };
    let expo = match first_field(fs, 1, 0x829a) {
        Some(i) => match exposure { Some(x) => Some(x), None => Some(fs[i].display@) },
        None => None,
    };
    let orient = match first_field(fs, 0, 0x112) {
        Some(i) => Some(orientation_text(fs[i])),
        None => None,
    };
    entry_if("Description"@, desc)
        + entry_if("Device"@, device_name(display_of(fs, 0, 0x10f), display_of(fs, 0, 0x110)))
        + entry_if("Timestamp"@, iso_timestamp(display_of(fs, 1, 0x9003), display_of(fs, 1, 0x9011),
            display_of(fs, 1, 0x9291)))
        + entry_if("Software"@, display_of(fs, 0, 0x131))
        + entry_if("Aperture"@, suffixed(display_of(fs, 1, 0x829d), "f/"@, Seq::empty()))
        + entry_if("Exposure"@, expo)
        + entry_if("ISO"@, display_of(fs, 1, 0x8827))
        + entry_if("Focal Length"@, suffixed(display_of(fs, 1, 0x920a), Seq::empty(), " mm"@))
        + entry_if("Latitude"@, latitude)
        + entry_if("Longitude"@, longitude)
        + entry_if("Altitude"@, altitude)
        + entry_if("Direction"@, suffixed(display_of(fs, 2, 0x11), Seq::empty(), "°"@))
        + entry_if("Orientation"@, orient)
        + entry_if("Color Space"@, display_of(fs, 1, 0xa001))
        + entry_if("Metering"@, display_of(fs, 1, 0x9207))
        + entry_if("Flash"@, display_of(fs, 1, 0x9209))
        + entry_if("White Balance"@, display_of(fs, 1, 0xa403))
}

/// A field of the primary image that neither the curated part shows nor
/// the block list hides.
pub open spec fn is_other_field(f: ExifField) -> bool {
    f.primary && !handled_tags().contains((f.context, f.number)) && !blocked_tags().contains((f.context, f.number))
}

/// The remaining fields, in order, as `(name, value with unit)` entries.
pub open spec fn other_exif_entries(fs: Seq<ExifField>) -> Seq<(Seq<char>, Seq<char>, bool)>
    decreases fs.len(),
{
    if fs.len() == 0 {
        Seq::empty()
    } else {
        let rest = other_exif_entries(fs.drop_last());
        let f = fs.last();
        if is_other_field(f) { rest.push((f.name@, f.display_with_unit@, false)) } else { rest }
    }
}

/// The panel entries of an EXIF block: the curated entries, then, if any
/// field is left, an "Other Metadata" header and the remaining fields.
pub open spec fn exif_entries(fs: Seq<ExifField>, exposure: Option<Seq<char>>, latitude: Option<Seq<char>>,
    longitude: Option<Seq<char>>, altitude: Option<Seq<char>>) -> Seq<(Seq<char>, Seq<char>, bool)>
{
    let others = other_exif_entries(fs);
    main_exif_entries(fs, exposure, latitude, longitude, altitude)
        + if others.len() > 0 { seq![("Other Metadata"@, Seq::<char>::empty(), true)] + others } else { Seq::empty() }
}

/// Index of the first field of the primary image with the given tag.
pub fn primary_field(fields: &Vec<ExifField>, context: u8, number: u16) -> (r: Option<usize>)
    ensures
        match r {
            Some(i) => first_field(fields@, context, number) == Some(i as int) && i < fields.len(),
            None => first_field(fields@, context, number) is None,
        },
{
    let mut i: usize = 0;
    while i < fields.len()
        invariant
            i <= fields.len(),
            first_field(fields@, context, number) == first_field_from(fields@, context, number, i as int),
        decreases fields.len() - i,
    {
        if fields[i].primary && fields[i].context == context && fields[i].number == number {
            return Some(i);
        }
        i = i + 1;
    }
    None
}

fn display_field(fields: &Vec<ExifField>, context: u8, number: u16) -> (r: Option<String>)
    ensures
        opt_chars(r) == display_of(fields@, context, number),
{
    match primary_field(fields, context, number) {
        Some(i) => Some(fields[i].display.clone()),
        None => None,
    }
}

fn with_affixes(v: Option<String>, prefix: &str, suffix: &str) -> (r: Option<String>)
    ensures
        opt_chars(r) == suffixed(opt_chars(v), prefix@, suffix@),
{
    match v {
        Some(x) => {
            let mut out = chars_of(prefix);
            push_str(&mut out, x.as_str());
            push_str(&mut out, suffix);
            Some(string_of(out.as_slice()))
        },
        None => None,
    }
}

fn push_entry(out: &mut Vec<MetaEntry>, key: &str, v: Option<String>)
    ensures
        entries_view(final(out)@) == entries_view(old(out)@) + entry_if(key@, opt_chars(v)),
{
    match v {
        Some(x) => {
            out.push(MetaEntry { key: key.to_owned(), value: x, is_header: false });
        },
        None => {},
    }
    proof { assert(entries_view(out@) =~= entries_view(old(out)@) + entry_if(key@, opt_chars(v))); }
}

fn orientation_value(f: &ExifField) -> (r: String)
    ensures
        r@ == orientation_text(*f),
{
    match f.first_uint {
        Some(1u32) => "0°".to_owned(),
        Some(6u32) => "90° CW".to_owned(),
        Some(3u32) => "180°".to_owned(),
        Some(8u32) => "270° CW".to_owned(),
        _ => f.display.clone(),
    }
}

fn tag_in(list: &[(u8, u16)], t: (u8, u16)) -> (b: bool)
    ensures
        b == list@.contains(t),
{
    let mut i: usize = 0;
    while i < list.len()
        invariant
            i <= list.len(),
            forall|k: int| 0 <= k < i ==> list@[k] != t,
        decreases list.len() - i,
    {
        if list[i].0 == t.0 && list[i].1 == t.1 {
            proof { assert(list@[i as int] == t); }
            return true;
        }
        i = i + 1;
    }
    false
}

fn is_other(f: &ExifField) -> (b: bool)
    ensures
        b == is_other_field(*f),
{
    let blocked: [(u8, u16); 9] = [(1u8, 0x9101u16), (0u8, 0x213u16), (1u8, 0x9000u16), (1u8, 0xa000u16), (3u8, 0x1u16),
        (0u8, 0x100u16), (0u8, 0x101u16), (1u8, 0xa002u16), (1u8, 0xa003u16)];
    let handled: [(u8, u16); 23] = [(0u8, 0x10eu16), (0u8, 0x10fu16), (0u8, 0x110u16), (1u8, 0x9003u16), (1u8, 0x9011u16),
        (1u8, 0x9291u16), (0u8, 0x131u16), (1u8, 0x829du16), (1u8, 0x829au16), (1u8, 0x8827u16),
        (1u8, 0x920au16), (2u8, 0x2u16), (2u8, 0x1u16), (2u8, 0x4u16), (2u8, 0x3u16), (2u8, 0x6u16),
        (2u8, 0x5u16), (2u8, 0x11u16), (0u8, 0x112u16), (1u8, 0xa001u16), (1u8, 0x9207u16),
        (1u8, 0x9209u16), (1u8, 0xa403u16)];
    proof {
        assert(blocked@ =~= blocked_tags());
        assert(handled@ =~= handled_tags());
    }
    f.primary && !tag_in(&handled, (f.context, f.number)) && !tag_in(&blocked, (f.context, f.number))
}

/// The info-panel entries of a photo's EXIF fields (see [`exif_entries`]).
pub fn curate_exif(fields: &Vec<ExifField>, exposure: Option<String>, latitude: Option<String>,
    longitude: Option<String>, altitude: Option<String>) -> (r: Vec<MetaEntry>)
    ensures
        entries_view(r@) == exif_entries(fields@, opt_chars(exposure), opt_chars(latitude),
            opt_chars(longitude), opt_chars(altitude)),
{
    let ghost fs = fields@;
    let mut out: Vec<MetaEntry> = Vec::new();

    let desc = match display_field(fields, 0, 0x10e) {
        Some(v) => if v.as_str().is_empty() { None } else { Some(v) },
        None => None,
    };
    push_entry(&mut out, "Description", desc);
    let device = combine_make_model(display_field(fields, 0, 0x10f), display_field(fields, 0, 0x110));
    push_entry(&mut out, "Device", device);
    let ts = format_iso_timestamp(display_field(fields, 1, 0x9003), display_field(fields, 1, 0x9011),
        display_field(fields, 1, 0x9291));
    push_entry(&mut out, "Timestamp", ts);
    push_entry(&mut out, "Software", display_field(fields, 0, 0x131));
    push_entry(&mut out, "Aperture", with_affixes(display_field(fields, 1, 0x829d), "f/", ""));
    let expo = match primary_field(fields, 1, 0x829a) {
        Some(i) => match exposure {
            Some(x) => Some(x),
            None => Some(fields[i].display.clone()),
        },
        None => None,
    };
    push_entry(&mut out, "Exposure", expo);
    push_entry(&mut out, "ISO", display_field(fields, 1, 0x8827));
    push_entry(&mut out, "Focal Length", with_affixes(display_field(fields, 1, 0x920a), "", " mm"));
    push_entry(&mut out, "Latitude", latitude);
    push_entry(&mut out, "Longitude", longitude);
    push_entry(&mut out, "Altitude", altitude);
    push_entry(&mut out, "Direction", with_affixes(display_field(fields, 2, 0x11), "", "°"));
    let orient = match primary_field(fields, 0, 0x112) {
        Some(i) => Some(orientation_value(&fields[i])),
        None => None,
    };
    push_entry(&mut out, "Orientation", orient);
    push_entry(&mut out, "Color Space", display_field(fields, 1, 0xa001));
    push_entry(&mut out, "Metering", display_field(fields, 1, 0x9207));
    push_entry(&mut out, "Flash", display_field(fields, 1, 0x9209));
    push_entry(&mut out, "White Balance", display_field(fields, 1, 0xa403));
    proof {
        reveal_strlit("");
        assert(""@ =~= Seq::<char>::empty());
        assert(entries_view(out@) =~= main_exif_entries(fs, opt_chars(exposure), opt_chars(latitude),
            opt_chars(longitude), opt_chars(altitude)));
    }

    let mut others: Vec<MetaEntry> = Vec::new();
    let mut i: usize = 0;
    while i < fields.len()
        invariant
            i <= fields.len(),
            fs == fields@,
            entries_view(others@) == other_exif_entries(fs.take(i as int)),
        decreases fields.len() - i,
    {
        proof { assert(fs.take(i + 1).drop_last() =~= fs.take(i as int)); }
        if is_other(&fields[i]) {
            others.push(MetaEntry {
                key: fields[i].name.clone(),
                value: fields[i].display_with_unit.clone(),
                is_header: false,
            });
        }
        i = i + 1;
        proof { assert(entries_view(others@) =~= other_exif_entries(fs.take(i as int))); }
    }
    proof { assert(fs.take(fields.len() as int) =~= fs); }
    let ghost main = entries_view(out@);
    if others.len() > 0 {
        out.push(MetaEntry { key: "Other Metadata".to_owned(), value: String::new(), is_header: true });
        let ghost head = out@;
        let ghost tail = others@;
        out.append(&mut others);
        proof {
            assert(entries_view(head) =~= main + seq![("Other Metadata"@, Seq::<char>::empty(), true)]);
            assert(entries_view(out@) =~= entries_view(head) + entries_view(tail));
            assert(entries_view(out@) =~= main + (seq![("Other Metadata"@, Seq::<char>::empty(), true)]
                + entries_view(tail)));
        }
    } else {
        proof { assert(entries_view(out@) =~= main + Seq::<(Seq<char>, Seq<char>, bool)>::empty()); }
    }
    out
}

// ---------------------------------------------------------------------------
// Orientation in a byte buffer
// ---------------------------------------------------------------------------

/// The first value of the Orientation field of the primary image that the
/// `exif` crate reads from a container (JPEG, TIFF, PNG, HEIF, WebP) held in
/// `data`; `None` when it reads none or the value is no unsigned integer.
pub uninterp spec fn exif_orientation_of(data: Seq<u8>) -> Option<u32>;

/// `exif::Reader::read_from_container` on the bytes, then
/// `Exif::get_field(Tag::Orientation, In::PRIMARY)` and `Value::get_uint(0)`.
/// Trusted: the result is named by [`exif_orientation_of`], a function of
/// the bytes alone; nothing more is claimed.
#[verifier::external_body]
fn read_orientation(data: &[u8]) -> (r: Option<u32>)
    ensures
        r == exif_orientation_of(data@),
{
    let mut reader = std::io::Cursor::new(data);
    let exif = exif::Reader::new().read_from_container(&mut reader).ok()?;
    exif.get_field(exif::Tag::Orientation, exif::In::PRIMARY)?.value.get_uint(0)
}

/// The EXIF Orientation value (normally 1–8) stored in a byte buffer.
pub fn get_orientation_from_bytes(data: &[u8]) -> (r: Option<u32>)
    ensures
        r == exif_orientation_of(data@),
{
    read_orientation(data)
}

// ---------------------------------------------------------------------------
// EXIF of a file
// ---------------------------------------------------------------------------

/// One EXIF field as plain values: context, tag number, primary image, tag
/// name, value, value with unit, first unsigned value, rationals.
pub open spec fn exif_field_view(f: ExifField) -> (u8, u16, bool, Seq<char>, Seq<char>, Seq<char>, Option<u32>, Seq<(u32, u32)>) {
    (f.context, f.number, f.primary, f.name@, f.display@, f.display_with_unit@, f.first_uint, f.rationals@)
}

pub open spec fn exif_fields_view(r: Option<Vec<ExifField>>)
    -> Option<Seq<(u8, u16, bool, Seq<char>, Seq<char>, Seq<char>, Option<u32>, Seq<(u32, u32)>)>>
{
    match r {
        Some(v) => Some(v@.map_values(|f: ExifField| exif_field_view(f))),
        None => None,
    }
}

/// The fields that the `exif` crate reads from a container held in `data`,
/// in its order; `None` when it reads none.
pub uninterp spec fn exif_fields_of(data: Seq<u8>)
    -> Option<Seq<(u8, u16, bool, Seq<char>, Seq<char>, Seq<char>, Option<u32>, Seq<(u32, u32)>)>>;

/// `exif::Reader::read_from_container` on the bytes, then `Exif::fields`
/// with each field's tag context (numbered as [`CONTEXT_TIFF`] to
/// [`CONTEXT_INTEROP`], 255 for a context the crate may add) and number, whether it is in the primary
/// image, the tag's and the value's `Display` (also `with_unit`), the first
/// value by `Value::get_uint`, and the values of a `Value::Rational`.
/// Trusted: the result is named by [`exif_fields_of`], a function of the
/// bytes alone; nothing more is claimed.
#[verifier::external_body]
fn exif_fields(data: &[u8]) -> (r: Option<Vec<ExifField>>)
    ensures
        exif_fields_view(r) == exif_fields_of(data@),
{
    let exif = Reader::new().read_from_container(&mut Cursor::new(data)).ok()?;
    Some(exif.fields().map(|f| ExifField {
        context: match f.tag.context() {
            Tiff => 0, Exif => 1, Gps => 2, Interop => 3, _ => 255
        },
        number: f.tag.number(),
        primary: f.ifd_num == In::PRIMARY,
        name: f.tag.to_string(),
        display: f.display_value().to_string(),
        display_with_unit: f.display_value().with_unit(&exif).to_string(),
        first_uint: f.value.get_uint(0),
        rationals: match &f.value { Value::Rational(v) => v.iter().map(|q| (q.num, q.denom)).collect(), _ => vec![] }
    }).collect())
}

/// How much of a file is searched for a TIFF header: its first MiB.
pub open spec fn header_window(data: Seq<u8>) -> Seq<u8> {
    data.take(if data.len() < 0x10_0000 { data.len() as int } else { 0x10_0000 })
}

/// Where the EXIF data of a file is read from: its first TIFF header within
/// the first MiB, or its start.
pub open spec fn exif_offset(data: Seq<u8>) -> int {
    match tiff_header_spec(header_window(data)) {
        Some(i) => i,
        None => 0,
    }
}

fn header_in_window(data: &[u8]) -> (r: Option<usize>)
    ensures
        match r {
            Some(i) => tiff_header_spec(header_window(data@)) == Some(i as int) && i <= data@.len(),
            None => tiff_header_spec(header_window(data@)) is None,
        },
{
    let n = if data.len() < 0x10_0000 { data.len() } else { 0x10_0000 };
    let window = vstd::slice::slice_subrange(data, 0, n);
    proof { assert(window@ =~= header_window(data@)); }
    let r = find_tiff_header(window);
    proof {
        crate::tiff::lemma_first_bytes_found(window@, crate::tiff::tiff_le_magic(), 0);
        crate::tiff::lemma_first_bytes_found(window@, crate::tiff::tiff_be_magic(), 0);
    }
    r
}

/// The EXIF fields of a file's bytes, read from [`exif_offset`] on.
pub fn exif_fields_of_file(data: &[u8]) -> (r: Option<Vec<ExifField>>)
    ensures
        exif_fields_view(r) == exif_fields_of(data@.skip(exif_offset(data@))),
{
    let o = match header_in_window(data) {
        Some(i) => i,
        None => 0,
    };
    let rest = vstd::slice::slice_subrange(data, o, data.len());
    proof { assert(rest@ =~= data@.skip(o as int)); }
    exif_fields(rest)
}

/// The Orientation value of a file: JPEG, TIFF and WebP files (by their
/// bytes, as `image` guesses) are read from their start; other files from
/// their first TIFF header within the first MiB, and have none without one.
pub open spec fn file_orientation(data: Seq<u8>) -> Option<u32> {
    match guessed_format_of(data) {
        Some(SupportedFormat::Jpeg) | Some(SupportedFormat::Tiff) | Some(SupportedFormat::WebP) => exif_orientation_of(data),
        _ => match tiff_header_spec(header_window(data)) {
            Some(i) => exif_orientation_of(data.skip(i)),
            None => None,
        },
    }
}

/// The EXIF Orientation value of a file's bytes (see [`file_orientation`]).
pub fn orientation_of_file(data: &[u8]) -> (r: Option<u32>)
    ensures
        r == file_orientation(data@),
{
    match guessed_format(data) {
        Some(SupportedFormat::Jpeg) | Some(SupportedFormat::Tiff) | Some(SupportedFormat::WebP) => read_orientation(data),
        _ => match header_in_window(data) {
            Some(i) => {
                let rest = vstd::slice::slice_subrange(data, i, data.len());
                proof { assert(rest@ =~= data@.skip(i as int)); }
                read_orientation(rest)
            },
            None => None,
        },
    }
}

/// Law: an offset written with its sign (either `+` or `-`) is appended as
/// it is, trimmed; one without a sign gets a `+`. Either way the timestamp
/// is the one without an offset followed by the offset.
pub proof fn law_timestamp_offset(d: Seq<char>, off: Seq<char>, subsec: Option<Seq<char>>)
    requires
        words_from(d, 0).len() == 2,
    ensures
        iso_timestamp(Some(d), None, subsec) is Some,
        trim_spec(off).len() > 0 && (trim_spec(off)[0] == '-' || trim_spec(off)[0] == '+')
            ==> iso_timestamp(Some(d), Some(off), subsec)
                == Some(iso_timestamp(Some(d), None, subsec)->0 + trim_spec(off)),
        !(trim_spec(off).len() > 0 && (trim_spec(off)[0] == '-' || trim_spec(off)[0] == '+'))
            ==> iso_timestamp(Some(d), Some(off), subsec)
                == Some(iso_timestamp(Some(d), None, subsec)->0 + seq!['+'] + trim_spec(off)),
{
}

/// Law: a negative offset (west of UTC) ends the timestamp as written, and
/// nothing is put between it and the time: the timestamp is exactly the one
/// without an offset, followed by the trimmed offset.
pub proof fn law_timestamp_west_of_utc(d: Seq<char>, off: Seq<char>, subsec: Option<Seq<char>>)
    requires
        words_from(d, 0).len() == 2,
        trim_spec(off).len() > 0,
        trim_spec(off)[0] == '-',
    ensures
        ({
            let t = iso_timestamp(Some(d), Some(off), subsec)->0;
            let base = iso_timestamp(Some(d), None, subsec)->0;
            let o = trim_spec(off);
            &&& iso_timestamp(Some(d), Some(off), subsec) is Some
            &&& t.len() == base.len() + o.len()
            &&& t.subrange(0, base.len() as int) == base
            &&& t.subrange(base.len() as int, t.len() as int) == o
        }),
{
    law_timestamp_offset(d, off, subsec);
    let base = iso_timestamp(Some(d), None, subsec)->0;
    let o = trim_spec(off);
    let t = base + o;
    assert(t.subrange(0, base.len() as int) =~= base);
    assert(t.subrange(base.len() as int, t.len() as int) =~= o);
}

} // verus!
