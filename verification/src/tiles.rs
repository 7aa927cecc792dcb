//! Decoding the JPEG-compressed image of a TIFF/DNG file: each strip or tile
//! is a JPEG stream of its own, and the decoded pieces are copied onto one
//! RGBA canvas.

use vstd::prelude::*;
use crate::dng::DngCandidate;
use crate::tiff::{jpeg_spans, embedded_jpeg_spans};
use crate::order::{SortKeys, stable_order};
use crate::text::{chars_of, push_str, push_all, string_of};

verus! {

/// An 8-bit RGBA image: `pixels` holds the rows top to bottom, four bytes
/// a pixel.
pub struct RgbaPixels {
    pub width: u32,
    pub height: u32,
    pub pixels: Vec<u8>,
}

pub open spec fn rgba_view(p: RgbaPixels) -> (u32, u32, Seq<u8>) {
    (p.width, p.height, p.pixels@)
}

/// The image or the error message of a decoding result, as plain values.
pub open spec fn result_view(r: Result<RgbaPixels, String>) -> Result<(u32, u32, Seq<u8>), Seq<char>> {
    match r {
        Ok(p) => Ok(rgba_view(p)),
        Err(e) => Err(e@),
    }
}

/// What the `image` crate decodes from JPEG data and converts to 8-bit
/// RGBA: width, height and pixel bytes, or the decoder's error message.
pub uninterp spec fn jpeg_rgba_of(bytes: Seq<u8>) -> Result<(u32, u32, Seq<u8>), Seq<char>>;

/// `image::load_from_memory_with_format(bytes, ImageFormat::Jpeg)` followed
/// by `DynamicImage::to_rgba8`. Trusted: the result, image or error message,
/// is named by [`jpeg_rgba_of`] and depends on the bytes alone; nothing is
/// claimed of the length of the pixel buffer.
#[verifier::external_body]
fn decode_jpeg_rgba(bytes: &[u8]) -> (r: Result<RgbaPixels, String>)
    ensures
        result_view(r) == jpeg_rgba_of(bytes@),
{
    match image::load_from_memory_with_format(bytes, image::ImageFormat::Jpeg) {
        Ok(img) => {
            let rgba = img.to_rgba8();
            Ok(RgbaPixels { width: rgba.width(), height: rgba.height(), pixels: rgba.into_raw() })
        },
        Err(e) => Err(e.to_string()),
    }
}

/// What the `len` bytes of `data` at `off` decode to as one JPEG strip or
/// tile: an error when they run past the data or do not start with the
/// JPEG start-of-image marker `FF D8`.
pub open spec fn strip_spec(data: Seq<u8>, off: int, len: int) -> Result<(u32, u32, Seq<u8>), Seq<char>> {
    if off + len > data.len() {
        Err("strip offset out of bounds"@)
    } else if len < 2 || data[off] != 0xFF || data[off + 1] != 0xD8 {
        Err("not a JPEG marker"@)
    } else {
        jpeg_rgba_of(data.subrange(off, off + len))
    }
}

/// Decodes the JPEG stream of `len` bytes at `off` in `data` (see
/// [`strip_spec`]).
pub fn decode_jpeg_strip(data: &[u8], off: usize, len: usize) -> (r: Result<RgbaPixels, String>)
    ensures
        result_view(r) == strip_spec(data@, off as int, len as int),
{
    if len > data.len() || off > data.len() - len {
        return Err("strip offset out of bounds".to_owned());
    }
    if len < 2 || data[off] != 0xFF || data[off + 1] != 0xD8 {
        return Err("not a JPEG marker".to_owned());
    }
    let bytes = vstd::slice::slice_subrange(data, off, off + len);
    decode_jpeg_rgba(bytes)
}

/// `buf` with the `n` bytes of `src` at `s` copied to `d`, when both ranges
/// lie within their buffers; otherwise `buf` unchanged.
pub open spec fn copy_run(buf: Seq<u8>, d: int, src: Seq<u8>, s: int, n: int) -> Seq<u8> {
    if 0 <= s && s + n <= src.len() && 0 <= d && d + n <= buf.len() && 0 <= n {
        Seq::new(buf.len(), |p: int| if d <= p < d + n { src[s + (p - d)] } else { buf[p] })
    } else {
        buf
    }
}

fn copy_bytes(buf: &mut Vec<u8>, d: usize, src: &Vec<u8>, s: usize, n: usize)
    requires
        s + n <= src@.len(),
        d + n <= old(buf)@.len(),
    ensures
        final(buf)@ == copy_run(old(buf)@, d as int, src@, s as int, n as int),
{
    let ghost start = buf@;
    let mut k: usize = 0;
    while k < n
        invariant
            k <= n,
            s + n <= src.len(),
            d + n <= buf.len(),
            buf@.len() == start.len(),
            forall|p: int| 0 <= p < buf@.len() ==> #[trigger] buf@[p] == (if d <= p < d + k { src@[s + (p - d)] } else { start[p] }),
        decreases n - k,
    {
        buf.set(d + k, src[s + k]);
        k = k + 1;
    }
    proof {
        assert(buf@ =~= copy_run(start, d as int, src@, s as int, n as int));
    }
}

/// The first `k` rows of a block `cw` pixels wide of `tile` copied onto a
/// canvas `canvas_w` pixels wide, the block's top-left corner at (`x0`,
/// `y0`); a row is copied only where it lies within the tile's and the
/// canvas's buffers.
pub open spec fn place_rows(
    buf: Seq<u8>,
    tile: (u32, u32, Seq<u8>),
    canvas_w: int,
    x0: int,
    y0: int,
    cw: int,
    k: int,
) -> Seq<u8>
    decreases k,
{
    if k <= 0 {
        buf
    } else {
        copy_run(
            place_rows(buf, tile, canvas_w, x0, y0, cw, k - 1),
            ((y0 + k - 1) * canvas_w + x0) * 4,
            tile.2,
            (k - 1) * tile.0 * 4,
            cw * 4,
        )
    }
}

fn place_block(buf: &mut Vec<u8>, tile: &RgbaPixels, canvas_w: u32, x0: u64, y0: u128, cw: u64, ch: u64)
    requires
        x0 < 0x1_0000_0000,
        ch == 0 || y0 + ch <= 0x1_0000_0000,
        cw < 0x1_0000_0000,
        ch < 0x1_0000_0000,
    ensures
        final(buf)@ == place_rows(old(buf)@, rgba_view(*tile), canvas_w as int, x0 as int, y0 as int, cw as int, ch as int),
{
    let ghost start = buf@;
    let mut row: u64 = 0;
    while row < ch
        invariant
            row <= ch,
            ch < 0x1_0000_0000,
            x0 < 0x1_0000_0000,
            ch == 0 || y0 + ch <= 0x1_0000_0000,
            cw < 0x1_0000_0000,
            buf@ == place_rows(start, rgba_view(*tile), canvas_w as int, x0 as int, y0 as int, cw as int, row as int),
        decreases ch - row,
    {
        let w = tile.width;
        proof {
            assert(row * w * 4 < 0x1_0000_0000_0000_0000_0000) by (nonlinear_arith)
                requires row < 0x1_0000_0000, w < 0x1_0000_0000;
            assert(((y0 + row) * canvas_w + x0) * 4 < 0x1_0000_0000_0000_0000_0000_0000_0000) by (nonlinear_arith)
                requires y0 + row < 0x1_0000_0000, canvas_w < 0x1_0000_0000, x0 < 0x1_0000_0000;
        }
        let src: u128 = row as u128 * w as u128 * 4;
        let dst: u128 = ((y0 + row as u128) * canvas_w as u128 + x0 as u128) * 4;
        let n: u128 = cw as u128 * 4;
        let ghost before = buf@;
        if src + n <= tile.pixels.len() as u128 && dst + n <= buf.len() as u128 {
            copy_bytes(buf, dst as usize, &tile.pixels, src as usize, n as usize);
        }
        proof {
            assert(buf@ == copy_run(before, ((y0 + row) * canvas_w + x0) * 4, tile.pixels@, row * w * 4, cw * 4));
        }
        row = row + 1;
    }
}

/// Tiles across a canvas `img_w` pixels wide, tiles being `tile_w` wide.
pub open spec fn tiles_across(img_w: int, tile_w: int) -> int {
    (img_w + tile_w - 1) / tile_w
}

/// The canvas before anything is copied onto it: zero bytes, four a pixel;
/// empty where that many bytes would not fit in a `u32`.
pub open spec fn blank_canvas(img_w: int, img_h: int) -> Seq<u8> {
    if img_w * img_h * 4 <= 0xFFFF_FFFF {
        Seq::new((img_w * img_h * 4) as nat, |p: int| 0u8)
    } else {
        Seq::empty()
    }
}

/// `buf` with tile `i` copied onto it: tiles are laid out row by row,
/// `tiles_across` to a row, each clipped to the canvas.
pub open spec fn place_tile(
    buf: Seq<u8>,
    tile: (u32, u32, Seq<u8>),
    i: int,
    img_w: int,
    img_h: int,
    tile_w: int,
    tile_h: int,
) -> Seq<u8> {
    let across = tiles_across(img_w, tile_w);
    let x0 = (i % across) * tile_w;
    let y0 = (i / across) * tile_h;
    let cw = if img_w - x0 < tile_w { if img_w - x0 < 0 { 0 } else { img_w - x0 } } else { tile_w };
    let ch = if img_h - y0 < tile_h { if img_h - y0 < 0 { 0 } else { img_h - y0 } } else { tile_h };
    place_rows(buf, tile, img_w, x0, y0, cw, ch)
}

/// The canvas after the first `k` tiles, or the error of the first tile
/// that does not decode.
pub open spec fn tiles_canvas(
    data: Seq<u8>,
    offsets: Seq<u32>,
    counts: Seq<u32>,
    img_w: int,
    img_h: int,
    tile_w: int,
    tile_h: int,
    k: int,
) -> Result<Seq<u8>, Seq<char>>
    decreases k,
{
    if k <= 0 {
        Ok(blank_canvas(img_w, img_h))
    } else {
        match tiles_canvas(data, offsets, counts, img_w, img_h, tile_w, tile_h, k - 1) {
            Err(e) => Err(e),
            Ok(buf) => match strip_spec(data, offsets[k - 1] as int, counts[k - 1] as int) {
                Err(e) => Err(e),
                Ok(tile) => Ok(place_tile(buf, tile, k - 1, img_w, img_h, tile_w, tile_h)),
            },
        }
    }
}

/// The image of a tiled JPEG-compressed IFD: every tile (as many as there
/// are both offsets and byte counts) decoded in order and placed; the first
/// tile that does not decode gives the error; a canvas of more than
/// `u32::MAX` bytes is an error too.
pub open spec fn tiles_spec(
    data: Seq<u8>,
    offsets: Seq<u32>,
    counts: Seq<u32>,
    img_w: u32,
    img_h: u32,
    tile_w: u32,
    tile_h: u32,
) -> Result<(u32, u32, Seq<u8>), Seq<char>> {
    let m = if offsets.len() < counts.len() { offsets.len() } else { counts.len() };
    match tiles_canvas(data, offsets, counts, img_w as int, img_h as int, tile_w as int, tile_h as int, m as int) {
        Err(e) => Err(e),
        Ok(buf) => if img_w * img_h * 4 <= 0xFFFF_FFFF {
            Ok((img_w, img_h, buf))
        } else {
            Err("buffer size mismatch for tiled assembly"@)
        },
    }
}

proof fn lemma_tiles_error_stays(
    data: Seq<u8>,
    offsets: Seq<u32>,
    counts: Seq<u32>,
    img_w: int,
    img_h: int,
    tile_w: int,
    tile_h: int,
    k: int,
    m: int,
)
    requires
        k <= m,
        tiles_canvas(data, offsets, counts, img_w, img_h, tile_w, tile_h, k) is Err,
    ensures
        tiles_canvas(data, offsets, counts, img_w, img_h, tile_w, tile_h, m)
            == tiles_canvas(data, offsets, counts, img_w, img_h, tile_w, tile_h, k),
    decreases m - k,
{
    if k < m {
        lemma_tiles_error_stays(data, offsets, counts, img_w, img_h, tile_w, tile_h, k, m - 1);
    }
}

fn canvas_bytes(img_w: u32, img_h: u32) -> (size: u128)
    ensures
        size == img_w * img_h * 4,
{
    proof {
        assert(img_w * img_h * 4 < 0x1_0000_0000_0000_0000_0000) by (nonlinear_arith)
            requires img_w < 0x1_0000_0000, img_h < 0x1_0000_0000;
    }
    img_w as u128 * img_h as u128 * 4
}

/// Where tile `i` starts: its column `i % across` puts it left of the
/// canvas's right edge, and its row index is at most `i`.
proof fn lemma_tile_origin(i: int, img_w: int, tile_w: int)
    requires
        0 <= i,
        1 <= img_w,
        1 <= tile_w,
    ensures
        tiles_across(img_w, tile_w) >= 1,
        (i % tiles_across(img_w, tile_w)) * tile_w < img_w,
        0 <= i / tiles_across(img_w, tile_w) <= i,
{
    let x = img_w + tile_w - 1;
    let q = tiles_across(img_w, tile_w);
    vstd::arithmetic::div_mod::lemma_fundamental_div_mod(x, tile_w);
    vstd::arithmetic::div_mod::lemma_mod_pos_bound(x, tile_w);
    assert(q >= 1) by (nonlinear_arith)
        requires x == tile_w * q + x % tile_w, 0 <= x % tile_w < tile_w, x >= tile_w, tile_w >= 1;
    vstd::arithmetic::div_mod::lemma_fundamental_div_mod(i, q);
    vstd::arithmetic::div_mod::lemma_mod_pos_bound(i, q);
    vstd::arithmetic::div_mod::lemma_div_pos_is_pos(i, q);
    let c = i % q;
    assert(c * tile_w < img_w) by (nonlinear_arith)
        requires x == tile_w * q + x % tile_w, 0 <= x % tile_w, x == img_w + tile_w - 1, 0 <= c < q, tile_w >= 1;
    assert(i / q <= i) by (nonlinear_arith)
        requires i == q * (i / q) + i % q, 0 <= i % q, 0 <= i / q, q >= 1;
}

fn blank(img_w: u32, img_h: u32) -> (buf: Vec<u8>)
    ensures
        buf@ == blank_canvas(img_w as int, img_h as int),
{
    let size: u128 = canvas_bytes(img_w, img_h);
    if size <= 0xFFFF_FFFF {
        let mut buf: Vec<u8> = Vec::new();
        let mut i: u128 = 0;
        while i < size
            invariant
                i <= size,
                size <= 0xFFFF_FFFF,
                buf@.len() == i,
                forall|p: int| 0 <= p < i ==> buf@[p] == 0u8,
            decreases size - i,
        {
            buf.push(0u8);
            i = i + 1;
        }
        proof { assert(buf@ =~= blank_canvas(img_w as int, img_h as int)); }
        buf
    } else {
        proof { assert(Seq::<u8>::empty() =~= blank_canvas(img_w as int, img_h as int)); }
        Vec::new()
    }
}

/// Decodes the tiles of a tiled JPEG-compressed IFD and lays them out on
/// one canvas (see [`tiles_spec`]). The tile width must not be 0, nor the
/// image width where there are tiles to place.
pub fn assemble_jpeg_tiles(
    data: &[u8],
    offsets: &[u32],
    counts: &[u32],
    img_w: u32,
    img_h: u32,
    tile_w: u32,
    tile_h: u32,
) -> (r: Result<RgbaPixels, String>)
    requires
        tile_w > 0,
        img_w > 0 || offsets@.len() == 0 || counts@.len() == 0,
    ensures
        result_view(r) == tiles_spec(data@, offsets@, counts@, img_w, img_h, tile_w, tile_h),
{
    let ghost (w, h, tw, th) = (img_w as int, img_h as int, tile_w as int, tile_h as int);
    let m: usize = if offsets.len() < counts.len() { offsets.len() } else { counts.len() };
    let mut buf = blank(img_w, img_h);
    let across: u64 = (img_w as u64 + tile_w as u64 - 1) / tile_w as u64;
    let mut i: usize = 0;
    while i < m
        invariant
            i <= m,
            m == (if offsets@.len() < counts@.len() { offsets@.len() } else { counts@.len() }),
            tile_w > 0,
            img_w > 0 || m == 0,
            across as int == tiles_across(w, tw),
            w == img_w, h == img_h, tw == tile_w, th == tile_h,
            tiles_canvas(data@, offsets@, counts@, w, h, tw, th, i as int) == Ok::<Seq<u8>, Seq<char>>(buf@),
        decreases m - i,
    {
        let tile = match decode_jpeg_strip(data, offsets[i] as usize, counts[i] as usize) {
            Ok(t) => t,
            Err(e) => {
                proof {
                    lemma_tiles_error_stays(data@, offsets@, counts@, w, h, tw, th, i + 1, m as int);
                }
                return Err(e);
            },
        };
        proof {
            lemma_tile_origin(i as int, w, tw);
            let q = i as int / across as int;
            assert(q * tile_h < 0x1_0000_0000_0000_0000_0000_0000) by (nonlinear_arith)
                requires 0 <= q <= i, i < 0x1_0000_0000_0000_0000, tile_h < 0x1_0000_0000;
        }
        let tx: u64 = i as u64 % across;
        let ty: u64 = i as u64 / across;
        let x0: u64 = tx * tile_w as u64;
        let y0: u128 = ty as u128 * tile_h as u128;
        let cw: u64 = if (img_w as u64) < x0 + tile_w as u64 {
            if (img_w as u64) < x0 { 0 } else { img_w as u64 - x0 }
        } else {
            tile_w as u64
        };
        let ch: u64 = if (img_h as u128) < y0 + tile_h as u128 {
            if (img_h as u128) < y0 { 0 } else { (img_h as u128 - y0) as u64 }
        } else {
            tile_h as u64
        };
        place_block(&mut buf, &tile, img_w, x0, y0, cw, ch);
        i = i + 1;
    }
    let size: u128 = canvas_bytes(img_w, img_h);
    if size <= 0xFFFF_FFFF {
        Ok(RgbaPixels { width: img_w, height: img_h, pixels: buf })
    } else {
        Err("buffer size mismatch for tiled assembly".to_owned())
    }
}

/// The canvas after the first `k` strips, with the row where the next
/// strip goes, or the error of the first strip that does not decode. Strips
/// are stacked top to bottom, each clipped to the canvas; once they reach
/// the canvas's bottom no further strip is decoded.
pub open spec fn strips_canvas(
    data: Seq<u8>,
    offsets: Seq<u32>,
    counts: Seq<u32>,
    img_w: int,
    img_h: int,
    k: int,
) -> Result<(Seq<u8>, int), Seq<char>>
    decreases k,
{
    if k <= 0 {
        Ok((blank_canvas(img_w, img_h), 0))
    } else {
        match strips_canvas(data, offsets, counts, img_w, img_h, k - 1) {
            Err(e) => Err(e),
            Ok((buf, y)) => if k - 1 > 0 && y >= img_h {
                Ok((buf, y))
            } else {
                match strip_spec(data, offsets[k - 1] as int, counts[k - 1] as int) {
                    Err(e) => Err(e),
                    Ok(strip) => {
                        let copy_h = if img_h - y < strip.1 { if img_h - y < 0 { 0 } else { img_h - y } } else { strip.1 as int };
                        let copy_w = if strip.0 < img_w { strip.0 as int } else { img_w };
                        Ok((place_rows(buf, strip, img_w, 0, y, copy_w, copy_h), y + strip.1))
                    },
                }
            },
        }
    }
}

/// The image of a stripped JPEG-compressed IFD (see [`strips_canvas`]); a
/// canvas of more than `u32::MAX` bytes is an error.
pub open spec fn strips_spec(
    data: Seq<u8>,
    offsets: Seq<u32>,
    counts: Seq<u32>,
    img_w: u32,
    img_h: u32,
) -> Result<(u32, u32, Seq<u8>), Seq<char>> {
    let m = if offsets.len() < counts.len() { offsets.len() } else { counts.len() };
    match strips_canvas(data, offsets, counts, img_w as int, img_h as int, m as int) {
        Err(e) => Err(e),
        Ok((buf, _y)) => if img_w * img_h * 4 <= 0xFFFF_FFFF {
            Ok((img_w, img_h, buf))
        } else {
            Err("buffer size mismatch for strip assembly"@)
        },
    }
}

proof fn lemma_strips_error_stays(
    data: Seq<u8>,
    offsets: Seq<u32>,
    counts: Seq<u32>,
    img_w: int,
    img_h: int,
    k: int,
    m: int,
)
    requires
        k <= m,
        strips_canvas(data, offsets, counts, img_w, img_h, k) is Err,
    ensures
        strips_canvas(data, offsets, counts, img_w, img_h, m) == strips_canvas(data, offsets, counts, img_w, img_h, k),
    decreases m - k,
{
    if k < m {
        lemma_strips_error_stays(data, offsets, counts, img_w, img_h, k, m - 1);
    }
}

/// Decodes the strips of a stripped JPEG-compressed IFD and stacks them on
/// one canvas (see [`strips_spec`]).
pub fn assemble_jpeg_strips(data: &[u8], offsets: &[u32], counts: &[u32], img_w: u32, img_h: u32) -> (r: Result<RgbaPixels, String>)
    ensures
        result_view(r) == strips_spec(data@, offsets@, counts@, img_w, img_h),
{
    let ghost (w, h) = (img_w as int, img_h as int);
    let m: usize = if offsets.len() < counts.len() { offsets.len() } else { counts.len() };
    let mut buf = blank(img_w, img_h);
    let mut y: u64 = 0;
    let mut i: usize = 0;
    while i < m
        invariant
            i <= m,
            m == (if offsets@.len() < counts@.len() { offsets@.len() } else { counts@.len() }),
            w == img_w, h == img_h,
            y <= 0x1_FFFF_FFFF,
            i > 0 && y < img_h ==> y <= 0xFFFF_FFFF,
            strips_canvas(data@, offsets@, counts@, w, h, i as int) == Ok::<(Seq<u8>, int), Seq<char>>((buf@, y as int)),
        decreases m - i,
    {
        if i == 0 || y < img_h as u64 {
            let strip = match decode_jpeg_strip(data, offsets[i] as usize, counts[i] as usize) {
                Ok(t) => t,
                Err(e) => {
                    proof {
                        lemma_strips_error_stays(data@, offsets@, counts@, w, h, i + 1, m as int);
                    }
                    return Err(e);
                },
            };
            let copy_h: u64 = if (img_h as u64) < y + strip.height as u64 {
                if (img_h as u64) < y { 0 } else { img_h as u64 - y }
            } else {
                strip.height as u64
            };
            let copy_w: u64 = if strip.width < img_w { strip.width as u64 } else { img_w as u64 };
            place_block(&mut buf, &strip, img_w, 0, y as u128, copy_w, copy_h);
            y = y + strip.height as u64;
        }
        i = i + 1;
    }
    let size: u128 = canvas_bytes(img_w, img_h);
    if size <= 0xFFFF_FFFF {
        Ok(RgbaPixels { width: img_w, height: img_h, pixels: buf })
    } else {
        Err("buffer size mismatch for strip assembly".to_owned())
    }
}

/// A candidate the decoder can try without a division by zero or a missing
/// byte count: a tiled one has a tile width, and an image width where there
/// are tiles; a single-strip one has its byte count.
pub open spec fn candidate_ok(c: DngCandidate) -> bool {
    match (c.tile_w, c.tile_h) {
        (Some(tw), Some(_)) => tw > 0 && (c.width > 0 || c.offsets@.len() == 0 || c.counts@.len() == 0),
        _ => c.offsets@.len() == 1 ==> c.counts@.len() >= 1,
    }
}

/// Whether [`decode_candidate`] can be given `c`.
pub fn candidate_is_usable(c: &DngCandidate) -> (b: bool)
    ensures
        b == candidate_ok(*c),
{
    match (c.tile_w, c.tile_h) {
        (Some(tw), Some(_)) => tw > 0 && (c.width > 0 || c.offsets.len() == 0 || c.counts.len() == 0),
        _ => c.offsets.len() != 1 || c.counts.len() >= 1,
    }
}

/// The image of a candidate: tiled when it has both a tile width and a tile
/// height, a single JPEG stream when it has one strip, else stacked strips.
pub open spec fn candidate_spec(data: Seq<u8>, c: DngCandidate) -> Result<(u32, u32, Seq<u8>), Seq<char>> {
    match (c.tile_w, c.tile_h) {
        (Some(tw), Some(th)) => tiles_spec(data, c.offsets@, c.counts@, c.width, c.height, tw, th),
        _ => if c.offsets@.len() == 1 {
            strip_spec(data, c.offsets@[0] as int, c.counts@[0] as int)
        } else {
            strips_spec(data, c.offsets@, c.counts@, c.width, c.height)
        },
    }
}

/// Decodes one JPEG-compressed IFD of `data` (see [`candidate_spec`]).
pub fn decode_candidate(data: &[u8], c: &DngCandidate) -> (r: Result<RgbaPixels, String>)
    requires
        candidate_ok(*c),
    ensures
        result_view(r) == candidate_spec(data@, *c),
{
    match (c.tile_w, c.tile_h) {
        (Some(tw), Some(th)) => assemble_jpeg_tiles(
            data,
            c.offsets.as_slice(),
            c.counts.as_slice(),
            c.width,
            c.height,
            tw,
            th,
        ),
        _ => if c.offsets.len() == 1 {
            decode_jpeg_strip(data, c.offsets[0] as usize, c.counts[0] as usize)
        } else {
            assemble_jpeg_strips(data, c.offsets.as_slice(), c.counts.as_slice(), c.width, c.height)
        },
    }
}

/// The image of the first candidate, in the given order, that decodes;
/// an error when none does.
pub fn decode_first_candidate(data: &[u8], cands: &[DngCandidate]) -> (r: Result<RgbaPixels, String>)
    requires
        forall|i: int| 0 <= i < cands@.len() ==> candidate_ok(#[trigger] cands@[i]),
    ensures
        match r {
            Ok(p) => exists|i: int| {
                &&& 0 <= i < cands@.len()
                &&& #[trigger] candidate_spec(data@, cands@[i]) == Ok::<(u32, u32, Seq<u8>), Seq<char>>(rgba_view(p))
                &&& forall|j: int| 0 <= j < i ==> candidate_spec(data@, #[trigger] cands@[j]) is Err
            },
            Err(e) => {
                &&& e@ == "failed to decode any JPEG-compressed IFD from DNG"@
                &&& forall|j: int| 0 <= j < cands@.len() ==> candidate_spec(data@, #[trigger] cands@[j]) is Err
            },
        },
{
    let mut i: usize = 0;
    while i < cands.len()
        invariant
            i <= cands@.len(),
            forall|k: int| 0 <= k < cands@.len() ==> candidate_ok(#[trigger] cands@[k]),
            forall|j: int| 0 <= j < i ==> candidate_spec(data@, #[trigger] cands@[j]) is Err,
        decreases cands.len() - i,
    {
        let r = decode_candidate(data, &cands[i]);
        match r {
            Ok(p) => {
                proof {
                    assert(candidate_spec(data@, cands@[i as int]) == Ok::<(u32, u32, Seq<u8>), Seq<char>>(rgba_view(p)));
                }
                return Ok(p);
            },
            Err(_) => {},
        }
        i = i + 1;
    }
    Err("failed to decode any JPEG-compressed IFD from DNG".to_owned())
}

/// The bytes of the embedded JPEG at position `i` of `spans`.
pub open spec fn span_bytes(data: Seq<u8>, spans: Seq<(int, int)>, i: int) -> Seq<u8> {
    data.subrange(spans[i].0, spans[i].1)
}

/// The embedded JPEGs are tried largest first, and among those of one size
/// in the order found: `j` is tried before `i`.
pub open spec fn tried_before(spans: Seq<(int, int)>, j: int, i: int) -> bool {
    let lj = spans[j].1 - spans[j].0;
    let li = spans[i].1 - spans[i].0;
    lj > li || (lj == li && j < i)
}

/// The message when no embedded JPEG decodes: the error of the first one
/// tried.
pub open spec fn preview_message(e: Seq<char>) -> Seq<char> {
    "failed to decode extracted preview: "@ + e
}

/// The largest embedded JPEG of `data` that decodes (for RAW files and
/// legacy TIFFs with a preview): its start, its end and its image. An
/// error when there is none, or when none decodes (then with the error of
/// the largest).
pub fn largest_decodable_jpeg(data: &[u8]) -> (r: Result<(usize, usize, RgbaPixels), String>)
    ensures
        match r {
            Ok((s, e, p)) => exists|i: int| {
                &&& 0 <= i < jpeg_spans(data@, 0).len()
                &&& #[trigger] jpeg_spans(data@, 0)[i] == (s as int, e as int)
                &&& jpeg_rgba_of(data@.subrange(s as int, e as int))
                    == Ok::<(u32, u32, Seq<u8>), Seq<char>>(rgba_view(p))
                &&& forall|j: int| 0 <= j < jpeg_spans(data@, 0).len() && tried_before(jpeg_spans(data@, 0), j, i)
                    ==> jpeg_rgba_of(#[trigger] span_bytes(data@, jpeg_spans(data@, 0), j)) is Err
            },
            Err(m) => {
                ||| jpeg_spans(data@, 0).len() == 0 && m@ == "Could not find any embedded JPEG preview in file"@
                ||| {
                    &&& jpeg_spans(data@, 0).len() > 0
                    &&& forall|j: int| 0 <= j < jpeg_spans(data@, 0).len()
                        ==> jpeg_rgba_of(#[trigger] span_bytes(data@, jpeg_spans(data@, 0), j)) is Err
                    &&& exists|k: int| {
                        &&& 0 <= k < jpeg_spans(data@, 0).len()
                        &&& forall|j: int| 0 <= j < jpeg_spans(data@, 0).len()
                            ==> !(#[trigger] tried_before(jpeg_spans(data@, 0), j, k))
                        &&& jpeg_rgba_of(#[trigger] span_bytes(data@, jpeg_spans(data@, 0), k)) matches Err(x)
                        &&& m@ == preview_message(x)
                    }
                }
            },
        },
{
    let spans = embedded_jpeg_spans(data);
    let ghost sp = jpeg_spans(data@, 0);
    let n = spans.len();
    if n == 0 {
        return Err("Could not find any embedded JPEG preview in file".to_owned());
    }
    let mut keys: Vec<i128> = Vec::new();
    let mut k: usize = 0;
    while k < n
        invariant
            k <= n,
            n == spans@.len(),
            keys@.len() == k,
            forall|i: int| 0 <= i < k ==> keys@[i] == -((#[trigger] spans@[i]).1 - spans@[i].0),
            forall|i: int| 0 <= i < spans@.len() ==> (#[trigger] spans@[i]).0 < spans@[i].1 <= data@.len(),
        decreases n - k,
    {
        let (a, b) = spans[k];
        keys.push(-((b - a) as i128));
        k = k + 1;
    }
    let sk = SortKeys::Numbers(keys);
    let order = stable_order(&sk);
    proof {
        assert forall|i: int, j: int| 0 <= i < n && 0 <= j < n implies
            (sk.before(j, i) <==> tried_before(sp, j, i)) by {
            assert(sp[i] == (spans@[i].0 as int, spans@[i].1 as int));
            assert(sp[j] == (spans@[j].0 as int, spans@[j].1 as int));
        }
    }
    let mut first_err: Vec<char> = Vec::new();
    let mut m: usize = 0;
    while m < n
        invariant
            m <= n,
            n == spans@.len(),
            n == sp.len(),
            n > 0,
            sp == jpeg_spans(data@, 0),
            sk.len_spec() == n,
            forall|i: int| 0 <= i < spans@.len() ==> (#[trigger] spans@[i]).0 < spans@[i].1 <= data@.len()
                && sp[i] == (spans@[i].0 as int, spans@[i].1 as int),
            crate::order::is_permutation(order@, n as nat),
            crate::order::is_stably_sorted(sk, order@),
            forall|q: usize| q < n ==> order@.contains(q),
            forall|i: int, j: int| 0 <= i < n && 0 <= j < n ==> (sk.before(j, i) <==> tried_before(sp, j, i)),
            forall|q: int| 0 <= q < m ==> jpeg_rgba_of(#[trigger] span_bytes(data@, sp, order@[q] as int)) is Err,
            m > 0 ==> jpeg_rgba_of(span_bytes(data@, sp, order@[0] as int)) == Err::<(u32, u32, Seq<u8>), Seq<char>>(first_err@),
        decreases n - m,
    {
        let i = order[m];
        let (a, b) = spans[i];
        let bytes = vstd::slice::slice_subrange(data, a, b);
        match decode_jpeg_rgba(bytes) {
            Ok(p) => {
                proof {
                    let ii = i as int;
                    assert(span_bytes(data@, sp, ii) == data@.subrange(a as int, b as int));
                    assert forall|j: int| 0 <= j < sp.len() && tried_before(sp, j, ii) implies
                        jpeg_rgba_of(#[trigger] span_bytes(data@, sp, j)) is Err by {
                        assert(order@.contains(j as usize));
                        let mj = choose|mj: int| 0 <= mj < order@.len() && order@[mj] == j as usize;
                        if mj >= m as int {
                            if mj == m as int {
                                assert(j == ii);
                            } else {
                                assert(sk.before(order@[m as int] as int, order@[mj] as int));
                                assert(sk.before(j, ii));
                                assert(false);
                            }
                        }
                    }
                    assert(sp[ii] == (a as int, b as int));
                }
                return Ok((a, b, p));
            },
            Err(e) => {
                if m == 0 {
                    first_err = chars_of(e.as_str());
                }
            },
        }
        proof {
            assert(span_bytes(data@, sp, order@[m as int] as int) == data@.subrange(a as int, b as int));
        }
        m = m + 1;
    }
    let mut msg: Vec<char> = Vec::new();
    push_str(&mut msg, "failed to decode extracted preview: ");
    push_all(&mut msg, &first_err);
    proof {
        assert forall|j: int| 0 <= j < sp.len() implies jpeg_rgba_of(#[trigger] span_bytes(data@, sp, j)) is Err by {
            assert(order@.contains(j as usize));
            let mj = choose|mj: int| 0 <= mj < order@.len() && order@[mj] == j as usize;
            assert(jpeg_rgba_of(span_bytes(data@, sp, order@[mj] as int)) is Err);
        }
        let k0 = order@[0] as int;
        assert forall|j: int| 0 <= j < sp.len() implies !(#[trigger] tried_before(sp, j, k0)) by {
            assert(order@.contains(j as usize));
            let mj = choose|mj: int| 0 <= mj < order@.len() && order@[mj] == j as usize;
            if mj > 0 {
                assert(sk.before(k0, j));
                if tried_before(sp, j, k0) { assert(sk.before(j, k0)); }
            }
        }
        assert(msg@ =~= preview_message(first_err@));
    }
    Err(string_of(msg.as_slice()))
}

} // verus!
