//! The rasterizer / quad emitter: turns positioned glyphs into screen-space
//! quads, atlas upload descriptors and tightly packed RGBA pixel bytes,
//! reusing the glyph cache wherever a glyph with the same quantized
//! subpixel phase was rasterized before.

use vstd::prelude::*;
use crate::cache::{shelf_fits, shelf_origin, GlyphCache, GlyphCacheEntry, GlyphCacheKey};
use crate::geom::{div_round, gen_quad, quad_vertices, Vec2, Vertex};
use crate::linebreak::{
    greedy_idxs, line_break_lengths, greedy_breaks, measure_all, sum_adv_from, width_pairs,
};
use crate::paragraph::{Run, Style, StyledParagraph};
use crate::segmentation::Segmentation;
use crate::shape::{
    concat_rebased, gen_style_segmentation, lemma_max_lineskip_nonneg, max_lineskip, run_glyphs_wf,
    shape_styled_paragraph, ShapedGlyph,
};
use crate::unicode::{lb_boundaries, ws_trimmed_end_len};

verus! {

/// One atlas upload: copy `width * height` RGBA pixels starting at
/// `buffer_offset` in the pixel blob to atlas position `(u, v)`.
#[derive(Debug, Clone, Copy, PartialEq, Eq, Structural)]
pub struct BufferImageCopy {
    pub buffer_offset: u64,
    pub width: u32,
    pub height: u32,
    pub u: i32,
    pub v: i32,
}

/// The output of a paragraph render: one quad per visible glyph, the
/// uploads for freshly rasterized bitmaps, and their pixel bytes in
/// emission order.
#[derive(Debug)]
pub struct Text {
    pub quads: Vec<[Vertex; 4]>,
    pub buffer_updates: Vec<BufferImageCopy>,
    pub pixels: Vec<u8>,
}

/// An upload descriptor that lies within a pixel blob of the given length,
/// at a 4-byte-aligned offset.
pub open spec fn update_wf(u: BufferImageCopy, pixels_len: int) -> bool {
    &&& u.buffer_offset % 4 == 0
    &&& u.buffer_offset + u.width * u.height * 4 <= pixels_len
}

/// The pixel-blob alignment invariant of a render output: the blob holds
/// whole 4-byte pixels and every upload lies inside it at an aligned
/// offset.
pub open spec fn text_wf(t: Text) -> bool {
    &&& t.pixels@.len() % 4 == 0
    &&& forall|i: int|
        0 <= i < t.buffer_updates@.len() ==> update_wf(
            #[trigger] t.buffer_updates@[i],
            t.pixels@.len() as int,
        )
}

impl Text {
    /// An empty render output.
    pub fn new() -> (t: Text)
        ensures
            t.quads@.len() == 0,
            t.buffer_updates@.len() == 0,
            t.pixels@.len() == 0,
            text_wf(t),
    {
        Text { quads: Vec::new(), buffer_updates: Vec::new(), pixels: Vec::new() }
    }
}

/// One glyph bitmap as the outside rasterization service reports it:
/// LCD-filtered rows of `width_sub` single-byte subsamples (three per
/// pixel), `pitch` bytes apart, with signed bearings from the pen position.
#[derive(Debug, Clone)]
pub struct RasterizedGlyph {
    pub width_sub: u32,
    pub rows: u32,
    pub pitch: u32,
    pub left: i32,
    pub top: i32,
    pub bytes: Vec<u8>,
}

impl RasterizedGlyph {
    /// What the engine requires of a service-provided bitmap: whole pixels
    /// (three subsamples each), rows inside the byte buffer, and extents
    /// and bearings small enough for `i16` vertex coordinates.
    pub open spec fn wf(&self) -> bool {
        &&& self.width_sub % 3 == 0
        &&& self.width_sub <= 24576
        &&& self.rows <= 8192
        &&& self.width_sub <= self.pitch
        &&& self.rows * self.pitch <= self.bytes@.len()
        &&& -8192 <= self.left <= 8192
        &&& -8192 <= self.top <= 8192
    }
}

/// The packed RGBA bytes of pixels `col..w` of one bitmap row: three
/// subsamples then a full alpha byte per pixel, row padding discarded.
pub open spec fn rgba_row(bytes: Seq<u8>, pitch: int, row: int, col: int, w: int) -> Seq<u8>
    decreases w - col,
{
    if col < 0 || col >= w {
        Seq::empty()
    } else {
        seq![
            bytes[row * pitch + 3 * col],
            bytes[row * pitch + 3 * col + 1],
            bytes[row * pitch + 3 * col + 2],
            0xFFu8,
        ] + rgba_row(bytes, pitch, row, col + 1, w)
    }
}

/// The packed RGBA bytes of rows `row..rows` of a bitmap of pixel width `w`.
pub open spec fn rgba_rows(bytes: Seq<u8>, pitch: int, w: int, row: int, rows: int) -> Seq<u8>
    decreases rows - row,
{
    if row < 0 || row >= rows {
        Seq::empty()
    } else {
        rgba_row(bytes, pitch, row, 0, w) + rgba_rows(bytes, pitch, w, row + 1, rows)
    }
}

/// The tightly packed 4-byte-per-pixel conversion of a rasterized bitmap.
pub open spec fn rgba_of(r: RasterizedGlyph) -> Seq<u8> {
    rgba_rows(r.bytes@, r.pitch as int, r.width_sub as int / 3, 0, r.rows as int)
}

proof fn lemma_rgba_row_len(bytes: Seq<u8>, pitch: int, row: int, col: int, w: int)
    requires
        0 <= col <= w,
    ensures
        rgba_row(bytes, pitch, row, col, w).len() == 4 * (w - col),
    decreases w - col,
{
    if col < w {
        lemma_rgba_row_len(bytes, pitch, row, col + 1, w);
    }
}

proof fn lemma_rgba_rows_len(bytes: Seq<u8>, pitch: int, w: int, row: int, rows: int)
    requires
        0 <= row <= rows,
        0 <= w,
    ensures
        rgba_rows(bytes, pitch, w, row, rows).len() == (rows - row) * (4 * w),
    decreases rows - row,
{
    if row == rows {
        assert((rows - row) * (4 * w) == 0) by (nonlinear_arith)
            requires
                row == rows,
        ;
    }
    if row < rows {
        lemma_rgba_rows_len(bytes, pitch, w, row + 1, rows);
        lemma_rgba_row_len(bytes, pitch, row, 0, w);
        assert(rgba_rows(bytes, pitch, w, row, rows) == rgba_row(bytes, pitch, row, 0, w)
            + rgba_rows(bytes, pitch, w, row + 1, rows));
        assert(rgba_rows(bytes, pitch, w, row, rows).len() == 4 * w + (rows - row - 1) * (4 * w));
        assert((rows - row) * (4 * w) == 4 * w + (rows - row - 1) * (4 * w)) by (nonlinear_arith);
    }
}

/// The length of the packed conversion: four bytes per pixel.
pub proof fn lemma_rgba_of_len(r: RasterizedGlyph)
    ensures
        rgba_of(r).len() == (r.rows as int) * (4 * (r.width_sub as int / 3)),
{
    lemma_rgba_rows_len(r.bytes@, r.pitch as int, r.width_sub as int / 3, 0, r.rows as int);
}

/// Appends the packed RGBA conversion of one bitmap to the pixel blob.
fn append_rgba(pixels: &mut Vec<u8>, rst: &RasterizedGlyph)
    requires
        rst.wf(),
    ensures
        final(pixels)@ == old(pixels)@ + rgba_of(*rst),
{
    let w = (rst.width_sub / 3) as usize;
    let rows = rst.rows as usize;
    let pitch = rst.pitch as usize;
    let ghost bytes = rst.bytes@;
    let ghost wi = rst.width_sub as int / 3;
    let blen = rst.bytes.len();
    let mut h: usize = 0;
    proof {
        assert(old(pixels)@ + rgba_rows(bytes, pitch as int, wi, 0, rows as int) == old(
            pixels,
        )@ + rgba_of(*rst));
    }
    while h < rows
        invariant
            rst.wf(),
            bytes == rst.bytes@,
            w == wi,
            wi == rst.width_sub as int / 3,
            rows == rst.rows,
            pitch == rst.pitch,
            blen == bytes.len(),
            h <= rows,
            pixels@ + rgba_rows(bytes, pitch as int, wi, h as int, rows as int) == old(pixels)@
                + rgba_of(*rst),
        decreases rows - h,
    {
        let mut col: usize = 0;
        while col < w
            invariant
                rst.wf(),
                bytes == rst.bytes@,
                w == wi,
                wi == rst.width_sub as int / 3,
                rows == rst.rows,
                pitch == rst.pitch,
                blen == bytes.len(),
                h < rows,
                col <= w,
                pixels@ + rgba_row(bytes, pitch as int, h as int, col as int, wi) + rgba_rows(
                    bytes,
                    pitch as int,
                    wi,
                    h as int + 1,
                    rows as int,
                ) == old(pixels)@ + rgba_of(*rst),
            decreases w - col,
        {
            proof {
                let hi = h as int;
                let pi = pitch as int;
                let ri = rows as int;
                assert(hi * pi + pi <= ri * pi) by (nonlinear_arith)
                    requires
                        hi < ri,
                        0 <= pi,
                        0 <= hi,
                ;
                assert(ri * pi <= bytes.len());
                assert(3 * wi <= rst.width_sub);
                assert(3 * (col as int) + 3 <= pi);
                assert(hi * pi + 3 * (col as int) + 2 < bytes.len());
            }
            let base = h * pitch + 3 * col;
            let ghost pre = pixels@;
            pixels.push(rst.bytes[base]);
            pixels.push(rst.bytes[base + 1]);
            pixels.push(rst.bytes[base + 2]);
            pixels.push(0xFF);
            proof {
                assert(pixels@ =~= pre + seq![
                    bytes[h as int * pitch as int + 3 * col as int],
                    bytes[h as int * pitch as int + 3 * col as int + 1],
                    bytes[h as int * pitch as int + 3 * col as int + 2],
                    0xFFu8,
                ]);
                assert(rgba_row(bytes, pitch as int, h as int, col as int, wi) == seq![
                    bytes[h as int * pitch as int + 3 * col as int],
                    bytes[h as int * pitch as int + 3 * col as int + 1],
                    bytes[h as int * pitch as int + 3 * col as int + 2],
                    0xFFu8,
                ] + rgba_row(bytes, pitch as int, h as int, col as int + 1, wi));
                assert(pre + rgba_row(bytes, pitch as int, h as int, col as int, wi) + rgba_rows(
                    bytes,
                    pitch as int,
                    wi,
                    h as int + 1,
                    rows as int,
                ) =~= pixels@ + rgba_row(bytes, pitch as int, h as int, col as int + 1, wi)
                    + rgba_rows(bytes, pitch as int, wi, h as int + 1, rows as int));
            }
            col = col + 1;
        }
        proof {
            assert(rgba_row(bytes, pitch as int, h as int, w as int, wi) =~= Seq::<u8>::empty());
            assert(rgba_rows(bytes, pitch as int, wi, h as int, rows as int) == rgba_row(
                bytes,
                pitch as int,
                h as int,
                0,
                wi,
            ) + rgba_rows(bytes, pitch as int, wi, h as int + 1, rows as int));
            assert(pixels@ + rgba_row(bytes, pitch as int, h as int, w as int, wi) + rgba_rows(
                bytes,
                pitch as int,
                wi,
                h as int + 1,
                rows as int,
            ) =~= pixels@ + rgba_rows(bytes, pitch as int, wi, h as int + 1, rows as int));
        }
        h = h + 1;
    }
    proof {
        assert(rgba_rows(bytes, pitch as int, wi, rows as int, rows as int) =~= Seq::<u8>::empty());
        assert(pixels@ + Seq::<u8>::empty() =~= pixels@);
    }
}

/// The errors a render step reports instead of corrupting state: the atlas
/// has no room for a new bitmap, a pen position lies outside the range
/// whose vertex coordinates fit `i16`, or a cache miss was not supplied
/// with a rasterized bitmap.
#[derive(Debug, Clone, Copy, PartialEq, Eq, Structural)]
pub enum RenderError {
    AtlasExhausted,
    PenOutOfRange,
    MissingRaster,
}

/// The quantized horizontal pen position in 26.6 fixed point, scaled by
/// the style's subpixel denominator and rounded to the nearest unit.
pub open spec fn quant_x(px: int, sub: int) -> int
    recommends
        1 <= sub,
{
    (px * sub + 32) / 64
}

/// The whole-pixel horizontal pen position.
pub open spec fn pen_px(px: int, sub: int) -> int
    recommends
        1 <= sub,
{
    quant_x(px, sub) / sub
}

/// The quantized subpixel phase, rescaled to 64ths of a pixel.
pub open spec fn pen_frac64(px: int, sub: int) -> int
    recommends
        1 <= sub,
{
    (quant_x(px, sub) % sub) * 64 / sub
}

/// The whole-pixel vertical pen position (not subpixel-quantized).
pub open spec fn pen_py(py: int) -> int {
    (py + 32) / 64
}

/// True when a glyph's pen position can be emitted: nonnegative 26.6
/// coordinates whose whole-pixel positions stay below 8192, so that every
/// emitted vertex coordinate fits `i16`.
pub open spec fn pen_ok(st: Style, cursor: Vec2<i32>, g: ShapedGlyph) -> bool {
    &&& 0 <= cursor.x + g.x_offset <= 0x0007_FF80
    &&& 0 <= cursor.y + g.y_offset <= 0x0007_FF80
    &&& pen_px(cursor.x + g.x_offset, st.subpixel as int) <= 8191
    &&& pen_py(cursor.y + g.y_offset) <= 8191
}

/// The cache key a glyph renders under: font, glyph, size, quantized
/// subpixel phase and hinting mode.
pub open spec fn glyph_key(st: Style, cursor: Vec2<i32>, g: ShapedGlyph) -> GlyphCacheKey {
    GlyphCacheKey {
        font_idx: st.font_idx,
        glyph_idx: g.glyph_id,
        font_size: st.size,
        subpixel: pen_frac64(cursor.x + g.x_offset, st.subpixel as int) as u32,
        autohint: st.autohint,
    }
}

/// Computes the whole-pixel pen position and subpixel phase for one glyph,
/// or `None` when the pen lies outside the emittable range.
fn quantize_pen(style: &Style, cursor: Vec2<i32>, glyph: &ShapedGlyph) -> (r: Option<(i32, i32, u32)>)
    requires
        style.wf(),
    ensures
        match r {
            Some(t) => {
                &&& pen_ok(*style, cursor, *glyph)
                &&& t.0 == pen_px(cursor.x + glyph.x_offset, style.subpixel as int)
                &&& t.1 == pen_py(cursor.y + glyph.y_offset)
                &&& t.2 == pen_frac64(cursor.x + glyph.x_offset, style.subpixel as int)
                &&& 0 <= t.0 <= 8191
                &&& 0 <= t.1 <= 8191
                &&& t.2 < 64
            },
            None => !pen_ok(*style, cursor, *glyph),
        },
{
    let px64: i64 = cursor.x as i64 + glyph.x_offset as i64;
    let py64: i64 = cursor.y as i64 + glyph.y_offset as i64;
    if px64 < 0 || px64 > 0x0007_FF80 || py64 < 0 || py64 > 0x0007_FF80 {
        return None;
    }
    let px: i32 = px64 as i32;
    let py: i32 = py64 as i32;
    proof {
        assert(0 <= px * style.subpixel <= 0x0007_FF80 * 64) by (nonlinear_arith)
            requires
                0 <= px <= 0x0007_FF80,
                1 <= style.subpixel <= 64,
        ;
    }
    let x0 = div_round(px * style.subpixel, 64);
    let x_frac = x0 % style.subpixel;
    let x = x0 / style.subpixel;
    let frac64 = x_frac * 64 / style.subpixel;
    let y = div_round(py, 64);
    if x > 8191 || y > 8191 {
        return None;
    }
    proof {
        let xf = x_frac as int;
        let sub = style.subpixel as int;
        assert(xf * 64 < sub * 64) by (nonlinear_arith)
            requires
                xf < sub,
        ;
        assert(xf * 64 / sub < 64) by (nonlinear_arith)
            requires
                xf * 64 < sub * 64,
                1 <= sub,
                0 <= xf,
        ;
    }
    Some((x, y, frac64 as u32))
}

/// The text layout and glyph-cache engine: the glyph cache and its atlas,
/// shared across frames. The fonts and the shaping and rasterization
/// services live with the caller, which hands their results in as plain
/// values.
#[derive(Debug)]
pub struct TextEngine {
    pub glyph_cache: GlyphCache,
}

impl TextEngine {
    /// The engine invariant: a well-formed cache over an atlas no larger
    /// than 8192, so emitted vertex coordinates fit `i16`.
    pub open spec fn wf(&self) -> bool {
        &&& self.glyph_cache.wf()
        &&& self.glyph_cache.tex_size <= 8192
    }

    /// A fresh engine with an empty glyph cache over a square atlas of the
    /// given side.
    pub fn new(glyph_texture_size: u16) -> (e: TextEngine)
        requires
            glyph_texture_size <= 8192,
        ensures
            e.wf(),
            e.glyph_cache@ == Map::<GlyphCacheKey, GlyphCacheEntry>::empty(),
            e.glyph_cache.tex_size == glyph_texture_size,
            e.glyph_cache.current_x == 0,
            e.glyph_cache.current_y == 0,
            e.glyph_cache.max_y == 0,
    {
        TextEngine { glyph_cache: GlyphCache::new(glyph_texture_size) }
    }

    /// What the caller must rasterize before a glyph can be emitted:
    /// `Some` exactly when the glyph's pen is emittable and its key is not
    /// yet cached. The caller rasterizes the glyph at the returned
    /// subpixel phase (in 64ths of a pixel) and hands the bitmap to
    /// `rasterize_glyph`.
    pub fn raster_request(&self, style: &Style, cursor: Vec2<i32>, glyph: &ShapedGlyph) -> (r:
        Option<RasterRequest>)
        requires
            self.wf(),
            style.wf(),
        ensures
            match r {
                Some(q) => {
                    &&& pen_ok(*style, cursor, *glyph)
                    &&& !self.glyph_cache@.contains_key(glyph_key(*style, cursor, *glyph))
                    &&& q == (RasterRequest {
                        font_idx: style.font_idx,
                        glyph_id: glyph.glyph_id,
                        size: style.size,
                        weight: style.weight,
                        autohint: style.autohint,
                        frac64: glyph_key(*style, cursor, *glyph).subpixel,
                    })
                },
                None => !pen_ok(*style, cursor, *glyph) || self.glyph_cache@.contains_key(
                    glyph_key(*style, cursor, *glyph),
                ),
            },
    {
        match quantize_pen(style, cursor, glyph) {
            None => None,
            Some((_x, _y, frac64)) => {
                let key = GlyphCacheKey {
                    font_idx: style.font_idx,
                    glyph_idx: glyph.glyph_id,
                    font_size: style.size,
                    subpixel: frac64,
                    autohint: style.autohint,
                };
                match self.glyph_cache.get(&key) {
                    Some(_) => None,
                    None => Some(
                        RasterRequest {
                            font_idx: style.font_idx,
                            glyph_id: glyph.glyph_id,
                            size: style.size,
                            weight: style.weight,
                            autohint: style.autohint,
                            frac64,
                        },
                    ),
                }
            },
        }
    }
}

/// One glyph the caller must rasterize: which font, glyph, size, weight
/// and hinting mode to use, and the horizontal subpixel phase (in 64ths of
/// a pixel) to shift by.
#[derive(Debug, Clone, Copy, PartialEq, Eq, Structural)]
pub struct RasterRequest {
    pub font_idx: u32,
    pub glyph_id: u32,
    pub size: u32,
    pub weight: u32,
    pub autohint: bool,
    pub frac64: u32,
}

/// The quad emitted for a cached glyph entry at whole-pixel pen position
/// `(x, y)`: the bitmap rectangle offset by the entry's bearings, carrying
/// the entry's atlas origin and the style's color.
pub open spec fn glyph_quad(x: int, y: int, e: GlyphCacheEntry, color: crate::geom::Color) -> Seq<
    Vertex,
> {
    quad_vertices(
        (x + e.left) as i16,
        (y - e.top) as i16,
        e.width as i16,
        e.height as i16,
        e.u,
        e.v,
        color,
    )
}

impl TextEngine {
    /// Emits one positioned glyph, in shaped order, into the render
    /// output. A cached key reuses its atlas rectangle: nothing is
    /// rasterized or uploaded again. On a miss the caller-supplied bitmap
    /// is recorded in the cache (with zero extent for invisible glyphs),
    /// and a visible bitmap additionally emits one quad, one upload
    /// descriptor and its packed pixels. The cache only ever grows, and
    /// the output keeps its pixel-blob alignment.
    pub fn rasterize_glyph(
        &mut self,
        out: &mut Text,
        style: &Style,
        cursor: Vec2<i32>,
        glyph: &ShapedGlyph,
        raster: Option<&RasterizedGlyph>,
    ) -> (r: Result<(), RenderError>)
        requires
            old(self).wf(),
            style.wf(),
            text_wf(*old(out)),
            match raster {
                Some(rst) => rst.wf(),
                None => true,
            },
            pen_ok(*style, cursor, *glyph) && !old(self).glyph_cache@.contains_key(
                glyph_key(*style, cursor, *glyph),
            ) ==> raster.is_some(),
        ensures
            final(self).wf(),
            final(self).glyph_cache.tex_size == old(self).glyph_cache.tex_size,
            old(self).glyph_cache@.submap_of(final(self).glyph_cache@),
            text_wf(*final(out)),
            match r {
                Ok(()) => ({
                    let key = glyph_key(*style, cursor, *glyph);
                    let x = pen_px(cursor.x + glyph.x_offset, style.subpixel as int);
                    let y = pen_py(cursor.y + glyph.y_offset);
                    &&& pen_ok(*style, cursor, *glyph)
                    &&& if old(self).glyph_cache@.contains_key(key) {
                        let e = old(self).glyph_cache@[key];
                        &&& final(self).glyph_cache@ == old(self).glyph_cache@
                        &&& final(self).glyph_cache.current_x == old(self).glyph_cache.current_x
                        &&& final(self).glyph_cache.current_y == old(self).glyph_cache.current_y
                        &&& final(self).glyph_cache.max_y == old(self).glyph_cache.max_y
                        &&& final(out).buffer_updates@ == old(out).buffer_updates@
                        &&& final(out).pixels@ == old(out).pixels@
                        &&& if e.width > 0 && e.height > 0 {
                            &&& final(out).quads@.len() == old(out).quads@.len() + 1
                            &&& final(out).quads@.drop_last() == old(out).quads@
                            &&& final(out).quads@.last()@ == glyph_quad(x, y, e, style.color)
                        } else {
                            final(out).quads@ == old(out).quads@
                        }
                    } else {
                        let rst = raster->Some_0;
                        let w = rst.width_sub as int / 3;
                        let h = rst.rows as int;
                        let e = final(self).glyph_cache@[key];
                        &&& final(self).glyph_cache@ == old(self).glyph_cache@.insert(key, e)
                        &&& e.left == rst.left as i16
                        &&& e.top == rst.top as i16
                        &&& (e.u, e.v) == shelf_origin(old(self).glyph_cache, e.width)
                        &&& final(self).glyph_cache.current_x == e.u + e.width
                        &&& final(self).glyph_cache.current_y == e.v
                        &&& final(self).glyph_cache.max_y == if e.v + e.height > old(
                            self,
                        ).glyph_cache.max_y {
                            (e.v + e.height) as u16
                        } else {
                            old(self).glyph_cache.max_y
                        }
                        &&& if w > 0 && h > 0 {
                            &&& e.width == w
                            &&& e.height == h
                            &&& final(out).quads@.len() == old(out).quads@.len() + 1
                            &&& final(out).quads@.drop_last() == old(out).quads@
                            &&& final(out).quads@.last()@ == glyph_quad(x, y, e, style.color)
                            &&& final(out).buffer_updates@.len() == old(out).buffer_updates@.len()
                                + 1
                            &&& final(out).buffer_updates@.drop_last() == old(
                                out,
                            ).buffer_updates@
                            &&& final(out).buffer_updates@.last() == (BufferImageCopy {
                                buffer_offset: old(out).pixels@.len() as u64,
                                width: w as u32,
                                height: h as u32,
                                u: e.u as i32,
                                v: e.v as i32,
                            })
                            &&& final(out).pixels@ == old(out).pixels@ + rgba_of(*rst)
                        } else {
                            &&& e.width == 0
                            &&& e.height == 0
                            &&& final(out).quads@ == old(out).quads@
                            &&& final(out).buffer_updates@ == old(out).buffer_updates@
                            &&& final(out).pixels@ == old(out).pixels@
                        }
                    }
                }),
                Err(RenderError::PenOutOfRange) => {
                    &&& !pen_ok(*style, cursor, *glyph)
                    &&& final(self).glyph_cache@ == old(self).glyph_cache@
                    &&& final(self).glyph_cache.current_x == old(self).glyph_cache.current_x
                    &&& final(self).glyph_cache.current_y == old(self).glyph_cache.current_y
                    &&& final(self).glyph_cache.max_y == old(self).glyph_cache.max_y
                    &&& final(out).quads@ == old(out).quads@
                    &&& final(out).buffer_updates@ == old(out).buffer_updates@
                    &&& final(out).pixels@ == old(out).pixels@
                },
                Err(RenderError::AtlasExhausted) => ({
                    let key = glyph_key(*style, cursor, *glyph);
                    let rst = raster->Some_0;
                    &&& pen_ok(*style, cursor, *glyph)
                    &&& !old(self).glyph_cache@.contains_key(key)
                    &&& rst.width_sub as int / 3 > 0 && rst.rows > 0
                    &&& !shelf_fits(
                        old(self).glyph_cache,
                        (rst.width_sub as int / 3) as u16,
                        rst.rows as u16,
                    )
                    &&& final(self).glyph_cache@ == old(self).glyph_cache@
                    &&& final(self).glyph_cache.current_x == old(self).glyph_cache.current_x
                    &&& final(self).glyph_cache.current_y == old(self).glyph_cache.current_y
                    &&& final(self).glyph_cache.max_y == old(self).glyph_cache.max_y
                    &&& final(out).quads@ == old(out).quads@
                    &&& final(out).buffer_updates@ == old(out).buffer_updates@
                    &&& final(out).pixels@ == old(out).pixels@
                }),
                Err(RenderError::MissingRaster) => false,
            },
    {
        let (x, y, frac64) = match quantize_pen(style, cursor, glyph) {
            None => {
                return Err(RenderError::PenOutOfRange);
            },
            Some(t) => t,
        };
        let key = GlyphCacheKey {
            font_idx: style.font_idx,
            glyph_idx: glyph.glyph_id,
            font_size: style.size,
            subpixel: frac64,
            autohint: style.autohint,
        };
        match self.glyph_cache.get(&key) {
            Some(entry) => {
                if entry.width > 0 && entry.height > 0 {
                    let ghost quads0 = out.quads@;
                    out.quads.push(
                        gen_quad(
                            x as i16 + entry.left,
                            y as i16 - entry.top,
                            entry.width as i16,
                            entry.height as i16,
                            entry.u,
                            entry.v,
                            style.color,
                        ),
                    );
                    proof {
                        assert(out.quads@.drop_last() =~= quads0);
                    }
                }
                Ok(())
            },
            None => {
                let rst = match raster {
                    Some(rst) => rst,
                    // a cache miss with an emittable pen always comes with
                    // a bitmap (precondition)
                    None => vstd::pervasive::unreached(),
                };
                let width = rst.width_sub / 3;
                let height = rst.rows;
                if width == 0 || height == 0 {
                    match self.glyph_cache.insert(key, 0, 0, rst.left as i16, rst.top as i16) {
                        Some(_) => Ok(()),
                        // a zero-extent bitmap always fits the atlas
                        None => vstd::pervasive::unreached(),
                    }
                } else {
                    let buffer_offset = out.pixels.len() as u64;
                    match self.glyph_cache.insert(
                        key,
                        width as u16,
                        height as u16,
                        rst.left as i16,
                        rst.top as i16,
                    ) {
                        None => Err(RenderError::AtlasExhausted),
                        Some((u, v)) => {
                            let ghost pixels0 = out.pixels@;
                            let ghost quads0 = out.quads@;
                            let ghost updates0 = out.buffer_updates@;
                            append_rgba(&mut out.pixels, rst);
                            out.quads.push(
                                gen_quad(
                                    x as i16 + rst.left as i16,
                                    y as i16 - rst.top as i16,
                                    width as i16,
                                    height as i16,
                                    u,
                                    v,
                                    style.color,
                                ),
                            );
                            out.buffer_updates.push(
                                BufferImageCopy {
                                    buffer_offset,
                                    width,
                                    height,
                                    u: u as i32,
                                    v: v as i32,
                                },
                            );
                            proof {
                                lemma_rgba_of_len(*rst);
                                assert(out.quads@.drop_last() =~= quads0);
                                assert(out.buffer_updates@.drop_last() =~= updates0);
                                let wi = rst.width_sub as int / 3;
                                let hi = rst.rows as int;
                                assert(hi * (4 * wi) == 4 * (wi * hi)) by (nonlinear_arith);
                                assert(out.pixels@.len() == pixels0.len() + 4 * (wi * hi));
                                assert((wi as u32) * (hi as u32) * 4 == 4 * (wi * hi))
                                    by (nonlinear_arith)
                                    requires
                                        0 <= wi <= 8192,
                                        0 <= hi <= 8192,
                                ;
                                assert forall|i: int|
                                    0 <= i < out.buffer_updates@.len() implies update_wf(
                                    #[trigger] out.buffer_updates@[i],
                                    out.pixels@.len() as int,
                                ) by {
                                    if i < updates0.len() {
                                        assert(update_wf(updates0[i], pixels0.len() as int));
                                    }
                                }
                            }
                            Ok(())
                        },
                    }
                }
            },
        }
    }
}

/// Cache lookups are idempotent: once a render has recorded a glyph under
/// its key, any later lookup in a cache that has since only grown returns
/// the same entry, so a repeated render reuses the same atlas rectangle
/// and uploads nothing new.
#[verifier::spinoff_prover]
pub proof fn lemma_cache_idempotent(
    m1: Map<GlyphCacheKey, GlyphCacheEntry>,
    m2: Map<GlyphCacheKey, GlyphCacheEntry>,
    key: GlyphCacheKey,
)
    requires
        m1.submap_of(m2),
        m1.contains_key(key),
    ensures
        m2.contains_key(key),
        m2[key] == m1[key],
{
    assert(m1.submap_of(m2));
    assert(m1.dom().contains(key));
    assert(m2.dom().contains(key) && m1[key] == m2[key]);
}

/// One glyph placed by the layout walk: which style run it belongs to and
/// the 26.6 pen position it renders at.
#[derive(Debug, Clone, Copy, PartialEq, Eq, Structural)]
pub struct PlacedGlyph {
    pub style_idx: usize,
    pub pen: Vec2<i32>,
    pub glyph: ShapedGlyph,
}

/// The cache key a placed glyph renders under.
pub open spec fn placed_key(styles: Seq<Style>, it: PlacedGlyph) -> GlyphCacheKey
    recommends
        it.style_idx < styles.len(),
{
    glyph_key(styles[it.style_idx as int], it.pen, it.glyph)
}

/// The bitmap extent a placed glyph renders with: the cached extent on a
/// hit, the supplied bitmap's extent on a miss (zero when the bitmap has
/// no visible pixels or none was supplied).
pub open spec fn placed_dims(
    m: Map<GlyphCacheKey, GlyphCacheEntry>,
    styles: Seq<Style>,
    it: PlacedGlyph,
    ro: Option<RasterizedGlyph>,
) -> (int, int) {
    let key = placed_key(styles, it);
    if m.contains_key(key) {
        (m[key].width as int, m[key].height as int)
    } else {
        match ro {
            Some(rst) => {
                let w = rst.width_sub as int / 3;
                let h = rst.rows as int;
                if w > 0 && h > 0 {
                    (w, h)
                } else {
                    (0, 0)
                }
            },
            None => (0, 0),
        }
    }
}

/// How many of the items `i..` render a visible quad, walking the cache
/// contents forward: an item is visible when the extent it renders with is
/// nonzero in both directions, and each rendered item's key is cached
/// afterwards.
pub open spec fn visible_count(
    m: Map<GlyphCacheKey, GlyphCacheEntry>,
    styles: Seq<Style>,
    items: Seq<PlacedGlyph>,
    rasters: Seq<Option<RasterizedGlyph>>,
    i: int,
) -> int
    decreases items.len() - i,
{
    if i < 0 || i >= items.len() {
        0
    } else {
        let key = placed_key(styles, items[i]);
        let d = placed_dims(m, styles, items[i], rasters[i]);
        let m2 = if m.contains_key(key) {
            m
        } else {
            m.insert(
                key,
                GlyphCacheEntry {
                    u: 0,
                    v: 0,
                    left: 0,
                    top: 0,
                    width: d.0 as u16,
                    height: d.1 as u16,
                },
            )
        };
        (if d.0 > 0 && d.1 > 0 {
            1int
        } else {
            0int
        }) + visible_count(m2, styles, items, rasters, i + 1)
    }
}

/// Every item from `i` on that misses the keys known so far comes with a
/// rasterized bitmap.
pub open spec fn rasters_adequate(
    dom: Set<GlyphCacheKey>,
    styles: Seq<Style>,
    items: Seq<PlacedGlyph>,
    rasters: Seq<Option<RasterizedGlyph>>,
    i: int,
) -> bool
    decreases items.len() - i,
{
    if i < 0 || i >= items.len() {
        true
    } else {
        let key = placed_key(styles, items[i]);
        &&& dom.contains(key) || rasters[i] is Some
        &&& rasters_adequate(dom.insert(key), styles, items, rasters, i + 1)
    }
}

/// Two caches agree on which keys they hold and on the extent recorded
/// under each key.
pub open spec fn dims_agree(
    a: Map<GlyphCacheKey, GlyphCacheEntry>,
    b: Map<GlyphCacheKey, GlyphCacheEntry>,
) -> bool {
    &&& a.dom() == b.dom()
    &&& forall|k: GlyphCacheKey|
        a.contains_key(k) ==> (#[trigger] a[k]).width == b[k].width && a[k].height == b[k].height
}


/// The view of each emitted quad's four corners.
pub open spec fn quad_views(quads: Seq<[Vertex; 4]>) -> Seq<Seq<Vertex>> {
    quads.map_values(|q: [Vertex; 4]| q@)
}

/// Spec-level engine state for the emission simulation: the cache contents
/// and the shelf packer's cursor over an atlas of side `tex_size`.
pub struct EmitState {
    pub entries: Map<GlyphCacheKey, GlyphCacheEntry>,
    pub tex_size: int,
    pub cur_x: int,
    pub cur_y: int,
    pub max_y: int,
}

/// The simulation state a glyph cache is in.
pub open spec fn engine_state(c: GlyphCache) -> EmitState {
    EmitState {
        entries: c@,
        tex_size: c.tex_size as int,
        cur_x: c.current_x as int,
        cur_y: c.current_y as int,
        max_y: c.max_y as int,
    }
}

/// Where the simulated shelf packer places a bitmap of the given width
/// (see `shelf_origin`).
pub open spec fn sim_origin(st: EmitState, w: int) -> (int, int) {
    if st.cur_x + w >= st.tex_size {
        (0int, st.max_y)
    } else {
        (st.cur_x, st.cur_y)
    }
}

/// Whether a bitmap fits the simulated atlas at the packer's chosen origin
/// (see `shelf_fits`).
pub open spec fn sim_fits(st: EmitState, w: int, h: int) -> bool {
    let o = sim_origin(st, w);
    o.0 + w <= st.tex_size && o.1 + h <= st.tex_size
}

/// The simulated state after recording entry `e` under `key` (see
/// `GlyphCache::insert`).
pub open spec fn sim_insert(st: EmitState, key: GlyphCacheKey, e: GlyphCacheEntry) -> EmitState {
    EmitState {
        entries: st.entries.insert(key, e),
        tex_size: st.tex_size,
        cur_x: e.u + e.width,
        cur_y: e.v as int,
        max_y: if e.v + e.height > st.max_y {
            e.v + e.height
        } else {
            st.max_y
        },
    }
}

/// Everything one paragraph emission produces: the state after, the quad
/// corner sequences, upload descriptors and pixel bytes in emission order,
/// or the error it stops with (outputs are then discarded).
pub struct EmitSim {
    pub state: EmitState,
    pub quads: Seq<Seq<Vertex>>,
    pub updates: Seq<BufferImageCopy>,
    pub pixels: Seq<u8>,
    pub error: Option<RenderError>,
}

/// The paragraph emission, simulated item by item from item `i` with the
/// pixel blob already `off` bytes long: each glyph either reuses its
/// cached entry or records its bitmap at the packer's next origin, visible
/// glyphs emit one quad (and, when freshly recorded, one upload and their
/// packed pixels), and the walk stops at the first out-of-range pen,
/// missing bitmap, or bitmap the atlas cannot hold.
pub open spec fn emit_sim(
    st: EmitState,
    styles: Seq<Style>,
    items: Seq<PlacedGlyph>,
    rasters: Seq<Option<RasterizedGlyph>>,
    i: int,
    off: int,
) -> EmitSim
    decreases items.len() - i,
{
    if i < 0 || i >= items.len() {
        EmitSim {
            state: st,
            quads: Seq::empty(),
            updates: Seq::empty(),
            pixels: Seq::empty(),
            error: None,
        }
    } else {
        let it = items[i];
        let style = styles[it.style_idx as int];
        if !pen_ok(style, it.pen, it.glyph) {
            EmitSim {
                state: st,
                quads: Seq::empty(),
                updates: Seq::empty(),
                pixels: Seq::empty(),
                error: Some(RenderError::PenOutOfRange),
            }
        } else {
            let key = glyph_key(style, it.pen, it.glyph);
            let x = pen_px(it.pen.x + it.glyph.x_offset, style.subpixel as int);
            let y = pen_py(it.pen.y + it.glyph.y_offset);
            if st.entries.contains_key(key) {
                let e = st.entries[key];
                let rest = emit_sim(st, styles, items, rasters, i + 1, off);
                if e.width > 0 && e.height > 0 {
                    EmitSim {
                        state: rest.state,
                        quads: seq![glyph_quad(x, y, e, style.color)] + rest.quads,
                        updates: rest.updates,
                        pixels: rest.pixels,
                        error: rest.error,
                    }
                } else {
                    rest
                }
            } else if rasters[i] is None {
                EmitSim {
                    state: st,
                    quads: Seq::empty(),
                    updates: Seq::empty(),
                    pixels: Seq::empty(),
                    error: Some(RenderError::MissingRaster),
                }
            } else {
                let rst = rasters[i]->Some_0;
                let w = rst.width_sub as int / 3;
                let h = rst.rows as int;
                if w > 0 && h > 0 && !sim_fits(st, w, h) {
                    EmitSim {
                        state: st,
                        quads: Seq::empty(),
                        updates: Seq::empty(),
                        pixels: Seq::empty(),
                        error: Some(RenderError::AtlasExhausted),
                    }
                } else {
                    let ew: u16 = if w > 0 && h > 0 {
                        w as u16
                    } else {
                        0u16
                    };
                    let eh: u16 = if w > 0 && h > 0 {
                        h as u16
                    } else {
                        0u16
                    };
                    let o = sim_origin(st, ew as int);
                    let e = GlyphCacheEntry {
                        u: o.0 as u16,
                        v: o.1 as u16,
                        left: rst.left as i16,
                        top: rst.top as i16,
                        width: ew,
                        height: eh,
                    };
                    let st2 = sim_insert(st, key, e);
                    if w > 0 && h > 0 {
                        let rest = emit_sim(st2, styles, items, rasters, i + 1, off + 4 * (w * h));
                        EmitSim {
                            state: rest.state,
                            quads: seq![glyph_quad(x, y, e, style.color)] + rest.quads,
                            updates: seq![
                                (BufferImageCopy {
                                    buffer_offset: off as u64,
                                    width: w as u32,
                                    height: h as u32,
                                    u: e.u as i32,
                                    v: e.v as i32,
                                }),
                            ] + rest.updates,
                            pixels: rgba_of(rst) + rest.pixels,
                            error: rest.error,
                        }
                    } else {
                        emit_sim(st2, styles, items, rasters, i + 1, off)
                    }
                }
            }
        }
    }
}

impl TextEngine {
    /// Renders the placed glyphs of one paragraph, in shaped order, into a
    /// fresh output. `rasters[i]` supplies the bitmap for item `i` where
    /// its key is not yet cached (`raster_request` says which those are).
    ///
    /// The render is the emission walk `emit_sim`, exactly: on success the
    /// quads, upload descriptors and pixel bytes equal the walk's outputs
    /// (so the quad count is the coverage count, the uploads tile the
    /// pixel blob in emission order, and the output keeps its alignment
    /// invariant), and the cache ends in the walk's state; an error is
    /// returned precisely when the walk stops with it. The cache only
    /// ever grows.
    #[verifier::rlimit(100)]
    #[verifier::spinoff_prover]
    pub fn emit_paragraph(
        &mut self,
        styles: &Vec<Style>,
        items: &Vec<PlacedGlyph>,
        rasters: &Vec<Option<RasterizedGlyph>>,
    ) -> (r: Result<Text, RenderError>)
        requires
            old(self).wf(),
            forall|i: int| 0 <= i < styles@.len() ==> (#[trigger] styles@[i]).wf(),
            forall|i: int|
                0 <= i < items@.len() ==> (#[trigger] items@[i]).style_idx < styles@.len(),
            rasters@.len() == items@.len(),
            forall|i: int|
                0 <= i < rasters@.len() ==> ((#[trigger] rasters@[i]) matches Some(rst)
                    ==> rst.wf()),
        ensures
            final(self).wf(),
            final(self).glyph_cache.tex_size == old(self).glyph_cache.tex_size,
            old(self).glyph_cache@.submap_of(final(self).glyph_cache@),
            ({
                let sim = emit_sim(
                    engine_state(old(self).glyph_cache),
                    styles@,
                    items@,
                    rasters@,
                    0,
                    0,
                );
                match r {
                    Ok(text) => {
                        &&& sim.error is None
                        &&& engine_state(final(self).glyph_cache) == sim.state
                        &&& quad_views(text.quads@) == sim.quads
                        &&& text.buffer_updates@ == sim.updates
                        &&& text.pixels@ == sim.pixels
                        &&& text.quads@.len() == visible_count(
                            old(self).glyph_cache@,
                            styles@,
                            items@,
                            rasters@,
                            0,
                        )
                        &&& text_wf(text)
                    },
                    Err(e) => {
                        &&& sim.error == Some(e)
                        &&& (forall|i: int|
                            0 <= i < items@.len() ==> pen_ok(
                                styles@[(#[trigger] items@[i]).style_idx as int],
                                items@[i].pen,
                                items@[i].glyph,
                            )) ==> e != RenderError::PenOutOfRange
                        &&& rasters_adequate(
                            old(self).glyph_cache@.dom(),
                            styles@,
                            items@,
                            rasters@,
                            0,
                        ) ==> e != RenderError::MissingRaster
                    },
                }
            }),
    {
        let mut text = Text::new();
        let ghost m0 = self.glyph_cache@;
        let ghost mut msim = self.glyph_cache@;
        let ghost sim0 = emit_sim(engine_state(self.glyph_cache), styles@, items@, rasters@, 0, 0);
        let n = items.len();
        let mut i: usize = 0;
        proof {
            assert(quad_views(text.quads@) =~= Seq::<Seq<Vertex>>::empty());
            assert(Seq::<Seq<Vertex>>::empty() + sim0.quads =~= sim0.quads);
            assert(Seq::<BufferImageCopy>::empty() + sim0.updates =~= sim0.updates);
            assert(Seq::<u8>::empty() + sim0.pixels =~= sim0.pixels);
        }
        while i < n
            invariant
                self.wf(),
                self.glyph_cache.tex_size == old(self).glyph_cache.tex_size,
                m0 == old(self).glyph_cache@,
                m0.submap_of(self.glyph_cache@),
                text_wf(text),
                n == items@.len(),
                rasters@.len() == n,
                forall|q: int| 0 <= q < styles@.len() ==> (#[trigger] styles@[q]).wf(),
                forall|q: int|
                    0 <= q < items@.len() ==> (#[trigger] items@[q]).style_idx < styles@.len(),
                forall|q: int|
                    0 <= q < rasters@.len() ==> ((#[trigger] rasters@[q]) matches Some(rst)
                        ==> rst.wf()),
                i <= n,
                dims_agree(self.glyph_cache@, msim),
                text.quads@.len() + visible_count(msim, styles@, items@, rasters@, i as int)
                    == visible_count(m0, styles@, items@, rasters@, 0),
                rasters_adequate(m0.dom(), styles@, items@, rasters@, 0) ==> rasters_adequate(
                    msim.dom(),
                    styles@,
                    items@,
                    rasters@,
                    i as int,
                ),
                sim0 == emit_sim(engine_state(old(self).glyph_cache), styles@, items@, rasters@, 0, 0),
                ({
                    let rest = emit_sim(
                        engine_state(self.glyph_cache),
                        styles@,
                        items@,
                        rasters@,
                        i as int,
                        text.pixels@.len() as int,
                    );
                    &&& sim0.error == rest.error
                    &&& sim0.state == rest.state
                    &&& sim0.quads == quad_views(text.quads@) + rest.quads
                    &&& sim0.updates == text.buffer_updates@ + rest.updates
                    &&& sim0.pixels == text.pixels@ + rest.pixels
                }),
            decreases n - i,
        {
            let it = items[i];
            let style = &styles[it.style_idx];
            let ghost key = placed_key(styles@, it);
            let ghost d = placed_dims(msim, styles@, it, rasters@[i as int]);
            let ghost mpre = self.glyph_cache@;
            let ghost cpre = self.glyph_cache;
            let ghost quads_pre = text.quads@;
            let ghost updates_pre = text.buffer_updates@;
            let ghost pixels_pre = text.pixels@;
            let ghost off_pre = text.pixels@.len() as int;
            let ghost st_now = engine_state(cpre);
            let ghost rest_pre = emit_sim(st_now, styles@, items@, rasters@, i as int, off_pre);
            let step = match &rasters[i] {
                Some(rst) => self.rasterize_glyph(&mut text, style, it.pen, &it.glyph, Some(rst)),
                None => {
                    match self.raster_request(style, it.pen, &it.glyph) {
                        Some(_) => {
                            proof {
                                if rasters_adequate(m0.dom(), styles@, items@, rasters@, 0) {
                                    assert(!msim.dom().contains(key));
                                }
                                assert(rest_pre.error == Some(RenderError::MissingRaster));
                            }
                            return Err(RenderError::MissingRaster);
                        },
                        None => self.rasterize_glyph(&mut text, style, it.pen, &it.glyph, None),
                    }
                },
            };
            match step {
                Ok(()) => {},
                Err(e) => {
                    proof {
                        vstd::map_lib::lemma_submap_of_trans(m0, mpre, self.glyph_cache@);
                        if e == RenderError::AtlasExhausted {
                            let rst = rasters@[i as int]->Some_0;
                            let w = rst.width_sub as int / 3;
                            let h = rst.rows as int;
                            assert(!shelf_fits(cpre, (w) as u16, rst.rows as u16));
                            assert(!sim_fits(st_now, w, h));
                            assert(rest_pre.error == Some(e));
                        } else {
                            assert(rest_pre.error == Some(e));
                        }
                    }
                    return Err(e);
                },
            }
            proof {
                let m2 = if msim.contains_key(key) {
                    msim
                } else {
                    msim.insert(
                        key,
                        GlyphCacheEntry {
                            u: 0,
                            v: 0,
                            left: 0,
                            top: 0,
                            width: d.0 as u16,
                            height: d.1 as u16,
                        },
                    )
                };
                assert(visible_count(msim, styles@, items@, rasters@, i as int) == (if d.0 > 0
                    && d.1 > 0 {
                    1int
                } else {
                    0int
                }) + visible_count(m2, styles@, items@, rasters@, i + 1));
                if mpre.contains_key(key) {
                    assert(msim.dom().insert(key) =~= msim.dom());
                    assert(m2 == msim);
                } else {
                    assert(self.glyph_cache@.dom() =~= msim.dom().insert(key));
                    assert(m2.dom() =~= msim.dom().insert(key));
                    assert forall|k: GlyphCacheKey| self.glyph_cache@.contains_key(k) implies (
                    #[trigger] self.glyph_cache@[k]).width == m2[k].width
                        && self.glyph_cache@[k].height == m2[k].height by {
                        if k != key {
                            assert(mpre.contains_key(k));
                        }
                    }
                }
                vstd::map_lib::lemma_submap_of_trans(m0, mpre, self.glyph_cache@);
                msim = m2;

                // the emission walk takes the same step the render took
                let stylev = styles@[it.style_idx as int];
                let px = pen_px(it.pen.x + it.glyph.x_offset, stylev.subpixel as int);
                let py = pen_py(it.pen.y + it.glyph.y_offset);
                if mpre.contains_key(key) {
                    let e = mpre[key];
                    let rest_next = emit_sim(
                        st_now,
                        styles@,
                        items@,
                        rasters@,
                        i + 1,
                        off_pre,
                    );
                    assert(engine_state(self.glyph_cache) == st_now);
                    if e.width > 0 && e.height > 0 {
                        assert(rest_pre.quads == seq![glyph_quad(px, py, e, stylev.color)]
                            + rest_next.quads);
                        assert(quad_views(text.quads@) =~= quad_views(quads_pre).push(
                            glyph_quad(px, py, e, stylev.color),
                        ));
                        assert(quad_views(quads_pre) + rest_pre.quads =~= quad_views(text.quads@)
                            + rest_next.quads);
                    }
                } else {
                    let rst = rasters@[i as int]->Some_0;
                    let w = rst.width_sub as int / 3;
                    let h = rst.rows as int;
                    let e = self.glyph_cache@[key];
                    let ew: u16 = if w > 0 && h > 0 {
                        w as u16
                    } else {
                        0u16
                    };
                    let o = sim_origin(st_now, ew as int);
                    assert(e.width == ew);
                    assert(o.0 == e.u as int && o.1 == e.v as int);
                    assert(e == (GlyphCacheEntry {
                        u: o.0 as u16,
                        v: o.1 as u16,
                        left: rst.left as i16,
                        top: rst.top as i16,
                        width: ew,
                        height: e.height,
                    }));
                    assert(engine_state(self.glyph_cache) == sim_insert(st_now, key, e));
                    if w > 0 && h > 0 {
                        assert(sim_fits(st_now, w, h));
                        let rest_next = emit_sim(
                            sim_insert(st_now, key, e),
                            styles@,
                            items@,
                            rasters@,
                            i + 1,
                            off_pre + 4 * (w * h),
                        );
                        assert(rest_pre.quads == seq![glyph_quad(px, py, e, stylev.color)]
                            + rest_next.quads);
                        assert(rest_pre.updates == seq![
                            (BufferImageCopy {
                                buffer_offset: off_pre as u64,
                                width: w as u32,
                                height: h as u32,
                                u: e.u as i32,
                                v: e.v as i32,
                            }),
                        ] + rest_next.updates);
                        assert(rest_pre.pixels == rgba_of(rst) + rest_next.pixels);
                        lemma_rgba_of_len(rst);
                        assert(h * (4 * w) == 4 * (w * h)) by (nonlinear_arith);
                        assert(text.pixels@.len() as int == off_pre + 4 * (w * h));
                        assert(quad_views(text.quads@) =~= quad_views(quads_pre).push(
                            glyph_quad(px, py, e, stylev.color),
                        ));
                        assert(quad_views(quads_pre) + rest_pre.quads =~= quad_views(text.quads@)
                            + rest_next.quads);
                        assert(updates_pre + rest_pre.updates =~= text.buffer_updates@
                            + rest_next.updates);
                        assert(pixels_pre + rest_pre.pixels =~= text.pixels@ + rest_next.pixels);
                    }
                }
            }
            i = i + 1;
        }
        proof {
            let rest = emit_sim(
                engine_state(self.glyph_cache),
                styles@,
                items@,
                rasters@,
                n as int,
                text.pixels@.len() as int,
            );
            assert(rest.quads =~= Seq::<Seq<Vertex>>::empty());
            assert(quad_views(text.quads@) + rest.quads =~= quad_views(text.quads@));
            assert(text.buffer_updates@ + rest.updates =~= text.buffer_updates@);
            assert(text.pixels@ + rest.pixels =~= text.pixels@);
            assert(text.quads@.len() == quad_views(text.quads@).len());
        }
        Ok(text)
    }
}


/// Cache idempotence at the paragraph level: when every item's pen is
/// emittable and every item's key is already cached, the emission walk
/// succeeds, records nothing new, uploads nothing and appends no pixels -
/// each visible glyph's quad simply references its cached atlas entry
/// (the hit branch of `emit_sim`).
pub proof fn lemma_cached_render_is_pure(
    st: EmitState,
    styles: Seq<Style>,
    items: Seq<PlacedGlyph>,
    rasters: Seq<Option<RasterizedGlyph>>,
    i: int,
    off: int,
)
    requires
        0 <= i <= items.len(),
        forall|k: int|
            i <= k < items.len() ==> pen_ok(
                styles[(#[trigger] items[k]).style_idx as int],
                items[k].pen,
                items[k].glyph,
            ),
        forall|k: int|
            i <= k < items.len() ==> st.entries.contains_key(
                placed_key(styles, #[trigger] items[k]),
            ),
    ensures
        ({
            let sim = emit_sim(st, styles, items, rasters, i, off);
            &&& sim.error is None
            &&& sim.state == st
            &&& sim.updates == Seq::<BufferImageCopy>::empty()
            &&& sim.pixels == Seq::<u8>::empty()
        }),
    decreases items.len() - i,
{
    if i < items.len() {
        lemma_cached_render_is_pure(st, styles, items, rasters, i + 1, off);
    }
}

/// Saturates an integer into the `i32` range.
pub open spec fn sat_i32(v: int) -> int {
    if v > i32::MAX as int {
        i32::MAX as int
    } else if v < i32::MIN as int {
        i32::MIN as int
    } else {
        v
    }
}

/// The second render pass: walks the style-run spans and the shaped glyphs
/// in lockstep, placing each glyph at the running pen position, resetting
/// the pen to the left margin and advancing the baseline by one line skip
/// whenever the glyph's cluster end equals the next scheduled break point.
/// Yields the placed glyphs and the final baseline. Pen arithmetic
/// saturates at the `i32` range.
pub open spec fn layout_items(
    style_ends: Seq<u32>,
    nstyles: int,
    glyph_ends: Seq<u32>,
    glyphs: Seq<ShapedGlyph>,
    breaks: Seq<u32>,
    left_margin: int,
    lineskip: int,
    si: int,
    gi: int,
    bi: int,
    px: int,
    py: int,
) -> (Seq<PlacedGlyph>, int)
    decreases glyphs.len() - gi,
{
    if !(0 <= gi < glyphs.len() && 0 <= si < nstyles && nstyles < style_ends.len()
        && glyphs.len() < glyph_ends.len() && 0 <= bi && i32::MIN <= px <= i32::MAX
        && i32::MIN <= py <= i32::MAX) {
        (Seq::empty(), py)
    } else {
        let g = glyphs[gi];
        let r = glyph_ends[gi + 1];
        let style_r = style_ends[si + 1];
        let nb: u32 = if bi < breaks.len() {
            breaks[bi]
        } else {
            0u32
        };
        let item = PlacedGlyph {
            style_idx: si as usize,
            pen: Vec2 { x: px as i32, y: py as i32 },
            glyph: g,
        };
        let px2 = if r == nb {
            left_margin
        } else {
            sat_i32(px + g.x_advance)
        };
        let py2 = if r == nb {
            sat_i32(py + lineskip)
        } else {
            py
        };
        let bi2 = if r == nb {
            bi + 1
        } else {
            bi
        };
        let si2 = if r == style_r {
            si + 1
        } else {
            si
        };
        let rest = layout_items(
            style_ends,
            nstyles,
            glyph_ends,
            glyphs,
            breaks,
            left_margin,
            lineskip,
            si2,
            gi + 1,
            bi2,
            px2,
            py2,
        );
        (seq![item] + rest.0, rest.1)
    }
}

/// Places every shaped glyph of a paragraph on its line (see
/// `layout_items`) and returns the placed glyphs together with the cursor
/// left for the next paragraph: the left margin, at the final baseline.
pub fn layout_paragraph(
    styles_seg: &Segmentation<usize>,
    shaped: &Segmentation<ShapedGlyph>,
    breaks: &Vec<u32>,
    cursor: Vec2<i32>,
    left_margin: i32,
    lineskip: i32,
) -> (r: (Vec<PlacedGlyph>, Vec2<i32>))
    requires
        styles_seg.wf(),
        shaped.wf(),
    ensures
        ({
            let plan = layout_items(
                styles_seg.index@,
                styles_seg.data@.len() as int,
                shaped.index@,
                shaped.data@,
                breaks@,
                left_margin as int,
                lineskip as int,
                0,
                0,
                0,
                cursor.x as int,
                cursor.y as int,
            );
            &&& r.0@ == plan.0
            &&& r.1.x == left_margin
            &&& r.1.y == plan.1
            &&& forall|k: int|
                0 <= k < r.0@.len() ==> (#[trigger] r.0@[k]).style_idx < styles_seg.data@.len()
        }),
{
    let nstyles = styles_seg.data.len();
    let nglyphs = shaped.data.len();
    let ghost style_ends = styles_seg.index@;
    let ghost glyph_ends = shaped.index@;
    let ghost glyphs = shaped.data@;
    let ghost plan0 = layout_items(
        style_ends,
        nstyles as int,
        glyph_ends,
        glyphs,
        breaks@,
        left_margin as int,
        lineskip as int,
        0,
        0,
        0,
        cursor.x as int,
        cursor.y as int,
    );
    let mut items: Vec<PlacedGlyph> = Vec::new();
    let mut si: usize = 0;
    let mut gi: usize = 0;
    let mut bi: usize = 0;
    let mut px: i32 = cursor.x;
    let mut py: i32 = cursor.y;
    proof {
        assert(Seq::<PlacedGlyph>::empty() + plan0.0 =~= plan0.0);
    }
    while gi < nglyphs && si < nstyles
        invariant
            styles_seg.wf(),
            shaped.wf(),
            style_ends == styles_seg.index@,
            glyph_ends == shaped.index@,
            glyphs == shaped.data@,
            nstyles == styles_seg.data@.len(),
            nglyphs == glyphs.len(),
            si <= nstyles,
            gi <= nglyphs,
            bi <= gi,
            forall|k: int| 0 <= k < items@.len() ==> (#[trigger] items@[k]).style_idx < nstyles,
            ({
                let rest = layout_items(
                    style_ends,
                    nstyles as int,
                    glyph_ends,
                    glyphs,
                    breaks@,
                    left_margin as int,
                    lineskip as int,
                    si as int,
                    gi as int,
                    bi as int,
                    px as int,
                    py as int,
                );
                items@ + rest.0 == plan0.0 && rest.1 == plan0.1
            }),
        decreases nglyphs - gi,
    {
        let g = shaped.data[gi];
        let r_end = shaped.index[gi + 1];
        let style_r = styles_seg.index[si + 1];
        let nb: u32 = if bi < breaks.len() {
            breaks[bi]
        } else {
            0
        };
        let ghost pre = items@;
        items.push(PlacedGlyph { style_idx: si, pen: Vec2 { x: px, y: py }, glyph: g });
        proof {
            let rest = layout_items(
                style_ends,
                nstyles as int,
                glyph_ends,
                glyphs,
                breaks@,
                left_margin as int,
                lineskip as int,
                si as int,
                gi as int,
                bi as int,
                px as int,
                py as int,
            );
            assert(pre + rest.0 =~= items@ + rest.0.drop_first());
        }
        if r_end == nb {
            px = left_margin;
            let s: i64 = py as i64 + lineskip as i64;
            py = if s > i32::MAX as i64 {
                i32::MAX
            } else if s < i32::MIN as i64 {
                i32::MIN
            } else {
                s as i32
            };
            bi = bi + 1;
        } else {
            let s: i64 = px as i64 + g.x_advance as i64;
            px = if s > i32::MAX as i64 {
                i32::MAX
            } else if s < i32::MIN as i64 {
                i32::MIN
            } else {
                s as i32
            };
        }
        if r_end == style_r {
            si = si + 1;
        }
        gi = gi + 1;
    }
    proof {
        let rest = layout_items(
            style_ends,
            nstyles as int,
            glyph_ends,
            glyphs,
            breaks@,
            left_margin as int,
            lineskip as int,
            si as int,
            gi as int,
            bi as int,
            px as int,
            py as int,
        );
        assert(rest.0 =~= Seq::<PlacedGlyph>::empty());
        assert(items@ + Seq::<PlacedGlyph>::empty() =~= items@);
    }
    (items, Vec2 { x: left_margin, y: py })
}

/// The line-break candidate boundaries of a paragraph text, alternating
/// word starts and trailing-whitespace starts (see
/// `StyledParagraph::linebreak_candidates`).
pub open spec fn candidates_index(text: Seq<u8>) -> Seq<u32> {
    let bs = lb_boundaries(text.subrange(0, ws_trimmed_end_len(text)));
    Seq::new(
        (2 * (bs.len() - 1)) as nat,
        |i: int|
            if i % 2 == 0 {
                bs[i / 2]
            } else {
                (bs[i / 2] + ws_trimmed_end_len(
                    text.subrange(bs[i / 2] as int, bs[i / 2 + 1] as int),
                )) as u32
            },
    )
}

/// The glyph-segmentation boundaries: each glyph's cluster offset, closed
/// by the text length.
pub open spec fn glyph_boundaries(glyphs: Seq<ShapedGlyph>, text_len: int) -> Seq<u32> {
    Seq::new(
        (glyphs.len() + 1) as nat,
        |k: int|
            if k < glyphs.len() {
                glyphs[k].cluster
            } else {
                text_len as u32
            },
    )
}

/// The style-run boundaries: each run's starting offset, closed by the
/// text length.
pub open spec fn style_boundaries(runs: Seq<Run>, text_len: int) -> Seq<u32> {
    Seq::new(
        (runs.len() + 1) as nat,
        |k: int|
            if k < runs.len() {
                runs[k].begin
            } else {
                text_len as u32
            },
    )
}

/// Every glyph advance is nonnegative (horizontal left-to-right layout).
pub open spec fn advances_ok(glyphs: Seq<ShapedGlyph>) -> bool {
    forall|k: int| 0 <= k < glyphs.len() ==> 0 <= (#[trigger] glyphs[k]).x_advance
}

/// The whole paragraph plan: shape bookkeeping, candidate measurement,
/// greedy wrap, and the layout walk, composed. Yields the placed glyphs
/// and the final baseline.
pub open spec fn plan_spec(
    runs: Seq<Run>,
    text: Seq<u8>,
    rgv: Seq<Seq<ShapedGlyph>>,
    skips: Seq<i32>,
    cursor: Vec2<i32>,
    max_line_width: i32,
    parskip_q6: i32,
) -> (Seq<PlacedGlyph>, int) {
    let glyphs = concat_rebased(runs, rgv);
    let gidx = glyph_boundaries(glyphs, text.len() as int);
    let sidx = style_boundaries(runs, text.len() as int);
    let skip = max_lineskip(skips);
    let cand = candidates_index(text);
    let widths = measure_all(cand, gidx, glyphs, 0, 0).map_values(|v: int| v as i32);
    let pairs = width_pairs(cand, widths);
    let breaks = greedy_idxs(pairs, max_line_width as int, 0, 0).map_values(
        |q: int| pairs[q].0,
    );
    let y0 = sat_i32(cursor.y + (skip * parskip_q6 + 32) / 64);
    layout_items(
        sidx,
        runs.len() as int,
        gidx,
        glyphs,
        breaks,
        cursor.x as int,
        skip,
        0,
        0,
        0,
        cursor.x as int,
        y0,
    )
}

/// Plans one paragraph render: shapes bookkeeping, candidate widths,
/// greedy line breaks and the layout walk. Returns the placed glyphs, the
/// per-run styles to render them with, and the cursor for the next
/// paragraph (left margin at the final baseline). The first line's
/// baseline advances by the paragraph's line skip scaled by
/// `parskip_q6 / 64`.
pub fn plan_paragraph(
    para: &StyledParagraph,
    run_glyphs: &Vec<Vec<ShapedGlyph>>,
    run_lineskips: &Vec<i32>,
    cursor: Vec2<i32>,
    max_line_width: i32,
    parskip_q6: i32,
) -> (r: (Vec<PlacedGlyph>, Vec<Style>, Vec2<i32>))
    requires
        para.wf(),
        run_glyphs@.len() == para.runs@.len(),
        run_lineskips@.len() == para.runs@.len(),
        run_glyphs_wf(para.runs@, run_glyphs@.map_values(|v: Vec<ShapedGlyph>| v@)),
        advances_ok(concat_rebased(para.runs@, run_glyphs@.map_values(|v: Vec<ShapedGlyph>| v@))),
        sum_adv_from(concat_rebased(para.runs@, run_glyphs@.map_values(|v: Vec<ShapedGlyph>| v@)), 0)
            <= i32::MAX,
        0 <= parskip_q6,
        max_lineskip(run_lineskips@) * parskip_q6 + 32 <= i32::MAX,
    ensures
        ({
            let ps = plan_spec(
                para.runs@,
                para.text@,
                run_glyphs@.map_values(|v: Vec<ShapedGlyph>| v@),
                run_lineskips@,
                cursor,
                max_line_width,
                parskip_q6,
            );
            &&& r.0@ == ps.0
            &&& r.2.x == cursor.x
            &&& r.2.y == ps.1
            &&& r.1@.len() == para.runs@.len()
            &&& forall|k: int| 0 <= k < r.0@.len() ==> (#[trigger] r.0@[k]).style_idx < r.1@.len()
            &&& forall|i: int|
                0 <= i < r.1@.len() ==> (#[trigger] r.1@[i]).wf() && r.1@[i].font_idx
                    == para.runs@[i].style.font_idx && r.1@[i].size == para.runs@[i].style.size
                    && r.1@[i].weight == para.runs@[i].style.weight && r.1@[i].color
                    == para.runs@[i].style.color && r.1@[i].autohint
                    == para.runs@[i].style.autohint && r.1@[i].subpixel
                    == para.runs@[i].style.subpixel
        }),
{
    let ghost rgv = run_glyphs@.map_values(|v: Vec<ShapedGlyph>| v@);
    let (shaped, max_skip) = shape_styled_paragraph(para, run_glyphs, run_lineskips);
    let styles_seg = gen_style_segmentation(para);
    proof {
        assert(shaped.index@ =~= glyph_boundaries(shaped.data@, para.text@.len() as int));
        assert(styles_seg.index@ =~= style_boundaries(para.runs@, para.text@.len() as int));
    }
    let widths = line_break_lengths(para, &shaped);
    proof {
        assert(widths.index@ =~= candidates_index(para.text@));
        assert(widths.data@ =~= measure_all(
            candidates_index(para.text@),
            glyph_boundaries(shaped.data@, para.text@.len() as int),
            shaped.data@,
            0,
            0,
        ).map_values(|v: int| v as i32)) by {
            let ms = measure_all(widths.index@, shaped.index@, shaped.data@, 0, 0);
            assert(widths.data@.map_values(|w: i32| w as int) == ms);
            assert forall|k: int| 0 <= k < widths.data@.len() implies widths.data@[k] == (
            #[trigger] ms[k]) as i32 by {
                assert(widths.data@.map_values(|w: i32| w as int)[k] == widths.data@[k] as int);
            }
        }
        assert(widths.data@.len() < usize::MAX);
    }
    let breaks = greedy_breaks(&widths, max_line_width);
    proof {
        let pairs = width_pairs(widths.index@, widths.data@);
        let bs = greedy_idxs(pairs, max_line_width as int, 0, 0);
        assert(breaks@ =~= bs.map_values(|q: int| pairs[q].0));
        lemma_max_lineskip_nonneg(run_lineskips@);
        let sk = max_skip as int;
        let pq = parskip_q6 as int;
        assert(0 <= sk * pq) by (nonlinear_arith)
            requires
                0 <= sk,
                0 <= pq,
        ;
    }
    let skip0 = div_round(max_skip * parskip_q6, 64);
    let s: i64 = cursor.y as i64 + skip0 as i64;
    let y0: i32 = if s > i32::MAX as i64 {
        i32::MAX
    } else if s < i32::MIN as i64 {
        i32::MIN
    } else {
        s as i32
    };
    let (items, cursor2) = layout_paragraph(
        &styles_seg,
        &shaped,
        &breaks,
        Vec2 { x: cursor.x, y: y0 },
        cursor.x,
        max_skip,
    );
    let mut styles: Vec<Style> = Vec::new();
    let mut i: usize = 0;
    while i < para.runs.len()
        invariant
            para.wf(),
            i <= para.runs@.len(),
            styles@.len() == i,
            forall|q: int|
                0 <= q < i ==> (#[trigger] styles@[q]).wf() && styles@[q].font_idx
                    == para.runs@[q].style.font_idx && styles@[q].size == para.runs@[q].style.size
                    && styles@[q].weight == para.runs@[q].style.weight && styles@[q].color
                    == para.runs@[q].style.color && styles@[q].autohint
                    == para.runs@[q].style.autohint && styles@[q].subpixel
                    == para.runs@[q].style.subpixel,
        decreases para.runs@.len() - i,
    {
        styles.push(para.runs[i].style.clone());
        i = i + 1;
    }
    (items, styles, cursor2)
}

} // verus!
