use text_engine::cache::{GlyphCache, GlyphCacheKey};
use text_engine::geom::{Color, Vec2};
use text_engine::paragraph::Style;
use text_engine::render::{PlacedGlyph, RasterizedGlyph, RenderError, Text, TextEngine};
use text_engine::shape::ShapedGlyph;

fn style(subpixel: i32) -> Style {
    Style {
        font_idx: 0,
        size: 16,
        weight: 400,
        color: Color::srgb8(255, 0, 0, 255),
        autohint: false,
        subpixel,
        features: Vec::new(),
    }
}

fn glyph(id: u32) -> ShapedGlyph {
    ShapedGlyph {
        glyph_id: id,
        cluster: 0,
        x_advance: 640,
        y_advance: 0,
        x_offset: 0,
        y_offset: 0,
    }
}

fn key(id: u32, frac64: u32) -> GlyphCacheKey {
    GlyphCacheKey { font_idx: 0, glyph_idx: id, font_size: 16, subpixel: frac64, autohint: false }
}

fn raster_1x1(b: (u8, u8, u8)) -> RasterizedGlyph {
    RasterizedGlyph {
        width_sub: 3,
        rows: 1,
        pitch: 3,
        left: 1,
        top: 2,
        bytes: vec![b.0, b.1, b.2],
    }
}

#[test]
fn shelf_packer_positions() {
    let mut cache = GlyphCache::new(100);
    assert_eq!(cache.insert(key(1, 0), 40, 10, 0, 0), Some((0, 0)));
    assert_eq!(cache.insert(key(2, 0), 40, 20, 0, 0), Some((40, 0)));
    // 80 + 30 >= 100: a new shelf starts below the tallest bitmap so far
    assert_eq!(cache.insert(key(3, 0), 30, 5, 0, 0), Some((0, 20)));
    assert_eq!(cache.insert(key(4, 0), 30, 5, 0, 0), Some((30, 20)));
    let e = cache.get(&key(2, 0)).unwrap();
    assert_eq!((e.u, e.v, e.width, e.height), (40, 0, 40, 20));
    assert!(cache.get(&key(9, 0)).is_none());
}

#[test]
fn atlas_exhaustion_is_reported() {
    let mut cache = GlyphCache::new(16);
    // wider than the atlas: nothing changes and the insert reports failure
    assert_eq!(cache.insert(key(1, 0), 20, 4, 0, 0), None);
    assert!(cache.get(&key(1, 0)).is_none());
    // taller than the atlas
    assert_eq!(cache.insert(key(2, 0), 4, 20, 0, 0), None);
    assert_eq!(cache.insert(key(3, 0), 4, 4, 0, 0), Some((0, 0)));
}

#[test]
fn subpixel_phases_get_distinct_cache_entries() {
    // P-scenario: the same glyph at pen x 10.0 and 10.5 with subpixel=4
    let mut engine = TextEngine::new(512);
    let mut out = Text::new();
    let st = style(4);
    let r = engine.rasterize_glyph(
        &mut out,
        &st,
        Vec2 { x: 640, y: 0 },
        &glyph(42),
        Some(&raster_1x1((1, 2, 3))),
    );
    assert!(r.is_ok());
    let r = engine.rasterize_glyph(
        &mut out,
        &st,
        Vec2 { x: 672, y: 0 },
        &glyph(42),
        Some(&raster_1x1((4, 5, 6))),
    );
    assert!(r.is_ok());
    // phase 0 and phase 2 of 4 (32/64ths) are distinct entries
    let e0 = engine.glyph_cache.get(&key(42, 0)).unwrap();
    let e2 = engine.glyph_cache.get(&key(42, 32)).unwrap();
    assert_ne!((e0.u, e0.v), (e2.u, e2.v));
    assert_eq!(out.buffer_updates.len(), 2);
}

#[test]
fn second_render_reuses_cache_entry() {
    // P-scenario: a second render with an identical key re-rasterizes and
    // uploads nothing, and its quad references the same atlas rectangle
    let mut engine = TextEngine::new(512);
    let mut out = Text::new();
    let st = style(1);
    let pen = Vec2 { x: 640, y: 640 };
    engine.rasterize_glyph(&mut out, &st, pen, &glyph(7), Some(&raster_1x1((9, 9, 9)))).unwrap();
    let uploads_after_first = out.buffer_updates.len();
    let pixels_after_first = out.pixels.len();
    assert_eq!(uploads_after_first, 1);
    engine.rasterize_glyph(&mut out, &st, pen, &glyph(7), None).unwrap();
    assert_eq!(out.quads.len(), 2);
    assert_eq!(out.buffer_updates.len(), uploads_after_first);
    assert_eq!(out.pixels.len(), pixels_after_first);
    assert_eq!(out.quads[0], out.quads[1]);
}

#[test]
fn pixels_are_packed_rgba_without_pitch_padding() {
    let mut engine = TextEngine::new(512);
    let mut out = Text::new();
    let st = style(1);
    // 2x1 pixels with 2 bytes of row padding that must be discarded
    let rst = RasterizedGlyph {
        width_sub: 6,
        rows: 2,
        pitch: 8,
        left: 0,
        top: 0,
        bytes: vec![1, 2, 3, 4, 5, 6, 99, 99, 7, 8, 9, 10, 11, 12, 99, 99],
    };
    engine.rasterize_glyph(&mut out, &st, Vec2 { x: 0, y: 0 }, &glyph(1), Some(&rst)).unwrap();
    assert_eq!(
        out.pixels,
        vec![1, 2, 3, 255, 4, 5, 6, 255, 7, 8, 9, 255, 10, 11, 12, 255]
    );
    assert_eq!(out.buffer_updates.len(), 1);
    let u = &out.buffer_updates[0];
    assert_eq!(u.buffer_offset, 0);
    assert_eq!((u.width, u.height), (2, 2));
}

#[test]
fn buffer_updates_stay_aligned_inside_pixel_blob() {
    // P-property: every upload offset is a multiple of 4 and its pixels
    // lie inside the blob
    let mut engine = TextEngine::new(512);
    let mut out = Text::new();
    let st = style(1);
    for id in 0..6u32 {
        let px = 1 + (id % 3);
        let rst = RasterizedGlyph {
            width_sub: 3 * px,
            rows: px,
            pitch: 3 * px,
            left: 0,
            top: 0,
            bytes: vec![7; (3 * px * px) as usize],
        };
        engine
            .rasterize_glyph(&mut out, &st, Vec2 { x: 640 * id as i32, y: 0 }, &glyph(id), Some(&rst))
            .unwrap();
    }
    assert_eq!(out.buffer_updates.len(), 6);
    for u in &out.buffer_updates {
        assert_eq!(u.buffer_offset % 4, 0);
        assert!(u.buffer_offset + (u.width * u.height * 4) as u64 <= out.pixels.len() as u64);
    }
}

#[test]
fn zero_extent_glyphs_are_cached_but_not_emitted() {
    let mut engine = TextEngine::new(512);
    let mut out = Text::new();
    let st = style(1);
    let empty = RasterizedGlyph {
        width_sub: 0,
        rows: 0,
        pitch: 0,
        left: 0,
        top: 0,
        bytes: Vec::new(),
    };
    engine.rasterize_glyph(&mut out, &st, Vec2 { x: 0, y: 0 }, &glyph(32), Some(&empty)).unwrap();
    assert_eq!(out.quads.len(), 0);
    assert_eq!(out.buffer_updates.len(), 0);
    let e = engine.glyph_cache.get(&key(32, 0)).unwrap();
    assert_eq!((e.width, e.height), (0, 0));
    // the cached zero-extent entry keeps the second render silent too
    engine.rasterize_glyph(&mut out, &st, Vec2 { x: 0, y: 0 }, &glyph(32), None).unwrap();
    assert_eq!(out.quads.len(), 0);
}

#[test]
fn atlas_exhaustion_error_from_render() {
    let mut engine = TextEngine::new(4);
    let mut out = Text::new();
    let st = style(1);
    let big = RasterizedGlyph {
        width_sub: 24,
        rows: 8,
        pitch: 24,
        left: 0,
        top: 0,
        bytes: vec![1; 192],
    };
    let r = engine.rasterize_glyph(&mut out, &st, Vec2 { x: 0, y: 0 }, &glyph(1), Some(&big));
    assert_eq!(r, Err(RenderError::AtlasExhausted));
    assert_eq!(out.quads.len(), 0);
    assert_eq!(out.pixels.len(), 0);
}

#[test]
fn pen_out_of_range_error() {
    let mut engine = TextEngine::new(512);
    let mut out = Text::new();
    let st = style(1);
    let r = engine.rasterize_glyph(
        &mut out,
        &st,
        Vec2 { x: -100, y: 0 },
        &glyph(1),
        Some(&raster_1x1((1, 1, 1))),
    );
    assert_eq!(r, Err(RenderError::PenOutOfRange));
}

#[test]
fn missing_raster_error_from_emit() {
    let mut engine = TextEngine::new(512);
    let items = vec![PlacedGlyph { style_idx: 0, pen: Vec2 { x: 0, y: 0 }, glyph: glyph(5) }];
    let styles = vec![style(1)];
    let rasters: Vec<Option<RasterizedGlyph>> = vec![None];
    let r = engine.emit_paragraph(&styles, &items, &rasters);
    assert_eq!(r.unwrap_err(), RenderError::MissingRaster);
}

#[test]
fn raster_request_only_for_missing_keys() {
    let mut engine = TextEngine::new(512);
    let st = style(1);
    let pen = Vec2 { x: 0, y: 0 };
    let q = engine.raster_request(&st, pen, &glyph(3)).unwrap();
    assert_eq!(q.glyph_id, 3);
    assert_eq!(q.frac64, 0);
    let mut out = Text::new();
    engine.rasterize_glyph(&mut out, &st, pen, &glyph(3), Some(&raster_1x1((1, 1, 1)))).unwrap();
    assert!(engine.raster_request(&st, pen, &glyph(3)).is_none());
}
