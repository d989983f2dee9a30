use text_engine::geom::{Color, Vec2};
use text_engine::linebreak::{greedy_breaks, line_break_lengths};
use text_engine::paragraph::{Style, StyledParagraph};
use text_engine::render::{plan_paragraph, RasterizedGlyph, TextEngine};
use text_engine::script::{Direction, Locale, Script};
use text_engine::segmentation::Segmentation;
use text_engine::shape::{gen_style_segmentation, shape_styled_paragraph, ShapedGlyph};

fn locale() -> Locale {
    Locale::new(b"en", Script::new(b"Latn"), Direction::LeftToRight)
}

fn style(font_size: u32, subpixel: i32) -> Style {
    Style {
        font_idx: 0,
        size: font_size,
        weight: 400,
        color: Color::srgb8(255, 255, 255, 255),
        autohint: false,
        subpixel,
        features: Vec::new(),
    }
}

/// One glyph per byte of `text`, 10 pixels of advance each, glyph id taken
/// from the byte value, as a left-to-right shaper would report for a
/// simple ASCII run.
fn ascii_glyphs(text: &str) -> Vec<ShapedGlyph> {
    text.bytes()
        .enumerate()
        .map(|(i, b)| ShapedGlyph {
            glyph_id: b as u32,
            cluster: i as u32,
            x_advance: 640,
            y_advance: 0,
            x_offset: 0,
            y_offset: 0,
        })
        .collect()
}

fn square_raster(px: u32) -> RasterizedGlyph {
    RasterizedGlyph {
        width_sub: 3 * px,
        rows: px,
        pitch: 3 * px,
        left: 0,
        top: 0,
        bytes: vec![0x40; (3 * px * px) as usize],
    }
}

fn empty_raster() -> RasterizedGlyph {
    RasterizedGlyph { width_sub: 0, rows: 0, pitch: 0, left: 0, top: 0, bytes: Vec::new() }
}

#[test]
fn paragraph_text_is_nfd_normalized() {
    let mut p = StyledParagraph::new();
    // U+00E9 decomposes canonically to 'e' followed by U+0301.
    assert!(p.add(locale(), style(16, 1), "\u{e9}"));
    assert_eq!(p.text, vec![0x65, 0xCC, 0x81]);
}

#[test]
fn first_run_leading_whitespace_is_stripped() {
    let mut p = StyledParagraph::new();
    assert!(p.add(locale(), style(16, 1), "  abc"));
    assert_eq!(p.text, b"abc".to_vec());
    assert_eq!(p.runs.len(), 1);
    assert_eq!((p.runs[0].begin, p.runs[0].end), (0, 3));
    // later runs keep their leading whitespace
    assert!(p.add(locale(), style(16, 1), " de"));
    assert_eq!(p.text, b"abc de".to_vec());
    assert_eq!((p.runs[1].begin, p.runs[1].end), (3, 6));
}

#[test]
fn linebreak_candidates_split_words_and_whitespace() {
    let mut p = StyledParagraph::new();
    assert!(p.add(locale(), style(16, 1), "Hello World"));
    let cand = p.linebreak_candidates();
    // segmenter boundaries 0, 6, 11; each span split at its word end
    assert_eq!(cand.index, vec![0, 5, 6, 11]);
    assert_eq!(cand.data.len(), 0);
}

#[test]
fn candidates_trim_trailing_whitespace_of_text() {
    let mut p = StyledParagraph::new();
    assert!(p.add(locale(), style(16, 1), "ab  "));
    let cand = p.linebreak_candidates();
    // text is end-trimmed before segmentation: one word span "ab"
    assert_eq!(cand.index, vec![0, 2]);
}

#[test]
fn cluster_offsets_are_rebased_across_runs() {
    let mut p = StyledParagraph::new();
    assert!(p.add(locale(), style(16, 1), "Hello "));
    assert!(p.add(locale(), style(20, 1), "World"));
    let rg = vec![ascii_glyphs("Hello "), ascii_glyphs("World")];
    let skips = vec![800, 700];
    let (shaped, max_skip) = shape_styled_paragraph(&p, &rg, &skips);
    assert_eq!(max_skip, 800);
    assert_eq!(shaped.data.len(), 11);
    let clusters: Vec<u32> = shaped.data.iter().map(|g| g.cluster).collect();
    assert_eq!(clusters, vec![0, 1, 2, 3, 4, 5, 6, 7, 8, 9, 10]);
    assert_eq!(*shaped.index.last().unwrap(), 11);
    let styles_seg = gen_style_segmentation(&p);
    assert_eq!(styles_seg.index, vec![0, 6, 11]);
    assert_eq!(styles_seg.data, vec![0, 1]);
}

#[test]
fn measured_widths_follow_candidate_spans() {
    let mut p = StyledParagraph::new();
    assert!(p.add(locale(), style(16, 1), "aaaa bbbb cccc"));
    let rg = vec![ascii_glyphs("aaaa bbbb cccc")];
    let (shaped, _) = shape_styled_paragraph(&p, &rg, &vec![800]);
    let widths = line_break_lengths(&p, &shaped);
    assert_eq!(widths.index, vec![0, 4, 5, 9, 10, 14]);
    assert_eq!(widths.data, vec![2560, 640, 2560, 640, 2560]);
}

#[test]
fn greedy_break_positions() {
    // word/space pairs measured for "aaaa bbbb cccc": fit two words per line
    let widths = Segmentation {
        data: vec![2560i32, 640, 2560, 640, 2560],
        index: vec![0u32, 4, 5, 9, 10, 14],
    };
    let breaks = greedy_breaks(&widths, 6400);
    assert_eq!(breaks, vec![10]);
    // a narrower line breaks before every later word
    let breaks1 = greedy_breaks(&widths, 2560);
    assert_eq!(breaks1, vec![5, 10]);
    // every word overflows: each gets its own line. An overlong word is
    // never split; the break before the paragraph's first word lies at
    // offset 0, where the layout walk never matches a cluster end.
    let breaks2 = greedy_breaks(&widths, 100);
    assert_eq!(breaks2, vec![0, 5, 10]);
}

#[test]
fn forced_wrap_two_lines() {
    // P-scenario: "aaaa bbbb cccc" with room for exactly two words
    let mut p = StyledParagraph::new();
    assert!(p.add(locale(), style(16, 1), "aaaa bbbb cccc"));
    let rg = vec![ascii_glyphs("aaaa bbbb cccc")];
    let (items, _styles, cursor2) = plan_paragraph(
        &p,
        &rg,
        &vec![800],
        Vec2 { x: 0, y: 0 },
        6400,
        0,
    );
    assert_eq!(items.len(), 14);
    // first line: pens advance from the left margin
    assert_eq!((items[0].pen.x, items[0].pen.y), (0, 0));
    assert_eq!((items[9].pen.x, items[9].pen.y), (9 * 640, 0));
    // the break lands at the start of "cccc": second line restarts at the margin
    assert_eq!((items[10].pen.x, items[10].pen.y), (0, 800));
    assert_eq!((items[13].pen.x, items[13].pen.y), (3 * 640, 800));
    // the cursor for the next paragraph sits at the margin, one line down
    assert_eq!((cursor2.x, cursor2.y), (0, 800));
}

#[test]
fn two_run_single_line_scenario() {
    // P-scenario: "Hello " + "World" on one wide line gives 10 visible quads
    let mut p = StyledParagraph::new();
    assert!(p.add(locale(), style(16, 1), "Hello "));
    assert!(p.add(locale(), style(20, 1), "World"));
    let rg = vec![ascii_glyphs("Hello "), ascii_glyphs("World")];
    let (items, styles, cursor2) = plan_paragraph(
        &p,
        &rg,
        &vec![800, 700],
        Vec2 { x: 0, y: 0 },
        64000,
        64,
    );
    assert_eq!(items.len(), 11);
    // parskip 64/64 advances the baseline by exactly one line skip
    assert_eq!(items[0].pen.y, 800);
    // no line break: every glyph stays on the first baseline
    assert!(items.iter().all(|it| it.pen.y == 800));
    assert_eq!((cursor2.x, cursor2.y), (0, 800));

    let mut engine = TextEngine::new(1024);
    let rasters: Vec<Option<RasterizedGlyph>> = items
        .iter()
        .map(|it| {
            if it.glyph.glyph_id == b' ' as u32 {
                Some(empty_raster())
            } else {
                Some(square_raster(2))
            }
        })
        .collect();
    let text = engine.emit_paragraph(&styles, &items, &rasters).unwrap();
    // coverage: 11 glyphs minus the one zero-extent space
    assert_eq!(text.quads.len(), 10);
    // distinct keys rasterized once each: H,e,l,o (16pt) and W,o,r,l,d (20pt)
    assert_eq!(text.buffer_updates.len(), 9);
}

#[test]
fn empty_paragraph_renders_nothing() {
    let p = StyledParagraph::new();
    let (items, styles, cursor2) =
        plan_paragraph(&p, &Vec::new(), &Vec::new(), Vec2 { x: 0, y: 0 }, 6400, 64);
    assert!(items.is_empty());
    assert!(styles.is_empty());
    assert_eq!((cursor2.x, cursor2.y), (0, 0));
    let mut engine = TextEngine::new(64);
    let text = engine.emit_paragraph(&styles, &items, &Vec::new()).unwrap();
    assert_eq!(text.quads.len(), 0);
    assert_eq!(text.buffer_updates.len(), 0);
    assert_eq!(text.pixels.len(), 0);
}

#[test]
fn whitespace_only_first_run_becomes_empty() {
    let mut p = StyledParagraph::new();
    assert!(p.add(locale(), style(16, 1), "   "));
    assert!(p.text.is_empty());
    assert_eq!(p.runs.len(), 1);
    assert_eq!((p.runs[0].begin, p.runs[0].end), (0, 0));
    let cand = p.linebreak_candidates();
    assert!(cand.index.is_empty());
}

#[test]
fn second_paragraph_render_uploads_nothing() {
    // cache idempotence at the paragraph level: a repeated render finds
    // every glyph cached and uploads no pixels
    let mut p = StyledParagraph::new();
    assert!(p.add(locale(), style(16, 1), "Hello World"));
    let rg = vec![ascii_glyphs("Hello World")];
    let (items, styles, _) =
        plan_paragraph(&p, &rg, &vec![800], Vec2 { x: 0, y: 0 }, 64000, 0);
    let mut engine = TextEngine::new(1024);
    let rasters: Vec<Option<RasterizedGlyph>> = items
        .iter()
        .map(|it| {
            if it.glyph.glyph_id == b' ' as u32 {
                Some(empty_raster())
            } else {
                Some(square_raster(2))
            }
        })
        .collect();
    let first = engine.emit_paragraph(&styles, &items, &rasters).unwrap();
    assert_eq!(first.quads.len(), 10);
    assert!(first.buffer_updates.len() > 0);

    let none: Vec<Option<RasterizedGlyph>> = items.iter().map(|_| None).collect();
    let second = engine.emit_paragraph(&styles, &items, &none).unwrap();
    assert_eq!(second.quads.len(), 10);
    assert_eq!(second.buffer_updates.len(), 0);
    assert_eq!(second.pixels.len(), 0);
    // the quads of both frames reference the same atlas rectangles
    assert_eq!(first.quads, second.quads);
}
