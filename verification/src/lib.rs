//! A verified text layout and glyph-cache engine.
//!
//! The crate lays out styled, multi-run paragraphs of Unicode text: it
//! breaks paragraphs into lines under a maximum width (greedy, first-fit),
//! tracks shaped glyphs and their source clusters, caches rasterized glyph
//! bitmaps in a shelf-packed atlas with subpixel-phase discrimination, and
//! emits GPU-ready quads, upload descriptors and pixel bytes.
//!
//! Shaping and rasterization are outside services: callers shape each style
//! run and rasterize missing glyphs, and hand the results to this crate as
//! plain values. Unicode segmentation and normalization are called here,
//! through a small set of trusted wrappers.

pub mod geom;
pub mod script;
pub mod segmentation;
pub mod cache;
pub mod unicode;
pub mod paragraph;
pub mod shape;
pub mod linebreak;
pub mod render;
