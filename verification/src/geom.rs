//! Small geometry helpers: colors, vertices, two-component vectors, and the
//! quad builder used when a glyph bitmap is turned into two screen triangles.

use vstd::prelude::*;

verus! {

/// One sRGB color with alpha, 8 bits per channel.
#[derive(Debug, Clone, Copy, PartialEq, Eq, Structural)]
pub struct Color {
    pub r: u8,
    pub g: u8,
    pub b: u8,
    pub a: u8,
}

impl Color {
    /// Builds a color from its four sRGB channels.
    pub fn srgb8(r: u8, g: u8, b: u8, a: u8) -> (c: Color)
        ensures
            c == (Color { r, g, b, a }),
    {
        Color { r, g, b, a }
    }
}

/// One quad corner: screen position in pixels, atlas texel coordinates, and
/// the per-glyph color.
#[derive(Debug, Clone, Copy, PartialEq, Eq, Structural)]
pub struct Vertex {
    pub x: i16,
    pub y: i16,
    pub u: u16,
    pub v: u16,
    pub color: Color,
}

/// A two-component vector; the engine uses it with `i32` coordinates in
/// 26.6 fixed point (64 units per pixel).
#[derive(Debug, Clone, Copy, PartialEq, Eq, Structural)]
pub struct Vec2<T> {
    pub x: T,
    pub y: T,
}

/// Builds a `Vec2` from its two components.
pub fn vec2t<T: Copy>(x: T, y: T) -> (r: Vec2<T>)
    ensures
        r == (Vec2 { x, y }),
{
    Vec2 { x, y }
}

impl<T: Copy> Vec2<T> {
    /// Applies `f` to both components.
    pub fn map<R: Copy, F: Fn(T) -> R>(&self, f: F) -> (r: Vec2<R>)
        requires
            call_requires(f, (self.x,)),
            call_requires(f, (self.y,)),
        ensures
            call_ensures(f, (self.x,), r.x),
            call_ensures(f, (self.y,), r.y),
    {
        Vec2 { x: f(self.x), y: f(self.y) }
    }

    /// Applies `f` pairwise to the components of `self` and `rhs`.
    pub fn map2<R: Copy, U: Copy, F: Fn(T, U) -> R>(&self, rhs: Vec2<U>, f: F) -> (r: Vec2<R>)
        requires
            call_requires(f, (self.x, rhs.x)),
            call_requires(f, (self.y, rhs.y)),
        ensures
            call_ensures(f, (self.x, rhs.x), r.x),
            call_ensures(f, (self.y, rhs.y), r.y),
    {
        Vec2 { x: f(self.x, rhs.x), y: f(self.y, rhs.y) }
    }
}

/// The oriented-area (wedge) component of two 2-vectors.
#[derive(Debug, Clone, Copy, PartialEq, Eq, Structural)]
pub struct BiVec2<T> {
    pub xy: T,
}

/// A rotor: a vector part and a bivector part.
#[derive(Debug, Clone, Copy, PartialEq, Eq, Structural)]
pub struct Rotor2<T>(pub Vec2<T>, pub BiVec2<T>);

/// Rounds `a / b` to the nearest integer, ties away from zero, for
/// nonnegative `a` and positive `b`.
pub fn div_round(a: i32, b: i32) -> (r: i32)
    requires
        0 <= a,
        0 < b,
        a + b / 2 <= i32::MAX,
    ensures
        r == (a + b / 2) / (b as int),
{
    (a + b / 2) / b
}

/// The four corners of an axis-aligned screen rectangle of extent
/// `(w, h)` at `(x, y)`, each carrying the matching atlas texel
/// coordinates starting at `(u, v)` and the given color. Corner order:
/// top-left, bottom-left, top-right, bottom-right.
pub open spec fn quad_vertices(
    x: i16,
    y: i16,
    w: i16,
    h: i16,
    u: u16,
    v: u16,
    color: Color,
) -> Seq<Vertex> {
    seq![
        Vertex { x: x, y: y, u: u, v: v, color },
        Vertex { x: x, y: (y + h) as i16, u: u, v: (v + h) as u16, color },
        Vertex { x: (x + w) as i16, y: y, u: (u + w) as u16, v: v, color },
        Vertex { x: (x + w) as i16, y: (y + h) as i16, u: (u + w) as u16, v: (v + h) as u16, color },
    ]
}

/// Builds the quad for one glyph rectangle.
pub fn gen_quad(x: i16, y: i16, w: i16, h: i16, u: u16, v: u16, color: Color) -> (q: [Vertex; 4])
    requires
        0 < w,
        0 < h,
        x + w <= i16::MAX,
        y + h <= i16::MAX,
        u + w <= u16::MAX,
        v + h <= u16::MAX,
    ensures
        q@ == quad_vertices(x, y, w, h, u, v, color),
{
    let w_ = w as u16;
    let h_ = h as u16;
    let q = [
        Vertex { x: x, y: y, u: u, v: v, color },
        Vertex { x: x, y: y + h, u: u, v: v + h_, color },
        Vertex { x: x + w, y: y, u: u + w_, v: v, color },
        Vertex { x: x + w, y: y + h, u: u + w_, v: v + h_, color },
    ];
    proof {
        assert(q@ =~= quad_vertices(x, y, w, h, u, v, color));
    }
    q
}

} // verus!
