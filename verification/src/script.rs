//! Script tags, text direction, and the locale record handed to the shaping
//! service with every run.

use vstd::prelude::*;

verus! {

/// Packs a four-byte tag into a `u32`, first byte in the low bits.
pub open spec fn spec_make_tag(s: Seq<u8>) -> u32
    recommends
        s.len() == 4,
{
    (s[0] as u32) | ((s[1] as u32) << 8) | ((s[2] as u32) << 16) | ((s[3] as u32) << 24)
}

/// Builds the packed tag for a four-byte identifier.
pub fn make_tag(s: [u8; 4]) -> (r: u32)
    ensures
        r == spec_make_tag(s@),
{
    let ret: u32 = (s[0] as u32) | ((s[1] as u32) << 8u32) | ((s[2] as u32) << 16u32) | ((s[3]
        as u32) << 24u32);
    ret
}

/// An ISO 15924 script tag, packed as by `make_tag`.
#[derive(Debug, Clone, Copy, PartialEq, Eq, Structural)]
pub struct Script(pub u32);

impl Script {
    /// Builds a script tag from its four-letter code, e.g. `b"Latn"`.
    pub fn new(s: &[u8; 4]) -> (r: Script)
        ensures
            r.0 == spec_make_tag(s@),
    {
        Script(make_tag(*s))
    }
}

/// The direction in which a run's text is laid out.
#[derive(Debug, Clone, Copy, PartialEq, Eq, Structural)]
pub enum Direction {
    LeftToRight,
    RightToLeft,
    TopToBottom,
    BottomToTop,
}

impl Direction {
    /// True for the two horizontal directions.
    pub fn is_horizontal(self) -> (r: bool)
        ensures
            r == (self == Direction::LeftToRight || self == Direction::RightToLeft),
    {
        match self {
            Direction::LeftToRight | Direction::RightToLeft => true,
            _ => false,
        }
    }

    /// True for the two vertical directions.
    pub fn is_vertical(self) -> (r: bool)
        ensures
            r == (self == Direction::TopToBottom || self == Direction::BottomToTop),
    {
        match self {
            Direction::TopToBottom | Direction::BottomToTop => true,
            _ => false,
        }
    }
}

/// A language tag, script and direction; opaque to the layout logic, passed
/// through to the shaping service with each run.
#[derive(Debug, Clone)]
pub struct Locale {
    pub lang: Vec<u8>,
    pub script: Script,
    pub direction: Direction,
}

impl Locale {
    /// Builds a locale from a BCP 47 language tag, a script and a direction.
    pub fn new(lang: &[u8], script: Script, direction: Direction) -> (r: Locale)
        ensures
            r.lang@ == lang@,
            r.script == script,
            r.direction == direction,
    {
        let mut v: Vec<u8> = Vec::new();
        let mut i: usize = 0;
        while i < lang.len()
            invariant
                i <= lang.len(),
                v@ == lang@.subrange(0, i as int),
            decreases lang.len() - i,
        {
            v.push(lang[i]);
            i = i + 1;
        }
        proof {
            assert(v@ =~= lang@);
        }
        Locale { lang: v, script, direction }
    }
}

} // verus!
