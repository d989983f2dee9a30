//! The glyph cache: a map from glyph-cache keys to atlas entries, plus a
//! shelf packer over one fixed square atlas texture.
//!
//! Two glyphs that differ only in their quantized subpixel phase are distinct
//! keys on purpose: each phase has its own pre-shifted bitmap. Entries are
//! immutable once inserted and are never evicted. When a bitmap no longer
//! fits in the atlas, `insert` reports exhaustion instead of overlapping
//! previously packed rectangles.

use vstd::prelude::*;

verus! {

/// Identity of one cached glyph bitmap: font, glyph, size, quantized
/// subpixel phase (in 64ths of a pixel), and the autohint flag.
#[derive(Debug, Clone, Copy, PartialEq, Eq, Structural)]
pub struct GlyphCacheKey {
    pub font_idx: u32,
    pub glyph_idx: u32,
    pub font_size: u32,
    pub subpixel: u32,
    pub autohint: bool,
}

/// One cached bitmap: atlas-space origin `(u, v)`, signed bearings from the
/// pen position to the bitmap's top-left, and extent in pixels. A zero
/// `width` or `height` records a glyph with no visible pixels.
#[derive(Debug, Clone, Copy, PartialEq, Eq, Structural)]
pub struct GlyphCacheEntry {
    pub u: u16,
    pub v: u16,
    pub left: i16,
    pub top: i16,
    pub width: u16,
    pub height: u16,
}

/// The association underlying the cache, built from parallel key and entry
/// lists (later pairs win; the cache keeps its keys unique).
pub open spec fn pairs_to_map(
    keys: Seq<GlyphCacheKey>,
    entries: Seq<GlyphCacheEntry>,
) -> Map<GlyphCacheKey, GlyphCacheEntry>
    decreases keys.len(),
{
    if keys.len() == 0 || entries.len() == 0 {
        Map::empty()
    } else {
        pairs_to_map(keys.drop_last(), entries.drop_last()).insert(keys.last(), entries.last())
    }
}

/// Glyph bitmaps cached in one shelf-packed atlas of side `tex_size`.
/// `current_x, current_y` is the packing cursor on the open shelf and
/// `max_y` the first row below every closed shelf.
#[derive(Debug)]
pub struct GlyphCache {
    pub keys: Vec<GlyphCacheKey>,
    pub entries: Vec<GlyphCacheEntry>,
    pub tex_size: u16,
    pub current_x: u16,
    pub current_y: u16,
    pub max_y: u16,
}

impl View for GlyphCache {
    type V = Map<GlyphCacheKey, GlyphCacheEntry>;

    open spec fn view(&self) -> Map<GlyphCacheKey, GlyphCacheEntry> {
        pairs_to_map(self.keys@, self.entries@)
    }
}

/// Where the shelf packer would place a bitmap of the given width: at the
/// packing cursor, or at the left edge of a fresh shelf when the bitmap
/// does not fit on the open one.
pub open spec fn shelf_origin(cache: GlyphCache, width: u16) -> (u16, u16) {
    if cache.current_x + width >= cache.tex_size {
        (0u16, cache.max_y)
    } else {
        (cache.current_x, cache.current_y)
    }
}

/// Entry bounds the cache maintains: the bitmap lies inside the atlas and
/// its bearings are small enough that emitted vertex coordinates fit `i16`.
pub open spec fn wf_entry(e: GlyphCacheEntry, tex_size: u16) -> bool {
    &&& e.u + e.width <= tex_size
    &&& e.v + e.height <= tex_size
    &&& -8192 <= e.left <= 8192
    &&& -8192 <= e.top <= 8192
}

/// Whether a bitmap of the given extent fits in the atlas at the origin the
/// shelf packer would choose.
pub open spec fn shelf_fits(cache: GlyphCache, width: u16, height: u16) -> bool {
    let (nx, ny) = shelf_origin(cache, width);
    nx + width <= cache.tex_size && ny + height <= cache.tex_size
}

impl GlyphCache {
    /// The cache's internal invariant: parallel key/entry lists with unique
    /// keys, and a packing cursor inside the atlas.
    pub open spec fn wf(&self) -> bool {
        &&& self.keys@.len() == self.entries@.len()
        &&& forall|i: int, j: int|
            0 <= i < j < self.keys@.len() ==> self.keys@[i] != self.keys@[j]
        &&& self.current_x <= self.tex_size
        &&& self.current_y <= self.max_y
        &&& self.max_y <= self.tex_size
        &&& forall|i: int|
            0 <= i < self.entries@.len() ==> wf_entry(#[trigger] self.entries@[i], self.tex_size)
    }

    /// An empty cache over an atlas of side `tex_size`.
    pub fn new(tex_size: u16) -> (c: GlyphCache)
        ensures
            c.wf(),
            c@ == Map::<GlyphCacheKey, GlyphCacheEntry>::empty(),
            c.tex_size == tex_size,
            c.current_x == 0,
            c.current_y == 0,
            c.max_y == 0,
    {
        GlyphCache {
            keys: Vec::new(),
            entries: Vec::new(),
            tex_size,
            current_x: 0,
            current_y: 0,
            max_y: 0,
        }
    }

    /// Looks a key up; returns the entry recorded for it, if any.
    pub fn get(&self, key: &GlyphCacheKey) -> (r: Option<GlyphCacheEntry>)
        requires
            self.wf(),
        ensures
            r == if self@.contains_key(*key) {
                Some(self@[*key])
            } else {
                Option::<GlyphCacheEntry>::None
            },
            r matches Some(e) ==> wf_entry(e, self.tex_size),
    {
        let mut i: usize = 0;
        while i < self.keys.len()
            invariant
                self.wf(),
                i <= self.keys@.len(),
                forall|j: int| 0 <= j < i ==> self.keys@[j] != *key,
            decreases self.keys@.len() - i,
        {
            if self.keys[i] == *key {
                proof {
                    lemma_pairs_to_map_index(self.keys@, self.entries@, i as int);
                }
                return Some(self.entries[i]);
            }
            i = i + 1;
        }
        proof {
            lemma_pairs_to_map_absent(self.keys@, self.entries@, *key);
        }
        None
    }

    /// Records a freshly rasterized bitmap under `key` and returns its atlas
    /// origin, or `None` when the atlas is exhausted (the cache is then
    /// unchanged). Entries are immutable once inserted, so the key must be
    /// new.
    pub fn insert(&mut self, key: GlyphCacheKey, width: u16, height: u16, left: i16, top: i16) -> (r:
        Option<(u16, u16)>)
        requires
            old(self).wf(),
            !old(self)@.contains_key(key),
            -8192 <= left <= 8192,
            -8192 <= top <= 8192,
        ensures
            final(self).wf(),
            final(self).tex_size == old(self).tex_size,
            match r {
                Some(uv) => {
                    &&& shelf_fits(*old(self), width, height)
                    &&& uv == shelf_origin(*old(self), width)
                    &&& final(self)@ == old(self)@.insert(
                        key,
                        GlyphCacheEntry {
                            u: uv.0,
                            v: uv.1,
                            left,
                            top,
                            width,
                            height,
                        },
                    )
                    &&& final(self).current_x == uv.0 + width
                    &&& final(self).current_y == uv.1
                    &&& final(self).max_y == if uv.1 + height > old(self).max_y {
                        (uv.1 + height) as u16
                    } else {
                        old(self).max_y
                    }
                },
                None => {
                    &&& !shelf_fits(*old(self), width, height)
                    &&& final(self)@ == old(self)@
                    &&& final(self).current_x == old(self).current_x
                    &&& final(self).current_y == old(self).current_y
                    &&& final(self).max_y == old(self).max_y
                },
            },
    {
        let mut nx = self.current_x;
        let mut ny = self.current_y;
        if self.current_x as u32 + width as u32 >= self.tex_size as u32 {
            nx = 0;
            ny = self.max_y;
        }
        if nx as u32 + width as u32 > self.tex_size as u32 || ny as u32 + height as u32
            > self.tex_size as u32 {
            return None;
        }
        let entry = GlyphCacheEntry { u: nx, v: ny, left, top, width, height };
        proof {
            lemma_pairs_to_map_absent_all(self.keys@, self.entries@, key);
        }
        self.keys.push(key);
        self.entries.push(entry);
        proof {
            assert(self.keys@.drop_last() =~= old(self).keys@);
            assert(self.entries@.drop_last() =~= old(self).entries@);
        }
        self.current_x = nx + width;
        self.current_y = ny;
        if ny + height > self.max_y {
            self.max_y = ny + height;
        }
        Some((nx, ny))
    }
}

/// Each indexed pair is in the map built from unique keys.
proof fn lemma_pairs_to_map_index(
    keys: Seq<GlyphCacheKey>,
    entries: Seq<GlyphCacheEntry>,
    i: int,
)
    requires
        keys.len() == entries.len(),
        forall|p: int, q: int| 0 <= p < q < keys.len() ==> keys[p] != keys[q],
        0 <= i < keys.len(),
    ensures
        pairs_to_map(keys, entries).contains_key(keys[i]),
        pairs_to_map(keys, entries)[keys[i]] == entries[i],
    decreases keys.len(),
{
    if i == keys.len() - 1 {
    } else {
        lemma_pairs_to_map_index(keys.drop_last(), entries.drop_last(), i);
    }
}

/// A key that appears in neither list is absent from the map.
proof fn lemma_pairs_to_map_absent(
    keys: Seq<GlyphCacheKey>,
    entries: Seq<GlyphCacheEntry>,
    key: GlyphCacheKey,
)
    requires
        keys.len() == entries.len(),
        forall|j: int| 0 <= j < keys.len() ==> keys[j] != key,
    ensures
        !pairs_to_map(keys, entries).contains_key(key),
    decreases keys.len(),
{
    if keys.len() > 0 {
        lemma_pairs_to_map_absent(keys.drop_last(), entries.drop_last(), key);
    }
}

/// A key absent from the map appears in neither list.
proof fn lemma_pairs_to_map_absent_all(
    keys: Seq<GlyphCacheKey>,
    entries: Seq<GlyphCacheEntry>,
    key: GlyphCacheKey,
)
    requires
        keys.len() == entries.len(),
        !pairs_to_map(keys, entries).contains_key(key),
    ensures
        forall|j: int| 0 <= j < keys.len() ==> keys[j] != key,
    decreases keys.len(),
{
    if keys.len() > 0 {
        lemma_pairs_to_map_absent_all(keys.drop_last(), entries.drop_last(), key);
        assert forall|j: int| 0 <= j < keys.len() implies keys[j] != key by {
            if j < keys.len() - 1 {
                assert(keys.drop_last()[j] == keys[j]);
            }
        }
    }
}

} // verus!
