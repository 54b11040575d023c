//! Glyph atlas: one square texture of coverage bytes that glyph bitmaps are
//! packed into as they are first drawn.
//!
//! When the atlas is full everything in it is dropped and packing starts
//! over. [`GlyphAtlas::generation`] counts these resets, so that whoever kept
//! texture coordinates knows when they went stale.
use std::collections::HashMap;

use vstd::prelude::*;

use crate::gpu::image_atlas::{texture_rect, uv_of, PADDING};
use crate::gpu::packer::{packed_regions_are_apart, Packer, Region, MAX_SIDE};
use crate::num::Num;

verus! {

broadcast use vstd::std_specs::hash::group_hash_axioms;

/// A glyph at one size and subpixel position, as numbered by whoever shapes
/// the text.
#[derive(Copy, Clone, Debug, PartialEq, Eq, PartialOrd, Ord, Hash, Structural)]
pub struct GlyphKey(pub u64);

/// The size and bearings of a rasterised glyph.
#[derive(Copy, Clone, Debug, PartialEq, Eq, Structural)]
pub struct GlyphBitmap {
    pub width: u32,
    pub height: u32,
    /// From the pen to the left edge of the bitmap.
    pub left: i32,
    /// From the baseline up to the top edge of the bitmap.
    pub top: i32,
}

/// Where a glyph is on the texture, and its metrics.
#[derive(Copy, Clone, Debug)]
pub struct AtlasEntry<N> {
    /// `[u0, v0, u1, v1]`, as fractions of the atlas side.
    pub uv: [N; 4],
    pub width: u32,
    pub height: u32,
    pub left: i32,
    pub top: i32,
}

/// What is to be done to the texture.
#[derive(Copy, Clone, Debug, PartialEq, Eq, Structural)]
pub enum GlyphWrite {
    /// Zero all texels: a bitmap does not cover its border, and what an
    /// earlier glyph left there would show.
    Clear,
    /// Write the bitmap of `key` with its top left at `(x, y)`.
    Bitmap { key: GlyphKey, x: u32, y: u32, width: u32, height: u32 },
}

/// A glyph on the texture: its entry and the texel it starts at.
#[derive(Copy, Clone, Debug)]
pub struct PlacedGlyph<N> {
    pub entry: AtlasEntry<N>,
    pub x: u32,
    pub y: u32,
}

/// The bitmap has no texel: white space.
pub open spec fn blank(b: GlyphBitmap) -> bool {
    b.width == 0 || b.height == 0
}

/// The bitmap and its border fit an atlas of side `side`.
pub open spec fn fits(b: GlyphBitmap, side: u32) -> bool {
    b.width + 2 * PADDING <= side && b.height + 2 * PADDING <= side
}

/// The entry of a blank glyph.
pub open spec fn blank_entry<N: Num>(b: GlyphBitmap, e: AtlasEntry<N>) -> bool {
    let z = N::fraction(0, 1);
    &&& e.uv@ == seq![z, z, z, z]
    &&& e.width == 0
    &&& e.height == 0
    &&& e.left == b.left
    &&& e.top == b.top
}

/// The entry of a glyph whose bitmap starts at `(x, y)`.
pub open spec fn glyph_entry<N: Num>(
    b: GlyphBitmap,
    x: u32,
    y: u32,
    side: u32,
    e: AtlasEntry<N>,
) -> bool {
    &&& e.uv@ == uv_of::<N>(x, y, b.width, b.height, side)
    &&& e.width == b.width
    &&& e.height == b.height
    &&& e.left == b.left
    &&& e.top == b.top
}

/// The box of texels that a glyph covers.
pub open spec fn glyph_texels<N>(p: PlacedGlyph<N>) -> Region {
    Region {
        min_x: p.x as i32,
        min_y: p.y as i32,
        max_x: (p.x + p.entry.width) as i32,
        max_y: (p.y + p.entry.height) as i32,
    }
}

/// The box with its border lies in one of the regions.
pub open spec fn glyph_framed<N>(p: PlacedGlyph<N>, g: Region) -> bool {
    &&& g.min_x + PADDING <= p.x
    &&& g.min_y + PADDING <= p.y
    &&& p.x + p.entry.width + PADDING <= g.max_x
    &&& p.y + p.entry.height + PADDING <= g.max_y
}

pub open spec fn glyph_ok<N>(p: PlacedGlyph<N>, regions: Seq<Region>) -> bool {
    ||| p.entry.width == 0
    ||| exists|i: int| 0 <= i < regions.len() && glyph_framed(p, #[trigger] regions[i])
}

pub open spec fn glyphs_apart<N>(glyphs: Map<u64, PlacedGlyph<N>>) -> bool {
    forall|a: u64, b: u64|
        a != b && #[trigger] glyphs.contains_key(a) && #[trigger] glyphs.contains_key(b)
            && glyphs[a].entry.width > 0 && glyphs[b].entry.width > 0 ==> glyph_texels(
            glyphs[a],
        ).apart(glyph_texels(glyphs[b]))
}

/// The glyphs on one texture.
pub struct GlyphAtlas<N> {
    size: u32,
    packer: Packer,
    placed: HashMap<u64, PlacedGlyph<N>>,
    generation: u32,
    writes: Vec<GlyphWrite>,
}

proof fn placing_keeps_apart<N: Num>(
    packer: Packer,
    before: Seq<Region>,
    glyphs: Map<u64, PlacedGlyph<N>>,
    key: u64,
    p: PlacedGlyph<N>,
)
    requires
        packer.wf(),
        packer.side() <= MAX_SIDE,
        packer@ == before.push(packer@.last()),
        glyphs_apart(glyphs),
        forall|a: u64| #[trigger] glyphs.contains_key(a) ==> glyph_ok(glyphs[a], before),
        glyph_framed(p, packer@.last()),
        packer@.last().on_page(packer.side()),
    ensures
        glyphs_apart(glyphs.insert(key, p)),
        forall|a: u64| #[trigger]
            glyphs.insert(key, p).contains_key(a) ==> glyph_ok(
                glyphs.insert(key, p)[a],
                packer@,
            ),
{
    let n = before.len() as int;
    let after = glyphs.insert(key, p);
    assert forall|a: u64| #[trigger] after.contains_key(a) implies glyph_ok(after[a], packer@) by {
        if a == key {
            assert(glyph_framed(p, packer@[n]));
        } else {
            assert(glyphs.contains_key(a));
            if glyphs[a].entry.width > 0 {
                let i = choose|i: int|
                    0 <= i < before.len() && glyph_framed(glyphs[a], #[trigger] before[i]);
                assert(glyph_framed(after[a], packer@[i]));
            }
        }
    }
    assert forall|a: u64|
        a != key && #[trigger] glyphs.contains_key(a)
            && glyphs[a].entry.width > 0 implies glyph_texels(glyphs[a]).apart(
        glyph_texels(p),
    ) by {
        let i = choose|i: int|
            0 <= i < before.len() && glyph_framed(glyphs[a], #[trigger] before[i]);
        packed_regions_are_apart(packer, i, n);
        assert(packer@[i] == before[i]);
    }
}

impl<N: Num> GlyphAtlas<N> {
    pub closed spec fn side(self) -> u32 {
        self.size
    }

    pub closed spec fn regions(self) -> Seq<Region> {
        self.packer@
    }

    /// The cached glyphs, by key.
    pub closed spec fn glyphs(self) -> Map<u64, PlacedGlyph<N>> {
        self.placed@
    }

    pub closed spec fn resets(self) -> u32 {
        self.generation
    }

    /// What is to be done to the texture, in order.
    pub closed spec fn queued(self) -> Seq<GlyphWrite> {
        self.writes@
    }

    /// Every glyph that is not blank has its own texels.
    pub closed spec fn wf(self) -> bool {
        &&& self.packer.wf()
        &&& self.packer.side() == self.size
        &&& 0 < self.size <= MAX_SIDE
        &&& glyphs_apart(self.glyphs())
        &&& forall|a: u64| #[trigger]
            self.glyphs().contains_key(a) ==> glyph_ok(self.glyphs()[a], self.regions())
    }

    /// There is room for a bitmap and its border.
    pub closed spec fn room_for(self, b: GlyphBitmap) -> bool {
        self.packer.place_for(b.width + 2 * PADDING, b.height + 2 * PADDING) is Some
    }

    /// A reset took `pre` to `self`.
    pub open spec fn was_reset(self, pre: Self) -> bool {
        &&& self.side() == pre.side()
        &&& self.regions() == Seq::<Region>::empty()
        &&& self.glyphs() == Map::<u64, PlacedGlyph<N>>::empty()
        &&& self.resets() == (if pre.resets() == u32::MAX {
            0
        } else {
            (pre.resets() + 1) as u32
        })
        &&& self.queued() == pre.queued().push(GlyphWrite::Clear)
    }

    /// The bitmap `b` of `key` went to a new region of `pre`.
    pub open spec fn added(
        self,
        pre: Self,
        key: GlyphKey,
        b: GlyphBitmap,
        e: AtlasEntry<N>,
    ) -> bool {
        let p = self.glyphs()[key.0];
        let g = self.regions().last();
        &&& self.side() == pre.side()
        &&& self.resets() == pre.resets()
        &&& self.regions() == pre.regions().push(g)
        &&& self.glyphs() == pre.glyphs().insert(key.0, p)
        &&& p.x == g.min_x + PADDING
        &&& p.y == g.min_y + PADDING
        &&& p.entry == e
        &&& glyph_entry(b, p.x, p.y, pre.side(), e)
        &&& self.queued() == pre.queued().push(
            GlyphWrite::Bitmap { key, x: p.x, y: p.y, width: b.width, height: b.height },
        )
    }

    /// The glyph `key` was looked up in `pre`, and added if it was not there
    /// and has a bitmap that fits, after a reset if there was no room.
    pub open spec fn looked_up(
        self,
        pre: Self,
        key: GlyphKey,
        bitmap: Option<GlyphBitmap>,
        r: Option<AtlasEntry<N>>,
    ) -> bool {
        if pre.glyphs().contains_key(key.0) {
            r == Some(pre.glyphs()[key.0].entry) && self == pre
        } else {
            match bitmap {
                None => r is None && self == pre,
                Some(b) => if blank(b) {
                    &&& r matches Some(e)
                    &&& blank_entry(b, e)
                    &&& self.glyphs() == pre.glyphs().insert(
                        key.0,
                        PlacedGlyph { entry: e, x: 0, y: 0 },
                    )
                    &&& self.side() == pre.side()
                    &&& self.regions() == pre.regions()
                    &&& self.resets() == pre.resets()
                    &&& self.queued() == pre.queued()
                } else if !fits(b, pre.side()) {
                    r is None && self == pre
                } else {
                    &&& r matches Some(e)
                    &&& pre.regions().len() == 0 ==> pre.room_for(b)
                    &&& if pre.room_for(b) {
                        self.added(pre, key, b, e)
                    } else {
                        exists|mid: Self| #[trigger]
                            mid.was_reset(pre) && self.added(mid, key, b, e)
                    }
                },
            }
        }
    }

    pub fn new(size: u32) -> (r: Self)
        requires
            0 < size <= MAX_SIDE,
        ensures
            r.wf(),
            r.side() == size,
            r.regions() == Seq::<Region>::empty(),
            r.glyphs() == Map::<u64, PlacedGlyph<N>>::empty(),
            r.resets() == 0,
            r.queued() == Seq::<GlyphWrite>::empty(),
    {
        GlyphAtlas {
            size,
            packer: Packer::new(size),
            placed: HashMap::new(),
            generation: 0,
            writes: Vec::new(),
        }
    }

    pub fn size(&self) -> (r: u32)
        ensures
            r == self.side(),
    {
        self.size
    }

    pub fn generation(&self) -> (r: u32)
        ensures
            r == self.resets(),
    {
        self.generation
    }

    pub fn get(&self, key: GlyphKey) -> (r: Option<AtlasEntry<N>>)
        ensures
            r == (if self.glyphs().contains_key(key.0) {
                Some(self.glyphs()[key.0].entry)
            } else {
                None
            }),
    {
        match self.placed.get(&key.0) {
            Some(p) => Some(p.entry),
            None => None,
        }
    }

    /// Takes what is to be done to the texture.
    pub fn take_writes(&mut self) -> (r: Vec<GlyphWrite>)
        requires
            old(self).wf(),
        ensures
            final(self).wf(),
            r@ == old(self).queued(),
            final(self).queued() == Seq::<GlyphWrite>::empty(),
            final(self).side() == old(self).side(),
            final(self).regions() == old(self).regions(),
            final(self).glyphs() == old(self).glyphs(),
            final(self).resets() == old(self).resets(),
    {
        let mut taken: Vec<GlyphWrite> = Vec::new();
        std::mem::swap(&mut taken, &mut self.writes);
        taken
    }

    /// Drops every glyph. The texture is to be cleared.
    pub fn reset(&mut self)
        requires
            old(self).wf(),
        ensures
            final(self).wf(),
            final(self).was_reset(*old(self)),
    {
        self.packer.clear();
        self.placed.clear();
        self.generation = self.generation.wrapping_add(1);
        self.writes.push(GlyphWrite::Clear);
    }

    /// The entry of `key`, which is added from its bitmap where it is not
    /// cached yet. `bitmap` is looked at only then; it is `None` for a glyph
    /// that has no coverage bitmap.
    ///
    /// A full atlas is reset once, after which every bitmap that fits the
    /// atlas at all finds room.
    pub fn get_or_insert(&mut self, key: GlyphKey, bitmap: Option<GlyphBitmap>) -> (r: Option<
        AtlasEntry<N>,
    >)
        requires
            old(self).wf(),
        ensures
            final(self).wf(),
            final(self).looked_up(*old(self), key, bitmap, r),
    {
        if let Some(p) = self.placed.get(&key.0) {
            return Some(p.entry);
        }
        let b = bitmap?;
        if b.width == 0 || b.height == 0 {
            let z = N::of_ratio(0, 1);
            let uv = [z, z, z, z];
            assert(uv@ =~= seq![z, z, z, z]);
            let entry = AtlasEntry { uv, width: 0, height: 0, left: b.left, top: b.top };
            self.placed.insert(key.0, PlacedGlyph { entry, x: 0, y: 0 });
            return Some(entry);
        }
        if b.width > self.size || b.height > self.size {
            return None;
        }
        let w: i32 = b.width as i32 + 2 * PADDING;
        let h: i32 = b.height as i32 + 2 * PADDING;
        if w > self.size as i32 || h > self.size as i32 {
            return None;
        }
        let ghost mut pre = *self;
        let mut found = self.packer.reserve(w, h);
        if found.is_none() {
            self.reset();
            proof {
                pre = *self;
                assert(pre.was_reset(*old(self)));
            }
            found = self.packer.reserve(w, h);
        }
        let g = found?;
        let x: u32 = (g.min_x + PADDING) as u32;
        let y: u32 = (g.min_y + PADDING) as u32;
        let uv = texture_rect::<N>(x, y, b.width, b.height, self.size);
        let entry = AtlasEntry {
            uv,
            width: b.width,
            height: b.height,
            left: b.left,
            top: b.top,
        };
        self.placed.insert(key.0, PlacedGlyph { entry, x, y });
        self.writes.push(
            GlyphWrite::Bitmap { key, x, y, width: b.width, height: b.height },
        );
        proof {
            placing_keeps_apart(
                self.packer,
                pre.regions(),
                pre.glyphs(),
                key.0,
                PlacedGlyph { entry, x, y },
            );
            assert(self.added(pre, key, b, entry));
        }
        Some(entry)
    }

    /// Bytes of the texture.
    pub fn memory_bytes(&self) -> (r: u64)
        requires
            self.wf(),
        ensures
            r == self.side() * self.side(),
    {
        let n: u64 = self.size as u64;
        assert(n * n <= 46340 * 46340) by (nonlinear_arith)
            requires
                0 <= n <= 46340,
        ;
        n * n
    }
}

/// No two glyphs of one generation share a texel.
pub proof fn glyphs_never_overlap<N: Num>(atlas: GlyphAtlas<N>, a: GlyphKey, b: GlyphKey)
    requires
        atlas.wf(),
        a != b,
        atlas.glyphs().contains_key(a.0),
        atlas.glyphs().contains_key(b.0),
        atlas.glyphs()[a.0].entry.width > 0,
        atlas.glyphs()[b.0].entry.width > 0,
    ensures
        glyph_texels(atlas.glyphs()[a.0]).apart(glyph_texels(atlas.glyphs()[b.0])),
{
}

/// An entry stays valid for as long as the generation stays the same.
pub proof fn entries_last_for_a_generation<N: Num>(
    pre: GlyphAtlas<N>,
    mid: GlyphAtlas<N>,
    post: GlyphAtlas<N>,
    key: GlyphKey,
    bitmap: GlyphBitmap,
    entry: AtlasEntry<N>,
    other: GlyphKey,
)
    requires
        mid == pre || mid.was_reset(pre),
        post.added(mid, key, bitmap, entry),
        other != key,
        pre.glyphs().contains_key(other.0),
        post.resets() == pre.resets(),
    ensures
        post.glyphs().contains_key(other.0),
        post.glyphs()[other.0] == pre.glyphs()[other.0],
{
}

/// A glyph that was looked up is there from then on: the next lookup gives the
/// same entry, and changes nothing.
pub proof fn glyphs_are_made_once<N: Num>(
    pre: GlyphAtlas<N>,
    mid: GlyphAtlas<N>,
    post: GlyphAtlas<N>,
    key: GlyphKey,
    bitmap: Option<GlyphBitmap>,
    again: Option<GlyphBitmap>,
    first: Option<AtlasEntry<N>>,
    second: Option<AtlasEntry<N>>,
)
    requires
        mid.looked_up(pre, key, bitmap, first),
        post.looked_up(mid, key, again, second),
        first is Some,
    ensures
        second == first,
        post == mid,
        mid.glyphs().contains_key(key.0),
        mid.glyphs()[key.0].entry == first->0,
{
}

/// A glyph has an entry unless it has no bitmap or one that does not fit with a
/// texel around it; the entry is as large as the bitmap and keeps its bearings.
pub proof fn glyphs_that_fit_are_placed<N: Num>(
    pre: GlyphAtlas<N>,
    post: GlyphAtlas<N>,
    key: GlyphKey,
    b: GlyphBitmap,
    r: Option<AtlasEntry<N>>,
)
    requires
        post.looked_up(pre, key, Some(b), r),
        !pre.glyphs().contains_key(key.0),
    ensures
        b.width > 0 && b.height > 0 ==> (r is Some <==> b.width + 2 <= pre.side() && b.height + 2
            <= pre.side()),
        b.width == 0 || b.height == 0 ==> r is Some && r->0.width == 0 && r->0.height == 0,
        r is Some ==> r->0.left == b.left && r->0.top == b.top,
        r is Some && b.width > 0 && b.height > 0 ==> r->0.width == b.width && r->0.height
            == b.height && post.queued().last() == (GlyphWrite::Bitmap {
            key,
            x: post.glyphs()[key.0].x,
            y: post.glyphs()[key.0].y,
            width: b.width,
            height: b.height,
        }),
{
}

/// Every glyph that is not blank has a texel of its own region around it.
pub proof fn glyphs_have_a_border<N: Num>(atlas: GlyphAtlas<N>, key: GlyphKey)
    requires
        atlas.wf(),
        atlas.glyphs().contains_key(key.0),
        atlas.glyphs()[key.0].entry.width > 0,
    ensures
        ({
            let p = atlas.glyphs()[key.0];
            exists|i: int|
                0 <= i < atlas.regions().len() && {
                    let g = #[trigger] atlas.regions()[i];
                    &&& g.min_x < p.x && p.x + p.entry.width < g.max_x
                    &&& g.min_y < p.y && p.y + p.entry.height < g.max_y
                }
        }),
{
    let p = atlas.glyphs()[key.0];
    assert(glyph_ok(p, atlas.regions()));
    let i = choose|i: int|
        0 <= i < atlas.regions().len() && glyph_framed(p, #[trigger] atlas.regions()[i]);
    let g = atlas.regions()[i];
    assert(g.min_x < p.x && p.x + p.entry.width < g.max_x);
}

} // verus!
