//! Packing rectangles into one square texture.
use vstd::prelude::*;

use etagere::AtlasAllocator;

use crate::num::distinct_below;

verus! {

/// The largest side of an atlas: its area has to fit an `i32`.
pub const MAX_SIDE: u32 = 46_340;

/// How many entries the bookkeeping of a packing may have when a region is
/// asked for. Entries are numbered with 16 bits, and the last of these numbers
/// stands for none: an entry beyond it would be taken for another one, and
/// regions would be handed out twice.
pub const MAX_ENTRIES: u32 = 65_536;

/// A rectangle of texels; the maximum is exclusive.
#[derive(Clone, Copy, Debug, PartialEq, Eq, Structural)]
pub struct Region {
    pub min_x: i32,
    pub min_y: i32,
    pub max_x: i32,
    pub max_y: i32,
}

impl Region {
    /// The region is not empty and lies on a square page of side `side`.
    pub open spec fn on_page(self, side: int) -> bool {
        &&& 0 <= self.min_x < self.max_x <= side
        &&& 0 <= self.min_y < self.max_y <= side
    }

    /// The region is at least `w` by `h`.
    pub open spec fn holds(self, w: int, h: int) -> bool {
        self.max_x - self.min_x >= w && self.max_y - self.min_y >= h
    }

    /// The two regions share no texel.
    pub open spec fn apart(self, other: Region) -> bool {
        ||| self.max_x <= other.min_x
        ||| other.max_x <= self.min_x
        ||| self.max_y <= other.min_y
        ||| other.max_y <= self.min_y
    }
}

#[verifier::external_type_specification]
#[verifier::external_body]
pub struct ExAtlasAllocator(AtlasAllocator);

/// The entries that a region adds to the bookkeeping: one for the free shelf
/// below it, where it is the first of its shelf and the shelf does not reach
/// the end of the page, and one for the free place behind it, where it does
/// not reach the end of the shelf.
pub open spec fn entries_added(g: Region, side: int) -> int {
    (if g.min_x == 0 && g.max_y < side {
        1int
    } else {
        0
    }) + (if g.max_x < side {
        1int
    } else {
        0
    })
}

/// The entries that the bookkeeping of a packing has: one for the empty page,
/// and those that its regions have added.
pub open spec fn entries(regions: Seq<Region>, side: int) -> int
    decreases regions.len(),
{
    if regions.len() == 0 {
        1
    } else {
        entries(regions.drop_last(), side) + entries_added(regions.last(), side)
    }
}

/// The regions handed out since the allocator was made or last cleared, in
/// the order they were handed out.
pub uninterp spec fn packed(allocator: AtlasAllocator) -> Seq<Region>;

/// The side of the square page that the allocator was made for.
pub uninterp spec fn page_side(allocator: AtlasAllocator) -> int;

/// Where the allocator has room for `w` by `h` texels, and how much of it goes
/// to them: a function of what was allocated so far, and of the size.
pub uninterp spec fn free_place(allocator: AtlasAllocator, w: int, h: int) -> Option<Region>;

/// `etagere::AtlasAllocator::new`: an empty packing of a square page. The
/// call panics unless the side is positive and the area fits an `i32`.
#[verifier::external_body]
fn new_allocator(side: i32) -> (r: AtlasAllocator)
    requires
        0 < side <= MAX_SIDE,
    ensures
        packed(r) == Seq::<Region>::empty(),
        page_side(r) == side,
{
    AtlasAllocator::new(etagere::size2(side, side))
}

/// `etagere::AtlasAllocator::allocate`: finds room for `w` by `h` texels.
///
/// What it hands out is on the page, at least as large as was asked for, and
/// shares no texel with anything handed out before. It hands out nothing for
/// an empty size or one larger than the page, and always something for a size
/// that fits when nothing has been handed out yet. Where it hands out nothing
/// it changes nothing. Which free place it picks, and when it stops finding
/// one on a partly filled page, is the allocator's own affair.
///
/// Nothing is ever given back, so every shelf is filled from the left, the one
/// shelf that may be empty is the last, and the list of items has exactly
/// [`entries`] of them. An item is found again by its position in 16 bits.
/// The call is left out once an item has been added past the one whose
/// position stands for none.
#[verifier::external_body]
fn allocate(allocator: &mut AtlasAllocator, w: i32, h: i32) -> (r: Option<Region>)
    requires
        0 < page_side(*old(allocator)) <= MAX_SIDE,
        entries(packed(*old(allocator)), page_side(*old(allocator))) <= MAX_ENTRIES,
    ensures
        r == free_place(*old(allocator), w as int, h as int),
        page_side(*final(allocator)) == page_side(*old(allocator)),
        match r {
            Some(g) => {
                &&& packed(*final(allocator)) == packed(*old(allocator)).push(g)
                &&& g.on_page(page_side(*old(allocator)))
                &&& g.holds(w as int, h as int)
                &&& forall|i: int|
                    0 <= i < packed(*old(allocator)).len() ==> (
                    #[trigger] packed(*old(allocator))[i]).apart(g)
            },
            None => *final(allocator) == *old(allocator),
        },
        r is Some ==> {
            &&& 0 < w <= page_side(*old(allocator))
            &&& 0 < h <= page_side(*old(allocator))
        },
        packed(*old(allocator)).len() == 0 && 0 < w <= page_side(*old(allocator)) && 0 < h
            <= page_side(*old(allocator)) ==> r is Some,
{
    allocator.allocate(etagere::size2(w, h)).map(
        |a| Region {
            min_x: a.rectangle.min.x,
            min_y: a.rectangle.min.y,
            max_x: a.rectangle.max.x,
            max_y: a.rectangle.max.y,
        },
    )
}

/// `etagere::AtlasAllocator::clear`: back to an empty packing of the page.
#[verifier::external_body]
fn clear_allocator(allocator: &mut AtlasAllocator)
    requires
        0 < page_side(*old(allocator)) <= MAX_SIDE,
    ensures
        packed(*final(allocator)) == Seq::<Region>::empty(),
        page_side(*final(allocator)) == page_side(*old(allocator)),
{
    allocator.clear()
}

/// A square page and the regions packed on it.
pub struct Packer {
    allocator: AtlasAllocator,
    side: i32,
    entries: u32,
}

impl View for Packer {
    type V = Seq<Region>;

    closed spec fn view(&self) -> Seq<Region> {
        packed(self.allocator)
    }
}

impl Packer {
    pub closed spec fn side(self) -> int {
        self.side as int
    }

    /// Every region is on the page, and no two of them share a texel.
    pub closed spec fn wf(self) -> bool {
        &&& 0 < self.side <= MAX_SIDE
        &&& page_side(self.allocator) == self.side
        &&& self.entries == entries(self@, self.side as int)
        &&& self.entries <= MAX_ENTRIES + 2
        &&& forall|i: int| 0 <= i < self@.len() ==> (#[trigger] self@[i]).on_page(self.side as int)
        &&& forall|i: int, j: int|
            0 <= i < j < self@.len() ==> (#[trigger] self@[i]).apart(#[trigger] self@[j])
    }

    /// The place that there is for `w` by `h` texels: none once the
    /// bookkeeping is exhausted.
    pub closed spec fn place_for(self, w: int, h: int) -> Option<Region> {
        if self.entries <= MAX_ENTRIES {
            free_place(self.allocator, w, h)
        } else {
            None
        }
    }

    pub fn new(side: u32) -> (r: Self)
        requires
            0 < side <= MAX_SIDE,
        ensures
            r.wf(),
            r.side() == side,
            r@ == Seq::<Region>::empty(),
    {
        Packer { allocator: new_allocator(side as i32), side: side as i32, entries: 1 }
    }

    /// Finds room for `w` by `h` texels, or leaves the packing as it is.
    pub fn reserve(&mut self, w: i32, h: i32) -> (r: Option<Region>)
        requires
            old(self).wf(),
        ensures
            final(self).wf(),
            r == old(self).place_for(w as int, h as int),
            final(self).side() == old(self).side(),
            match r {
                Some(g) => {
                    &&& final(self)@ == old(self)@.push(g)
                    &&& g.on_page(old(self).side())
                    &&& g.holds(w as int, h as int)
                },
                None => *final(self) == *old(self),
            },
            r is Some ==> {
                &&& 0 < w <= old(self).side()
                &&& 0 < h <= old(self).side()
            },
            old(self)@.len() == 0 && 0 < w <= old(self).side() && 0 < h <= old(self).side()
                ==> r is Some,
    {
        if self.entries > MAX_ENTRIES {
            return None;
        }
        let r = allocate(&mut self.allocator, w, h);
        if let Some(g) = r {
            if g.min_x == 0 && g.max_y < self.side {
                self.entries = self.entries + 1;
            }
            if g.max_x < self.side {
                self.entries = self.entries + 1;
            }
            assert(self@.drop_last() =~= old(self)@);
        }
        r
    }

    /// Forgets every region.
    pub fn clear(&mut self)
        requires
            old(self).wf(),
        ensures
            final(self).wf(),
            final(self).side() == old(self).side(),
            final(self)@ == Seq::<Region>::empty(),
    {
        clear_allocator(&mut self.allocator);
        self.entries = 1;
    }
}

/// Whatever was packed, no two regions share a texel and all are on the page.
pub proof fn packed_regions_are_apart(p: Packer, i: int, j: int)
    requires
        p.wf(),
        0 <= i < j < p@.len(),
    ensures
        p@[i].apart(p@[j]),
        p@[i].on_page(p.side()),
        p@[j].on_page(p.side()),
{
}

/// A page holds at most as many regions as it has texels.
pub proof fn regions_are_at_most_the_texels(p: Packer)
    requires
        p.wf(),
    ensures
        p@.len() <= p.side() * p.side(),
        p.side() <= MAX_SIDE,
{
    let side = p.side();
    let corners = Seq::new(p@.len(), |i: int| p@[i].min_y * side + p@[i].min_x);
    assert forall|i: int| 0 <= i < corners.len() implies 0 <= #[trigger] corners[i] < side * side by {
        let g = p@[i];
        assert(g.on_page(side));
        assert(0 <= g.min_y * side + g.min_x < side * side) by (nonlinear_arith)
            requires
                0 <= g.min_x < side,
                0 <= g.min_y < side,
        ;
    }
    assert forall|i: int, j: int|
        0 <= i < corners.len() && 0 <= j < corners.len() && i != j implies corners[i]
        != corners[j] by {
        let (a, b) = if i < j {
            (i, j)
        } else {
            (j, i)
        };
        packed_regions_are_apart(p, a, b);
        let (g, h) = (p@[a], p@[b]);
        if corners[a] == corners[b] {
            assert(g.min_x == h.min_x && g.min_y == h.min_y) by (nonlinear_arith)
                requires
                    0 <= g.min_x < side,
                    0 <= h.min_x < side,
                    g.min_y * side + g.min_x == h.min_y * side + h.min_x,
            ;
        }
    }
    assert(0 <= side * side) by (nonlinear_arith);
    distinct_below(corners, side * side);
}

} // verus!
