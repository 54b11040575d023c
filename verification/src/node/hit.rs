//! Screen regions that a flattened tree offers to the pointer and to the
//! compositor.
use std::ops::Range;

use vstd::prelude::*;

use crate::node::NodeId;
use crate::num::Num;

verus! {

#[derive(Copy, Clone, Debug, PartialEq, Eq, Structural)]
pub enum ScrollAxis {
    X,
    Y,
}

impl ScrollAxis {
    /// Position of the axis in a pair.
    pub open spec fn position(self) -> int {
        match self {
            ScrollAxis::X => 0,
            ScrollAxis::Y => 1,
        }
    }

    /// Position of the axis in a pair.
    pub fn index(self) -> (r: usize)
        ensures
            r == self.position(),
    {
        match self {
            ScrollAxis::X => 0,
            ScrollAxis::Y => 1,
        }
    }
}

/// Whether a rectangle `[min_x, min_y, max_x, max_y]` holds the point: its
/// upper and left edges belong to it, the others do not.
pub open spec fn inside<N: Num>(r: [N; 4], x: N, y: N) -> bool {
    &&& r[0].at_most(x)
    &&& x.below(r[2])
    &&& r[1].at_most(y)
    &&& y.below(r[3])
}

/// Whether a rectangle `[min_x, min_y, max_x, max_y]` holds the point.
pub fn rect_contains<N: Num>(r: [N; 4], x: N, y: N) -> (b: bool)
    ensures
        b == inside(r, x, y),
{
    r[0].le(x) && x.lt(r[2]) && r[1].le(y) && y.lt(r[3])
}

/// An interactive node, and the part of the screen where it is hit.
#[derive(Copy, Clone, Debug)]
pub struct HitEntry<N> {
    pub node_id: NodeId,
    pub bounds: [N; 4],
    pub clip_rect: [N; 4],
}

impl<N: Num> HitEntry<N> {
    /// The point lies in the bounds and is not clipped away.
    pub open spec fn holds(&self, x: N, y: N) -> bool {
        inside(self.bounds, x, y) && inside(self.clip_rect, x, y)
    }

    /// Whether the point hits the entry.
    pub fn contains(&self, x: N, y: N) -> (r: bool)
        ensures
            r == self.holds(x, y),
    {
        rect_contains(self.bounds, x, y) && rect_contains(self.clip_rect, x, y)
    }
}

/// A scroll container, and the containers around it from the inside out,
/// itself first.
#[derive(Clone, Debug)]
pub struct ScrollHit<N> {
    pub node_id: NodeId,
    pub bounds: [N; 4],
    pub clip_rect: [N; 4],
    pub ancestor_chain: Vec<NodeId>,
}

impl<N: Num> ScrollHit<N> {
    /// The point lies in the bounds and is not clipped away.
    pub open spec fn holds(&self, x: N, y: N) -> bool {
        inside(self.bounds, x, y) && inside(self.clip_rect, x, y)
    }

    /// Whether the point hits the container.
    pub fn contains(&self, x: N, y: N) -> (r: bool)
        ensures
            r == self.holds(x, y),
    {
        rect_contains(self.bounds, x, y) && rect_contains(self.clip_rect, x, y)
    }
}

/// A visible scrollbar.
#[derive(Copy, Clone, Debug)]
pub struct ScrollbarHit<N> {
    pub node_id: NodeId,
    pub axis: ScrollAxis,
    pub track: [N; 4],
    pub thumb: [N; 4],
    pub clip_rect: [N; 4],
    /// How far the content scrolls.
    pub max_offset: N,
    /// How far the thumb travels.
    pub track_travel: N,
}

impl<N: Num> ScrollbarHit<N> {
    /// The point lies on the track where the bar is visible.
    pub open spec fn under(&self, x: N, y: N) -> bool {
        inside(self.clip_rect, x, y) && inside(self.track, x, y)
    }

    /// Whether the point lies on the visible track.
    pub fn contains(&self, x: N, y: N) -> (r: bool)
        ensures
            r == self.under(x, y),
    {
        rect_contains(self.clip_rect, x, y) && rect_contains(self.track, x, y)
    }
}

/// Geometry of a scroll container whose content is cached as a texture.
#[derive(Copy, Clone, Debug)]
pub struct ScrollSpan<N> {
    pub viewport_origin: [N; 2],
    pub viewport: [N; 2],
    pub scroll: [N; 2],
    /// Content position of the texture's corner.
    pub tex_origin: [N; 2],
    /// Size of the texture.
    pub content: [N; 2],
}

/// Geometry of a node that shows a texture supplied from outside.
#[derive(Copy, Clone, Debug)]
pub struct ExternalSpan<N> {
    pub origin: [N; 2],
    pub size: [N; 2],
    pub clip: [N; 4],
    pub radius: N,
}

/// A subtree that is cached as a layer: the flattened events it covers.
#[derive(Debug)]
pub struct LayerSpan<N> {
    pub node: NodeId,
    pub events: Range<usize>,
    pub scroll: Option<ScrollSpan<N>>,
    pub external: Option<ExternalSpan<N>>,
    pub edge_fade: [N; 4],
    pub edge_fade_falloff: N,
}

} // verus!
