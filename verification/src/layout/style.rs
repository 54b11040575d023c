//! Layout properties of a node.
use vstd::prelude::*;

use crate::num::{zero, Num};

verus! {

/// A length in logical pixels, or how it is found.
#[derive(Copy, Clone, Debug)]
pub enum Len<N> {
    /// Fixed.
    Px(N),
    /// A share of the space that the other children leave on the main axis.
    Fr(N),
    /// The size of the content.
    Auto,
    /// A fraction of the parent's content box on the same axis.
    Pct(N),
    /// The same as a share of one; all of the content box on the cross axis.
    Fill,
}

#[derive(Copy, Clone, Debug, PartialEq, Eq, Structural)]
pub enum Axis {
    Row,
    Col,
}

/// Distribution along the main axis.
#[derive(Copy, Clone, Debug, PartialEq, Eq, Structural)]
pub enum Justify {
    Start,
    End,
    Center,
    SpaceBetween,
    SpaceAround,
    SpaceEvenly,
}

/// Placement of a child across the main axis.
#[derive(Copy, Clone, Debug, PartialEq, Eq, Structural)]
pub enum Align {
    Start,
    End,
    Center,
    Stretch,
}

/// What happens to children that exceed the content box on an axis.
#[derive(Copy, Clone, Debug, PartialEq, Eq, Structural)]
pub enum Overflow {
    /// They paint past the bounds.
    Visible,
    /// They are clipped, and the wheel scrolls them.
    Scroll,
    /// They are clipped.
    Hidden,
}

impl Overflow {
    /// Whether children are clipped.
    pub fn clips(self) -> (r: bool)
        ensures
            r == !(self is Visible),
    {
        !matches!(self, Overflow::Visible)
    }

    /// Whether children scroll.
    pub fn scrolls(self) -> (r: bool)
        ensures
            r == (self is Scroll),
    {
        matches!(self, Overflow::Scroll)
    }
}

/// How a node is sized and how it places its children.
#[derive(Copy, Clone, Debug)]
pub struct LayoutStyle<N> {
    pub axis: Axis,
    pub width: Len<N>,
    pub height: Len<N>,
    /// Left, top, right, bottom.
    pub padding: [N; 4],
    /// Space between flow children.
    pub gap: N,
    pub justify: Justify,
    pub align: Align,
    /// Takes the node out of the flow, to this offset from the origin of its
    /// parent's content box (of the viewport, for a root).
    pub abs: Option<[N; 2]>,
    pub overflow_x: Overflow,
    pub overflow_y: Overflow,
    /// The first flow child after the head that has this set is pushed to
    /// the end by all the space left over, when its parent packs at the
    /// start.
    pub push_end: bool,
    /// Position in the Tab order; zero keeps the node out of it.
    pub focus_order: u32,
}

/// The default style: a column that packs at the start, sized by its
/// content.
pub open spec fn plain_style<N: Num>() -> LayoutStyle<N> {
    LayoutStyle {
        axis: Axis::Col,
        width: Len::Auto,
        height: Len::Auto,
        padding: [zero(), zero(), zero(), zero()],
        gap: zero(),
        justify: Justify::Start,
        align: Align::Start,
        abs: None,
        overflow_x: Overflow::Visible,
        overflow_y: Overflow::Visible,
        push_end: false,
        focus_order: 0,
    }
}

impl<N: Num> LayoutStyle<N> {
    /// Whether children are clipped on either axis.
    pub fn clips(&self) -> (r: bool)
        ensures
            r == (!(self.overflow_x is Visible) || !(self.overflow_y is Visible)),
    {
        self.overflow_x.clips() || self.overflow_y.clips()
    }

    /// Whether children scroll on either axis.
    pub fn scrolls(&self) -> (r: bool)
        ensures
            r == (self.overflow_x is Scroll || self.overflow_y is Scroll),
    {
        self.overflow_x.scrolls() || self.overflow_y.scrolls()
    }
}

impl<N: Num> Default for LayoutStyle<N> {
    fn default() -> (r: LayoutStyle<N>)
        ensures
            r == plain_style::<N>(),
    {
        let z: N = N::of_ratio(0, 1);
        LayoutStyle {
            axis: Axis::Col,
            width: Len::Auto,
            height: Len::Auto,
            padding: [z, z, z, z],
            gap: z,
            justify: Justify::Start,
            align: Align::Start,
            abs: None,
            overflow_x: Overflow::Visible,
            overflow_y: Overflow::Visible,
            push_end: false,
            focus_order: 0,
        }
    }
}

/// In exact numbers, a node without a style is a column in the flow that packs
/// its children at the start with nothing around or between them, as large as
/// its content, that neither scrolls nor takes the focus.
pub proof fn plain_nodes_are_columns<N: Num>(value: spec_fn(N) -> real, k: int)
    requires
        crate::num::computes_exactly(value),
        0 <= k < 4,
    ensures
        ({
            let s = plain_style::<N>();
            &&& s.axis is Col && s.justify is Start && s.align is Start
            &&& s.width is Auto && s.height is Auto
            &&& value(s.padding[k]) == 0real && value(s.gap) == 0real
            &&& s.abs is None && !s.push_end && s.focus_order == 0
            &&& !(s.overflow_x is Scroll) && !(s.overflow_y is Scroll)
        }),
{
    crate::num::fractions_are_exact(value);
    let p = plain_style::<N>().padding;
    assert(p[k] == zero::<N>()) by {
        assert(k == 0 || k == 1 || k == 2 || k == 3);
    }
}

} // verus!
