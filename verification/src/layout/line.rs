//! Distribution of the flow children of one container.
use vstd::prelude::*;

use crate::layout::intrinsic::{gap_total, gaps, intrinsic, intrinsic_main, len_along, pick_len};
use crate::layout::measure::Measurer;
use crate::layout::style::{Align, Axis, Justify, LayoutStyle, Len};
use crate::node::tree::{live, node_at, Node, NodeTree};
use crate::node::NodeId;
use crate::num::{one, zero, Num};

verus! {

/// The axis across another.
pub open spec fn crossing(axis: Axis) -> Axis {
    match axis {
        Axis::Row => Axis::Col,
        Axis::Col => Axis::Row,
    }
}

/// First guess at a child's size along the main axis. Shares of the
/// remaining space are marked by values below zero: `Fill` by the lowest
/// value, a share `f` by `-(f + 1)`.
pub open spec fn slot<N: Num, M: Measurer<N>>(
    nodes: Seq<Option<Node<N>>>,
    m: &M,
    c: NodeId,
    axis: Axis,
    main: N,
    cross: N,
    scale: N,
) -> N {
    match len_along(node_at(nodes, c).layout, axis) {
        Len::Fill => N::lowest(),
        Len::Fr(f) => f.larger(zero()).sum(one()).negation(),
        Len::Px(v) => v.product(scale),
        Len::Pct(v) => v.product(main),
        Len::Auto => intrinsic(nodes, m, c, axis, cross, scale),
    }
}

/// The child asks for a share of the remaining space.
pub open spec fn shares<N>(nodes: Seq<Option<Node<N>>>, c: NodeId, axis: Axis) -> bool {
    len_along(node_at(nodes, c).layout, axis) is Fill || len_along(
        node_at(nodes, c).layout,
        axis,
    ) is Fr
}

/// The shares that the first `n` flow children ask for, added up.
pub open spec fn shares_total<N: Num>(
    nodes: Seq<Option<Node<N>>>,
    f: Seq<NodeId>,
    axis: Axis,
    n: nat,
) -> N
    decreases n,
{
    if n == 0 {
        zero()
    } else {
        let before = shares_total(nodes, f, axis, (n - 1) as nat);
        match len_along(node_at(nodes, f[n - 1]).layout, axis) {
            Len::Fill => before.sum(one()),
            Len::Fr(v) => before.sum(v.larger(zero())),
            _ => before,
        }
    }
}

/// The sizes of those of the first `n` flow children that ask for no share,
/// added up.
pub open spec fn fixed_total<N: Num, M: Measurer<N>>(
    nodes: Seq<Option<Node<N>>>,
    m: &M,
    f: Seq<NodeId>,
    axis: Axis,
    main: N,
    cross: N,
    scale: N,
    n: nat,
) -> N
    decreases n,
{
    if n == 0 {
        zero()
    } else {
        let before = fixed_total(nodes, m, f, axis, main, cross, scale, (n - 1) as nat);
        if shares(nodes, f[n - 1], axis) {
            before
        } else {
            before.sum(slot(nodes, m, f[n - 1], axis, main, cross, scale))
        }
    }
}

/// The size that a slot comes to, given the sum of the shares and the space
/// that remains for them.
pub open spec fn settled<N: Num>(s: N, total: N, remaining: N) -> N {
    if zero::<N>().below(total) {
        if s.equals(N::lowest()) {
            remaining.product(one::<N>().quotient(total))
        } else if s.below(zero()) {
            remaining.product(s.negation().difference(one()).quotient(total))
        } else {
            s
        }
    } else if s.below(zero()) {
        zero()
    } else {
        s
    }
}

/// The first `n` values added up.
pub open spec fn total_of<N: Num>(s: Seq<N>, n: nat) -> N
    decreases n,
{
    if n == 0 {
        zero()
    } else {
        total_of(s, (n - 1) as nat).sum(s[n - 1])
    }
}

/// Space before the first child and extra space between children.
pub open spec fn justified<N: Num>(justify: Justify, slack: N, count: nat) -> (N, N) {
    let n = N::natural(count as u64);
    match justify {
        Justify::Start => (zero(), zero()),
        Justify::End => (slack, zero()),
        Justify::Center => (slack.product(N::fraction(1, 2)), zero()),
        Justify::SpaceBetween => if count > 1 {
            (zero(), slack.quotient(n.difference(one())))
        } else {
            (zero(), zero())
        },
        Justify::SpaceAround => if count > 0 {
            (slack.quotient(n).product(N::fraction(1, 2)), slack.quotient(n))
        } else {
            (zero(), zero())
        },
        Justify::SpaceEvenly => if count > 0 {
            (slack.quotient(n.sum(one())), slack.quotient(n.sum(one())))
        } else {
            (zero(), zero())
        },
    }
}

/// Position of the first flow child at or after `i` that is pushed to the
/// end; the number of flow children when there is none.
pub open spec fn first_pushed<N>(nodes: Seq<Option<Node<N>>>, f: Seq<NodeId>, i: nat) -> nat
    decreases f.len() - i,
{
    if i >= f.len() {
        f.len()
    } else if node_at(nodes, f[i as int]).layout.push_end {
        i
    } else {
        first_pushed(nodes, f, i + 1)
    }
}

/// How the flow children of a container are spread along its main axis.
#[verifier::ext_equal]
pub struct Line<N> {
    /// Size of each child.
    pub sizes: Seq<N>,
    /// Where the first child starts.
    pub start: N,
    /// Space behind each child.
    pub gap: N,
    pub between: N,
    /// Space that no child takes.
    pub slack: N,
    /// Child that is pushed to the end.
    pub pushed: nat,
}

/// The line of a container whose content box starts at `origin` along its
/// main axis.
pub open spec fn line_of<N: Num, M: Measurer<N>>(
    nodes: Seq<Option<Node<N>>>,
    m: &M,
    f: Seq<NodeId>,
    style: LayoutStyle<N>,
    origin: N,
    main: N,
    cross: N,
    scale: N,
) -> Line<N> {
    let gap = style.gap.product(scale);
    let gap_sum = gaps(style, f.len(), scale);
    let shares = shares_total(nodes, f, style.axis, f.len());
    let fixed = fixed_total(nodes, m, f, style.axis, main, cross, scale, f.len());
    let remaining = main.difference(fixed).difference(gap_sum).larger(zero());
    let sizes = Seq::new(
        f.len(),
        |i: int|
            settled(slot(nodes, m, f[i], style.axis, main, cross, scale), shares, remaining),
    );
    let slack = main.difference(total_of(sizes, sizes.len()).sum(gap_sum)).larger(zero());
    let (leading, between) = justified(style.justify, slack, f.len());
    Line {
        sizes,
        start: origin.sum(leading),
        gap,
        between,
        slack,
        pushed: if style.justify is Start {
            first_pushed(nodes, f, 1)
        } else {
            f.len()
        },
    }
}

/// Where child `i` starts along the main axis.
pub open spec fn start_of<N: Num>(line: Line<N>, i: nat) -> N
    decreases i,
{
    let here = if i == 0 {
        line.start
    } else {
        start_of(line, (i - 1) as nat).sum(line.sizes[i - 1].sum(line.gap).sum(line.between))
    };
    if i == line.pushed {
        here.sum(line.slack)
    } else {
        here
    }
}

/// Size of a flow child across the main axis.
pub open spec fn across<N: Num, M: Measurer<N>>(
    nodes: Seq<Option<Node<N>>>,
    m: &M,
    c: NodeId,
    style: LayoutStyle<N>,
    cross: N,
    scale: N,
) -> N {
    match len_along(node_at(nodes, c).layout, crossing(style.axis)) {
        Len::Px(v) => v.product(scale),
        Len::Pct(v) => v.product(cross),
        Len::Fr(_) => cross,
        Len::Fill => cross,
        Len::Auto => if style.align is Stretch {
            cross
        } else {
            intrinsic(nodes, m, c, crossing(style.axis), cross, scale)
        },
    }
}

/// Offset of a flow child of size `size` across the main axis.
pub open spec fn aligned<N: Num>(align: Align, cross: N, size: N) -> N {
    match align {
        Align::Start => zero(),
        Align::Stretch => zero(),
        Align::End => cross.difference(size).larger(zero()),
        Align::Center => cross.difference(size).product(N::fraction(1, 2)).larger(zero()),
    }
}

/// The axis across another.
pub fn cross_axis(axis: Axis) -> (r: Axis)
    ensures
        r == crossing(axis),
{
    match axis {
        Axis::Row => Axis::Col,
        Axis::Col => Axis::Row,
    }
}

fn settle<N: Num>(s: N, total: N, remaining: N) -> (r: N)
    ensures
        r == settled(s, total, remaining),
{
    let z: N = N::of_ratio(0, 1);
    let o: N = N::of_ratio(1, 1);
    if z.lt(total) {
        if s.eq(N::lowest_value()) {
            remaining.times(o.over(total))
        } else if s.lt(z) {
            remaining.times(s.negated().minus(o).over(total))
        } else {
            s
        }
    } else if s.lt(z) {
        z
    } else {
        s
    }
}

/// Space before the first child and extra space between children.
pub fn justify_offsets<N: Num>(justify: Justify, slack: N, count: usize) -> (r: (N, N))
    ensures
        r == justified(justify, slack, count as nat),
{
    let z: N = N::of_ratio(0, 1);
    let o: N = N::of_ratio(1, 1);
    let n: N = N::of_u64(count as u64);
    match justify {
        Justify::Start => (z, z),
        Justify::End => (slack, z),
        Justify::Center => (slack.times(N::of_ratio(1, 2)), z),
        Justify::SpaceBetween => if count > 1 {
            (z, slack.over(n.minus(o)))
        } else {
            (z, z)
        },
        Justify::SpaceAround => if count > 0 {
            let unit: N = slack.over(n);
            (unit.times(N::of_ratio(1, 2)), unit)
        } else {
            (z, z)
        },
        Justify::SpaceEvenly => if count > 0 {
            let unit: N = slack.over(n.plus(o));
            (unit, unit)
        } else {
            (z, z)
        },
    }
}

/// Position of the flow child that is pushed to the end; the number of flow
/// children when there is none.
pub fn push_end_index<N: Num>(tree: &NodeTree<N>, f: &Vec<NodeId>, justify: Justify) -> (r: usize)
    requires
        forall|i: int| 0 <= i < f@.len() ==> live(tree.nodes(), #[trigger] f@[i]),
    ensures
        r == if justify is Start {
            first_pushed(tree.nodes(), f@, 1)
        } else {
            f@.len()
        },
{
    if !matches!(justify, Justify::Start) {
        return f.len();
    }
    let mut i: usize = 1;
    while i < f.len()
        invariant
            1 <= i,
            justify is Start,
            i <= f@.len() || i == 1,
            first_pushed(tree.nodes(), f@, i as nat) == first_pushed(tree.nodes(), f@, 1),
            forall|k: int| 0 <= k < f@.len() ==> live(tree.nodes(), #[trigger] f@[k]),
        decreases f@.len() - i,
    {
        if let Some(n) = tree.get(f[i]) {
            if n.layout.push_end {
                return i;
            }
        }
        i += 1;
    }
    f.len()
}

/// The line of a container: sizes, start, gap, extra space, slack, and the
/// child that is pushed to the end.
pub struct MainLine<N> {
    pub sizes: Vec<N>,
    pub start: N,
    pub gap: N,
    pub between: N,
    pub slack: N,
    pub pushed: usize,
}

impl<N: Num> View for MainLine<N> {
    type V = Line<N>;

    open spec fn view(&self) -> Line<N> {
        Line {
            sizes: self.sizes@,
            start: self.start,
            gap: self.gap,
            between: self.between,
            slack: self.slack,
            pushed: self.pushed as nat,
        }
    }
}

/// Spreads the flow children along the main axis.
pub fn distribute<N: Num, M: Measurer<N>>(
    tree: &NodeTree<N>,
    m: &M,
    f: &Vec<NodeId>,
    style: &LayoutStyle<N>,
    origin: N,
    main: N,
    cross: N,
    scale: N,
) -> (r: MainLine<N>)
    requires
        tree.wf(),
        forall|i: int| 0 <= i < f@.len() ==> live(tree.nodes(), #[trigger] f@[i]),
    ensures
        r@ == line_of(tree.nodes(), m, f@, *style, origin, main, cross, scale),
{
    let z: N = N::of_ratio(0, 1);
    let o: N = N::of_ratio(1, 1);
    let gap: N = style.gap.times(scale);
    let gap_sum: N = gap_total(style, f.len(), scale);
    let ghost nodes = tree.nodes();
    let ghost axis = style.axis;
    let mut slots: Vec<N> = Vec::new();
    let mut shares_sum: N = z;
    let mut fixed_sum: N = z;
    let mut i: usize = 0;
    while i < f.len()
        invariant
            i <= f@.len(),
            slots@.len() == i,
            tree.wf(),
            nodes == tree.nodes(),
            axis == style.axis,
            z == zero::<N>(),
            o == one::<N>(),
            forall|k: int| 0 <= k < f@.len() ==> live(tree.nodes(), #[trigger] f@[k]),
            forall|k: int|
                0 <= k < i ==> #[trigger] slots@[k] == slot(
                    nodes,
                    m,
                    f@[k],
                    axis,
                    main,
                    cross,
                    scale,
                ),
            shares_sum == shares_total(nodes, f@, axis, i as nat),
            fixed_sum == fixed_total(nodes, m, f@, axis, main, cross, scale, i as nat),
        decreases f@.len() - i,
    {
        let c: NodeId = f[i];
        assert(live(nodes, c));
        let len: Len<N> = match tree.get(c) {
            Some(n) => pick_len(&n.layout, style.axis),
            None => Len::Auto,
        };
        match len {
            Len::Fill => {
                shares_sum = shares_sum.plus(o);
                slots.push(N::lowest_value());
            },
            Len::Fr(v) => {
                let share: N = v.max(z);
                shares_sum = shares_sum.plus(share);
                slots.push(share.plus(o).negated());
            },
            Len::Px(v) => {
                let size: N = v.times(scale);
                fixed_sum = fixed_sum.plus(size);
                slots.push(size);
            },
            Len::Pct(v) => {
                let size: N = v.times(main);
                fixed_sum = fixed_sum.plus(size);
                slots.push(size);
            },
            Len::Auto => {
                let size: N = intrinsic_main(tree, c, style.axis, cross, m, scale);
                fixed_sum = fixed_sum.plus(size);
                slots.push(size);
            },
        }
        i += 1;
    }
    let remaining: N = main.minus(fixed_sum).minus(gap_sum).max(z);
    let ghost want = line_of(nodes, m, f@, *style, origin, main, cross, scale);
    let mut sizes: Vec<N> = Vec::new();
    let mut sum: N = z;
    let mut j: usize = 0;
    while j < slots.len()
        invariant
            j <= slots@.len(),
            sizes@.len() == j,
            slots@.len() == f@.len(),
            want.sizes.len() == f@.len(),
            forall|k: int|
                0 <= k < f@.len() ==> #[trigger] want.sizes[k] == settled(
                    slots@[k],
                    shares_sum,
                    remaining,
                ),
            forall|k: int| 0 <= k < j ==> #[trigger] sizes@[k] == want.sizes[k],
            sum == total_of(want.sizes, j as nat),
        decreases slots@.len() - j,
    {
        let size: N = settle(slots[j], shares_sum, remaining);
        assert(size == want.sizes[j as int]);
        sizes.push(size);
        sum = sum.plus(size);
        j += 1;
    }
    assert(sizes@ =~= want.sizes);
    let slack: N = main.minus(sum.plus(gap_sum)).max(z);
    let (leading, between) = justify_offsets(style.justify, slack, f.len());
    let pushed: usize = push_end_index(tree, f, style.justify);
    MainLine { sizes, start: origin.plus(leading), gap, between, slack, pushed }
}

/// Size of a flow child across the main axis.
pub fn resolve_cross_size<N: Num, M: Measurer<N>>(
    tree: &NodeTree<N>,
    m: &M,
    c: NodeId,
    style: &LayoutStyle<N>,
    cross: N,
    scale: N,
) -> (r: N)
    requires
        tree.wf(),
        live(tree.nodes(), c),
    ensures
        r == across(tree.nodes(), m, c, *style, cross, scale),
{
    let axis: Axis = cross_axis(style.axis);
    let len: Len<N> = match tree.get(c) {
        Some(n) => pick_len(&n.layout, axis),
        None => Len::Auto,
    };
    match len {
        Len::Px(v) => v.times(scale),
        Len::Pct(v) => v.times(cross),
        Len::Fr(_) => cross,
        Len::Fill => cross,
        Len::Auto => if matches!(style.align, Align::Stretch) {
            cross
        } else {
            intrinsic_main(tree, c, axis, cross, m, scale)
        },
    }
}

/// Offset of a flow child of size `size` across the main axis.
pub fn align_offset<N: Num>(align: Align, cross: N, size: N) -> (r: N)
    ensures
        r == aligned(align, cross, size),
{
    let z: N = N::of_ratio(0, 1);
    match align {
        Align::Start => z,
        Align::Stretch => z,
        Align::End => cross.minus(size).max(z),
        Align::Center => cross.minus(size).times(N::of_ratio(1, 2)).max(z),
    }
}

} // verus!
