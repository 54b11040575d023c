//! Where layout puts things, in exact numbers.
use vstd::prelude::*;

use crate::layout::intrinsic::{
    children_count, flow, flow_among, flow_member, gaps, intrinsic, item_extent, items_max,
    items_sum,
};
use crate::layout::line::{
    first_pushed, fixed_total, justified, line_of, settled, shares_total, slot, start_of,
    total_of, Line,
};
use crate::layout::measure::Measurer;
use crate::layout::place::{
    child_rect, content_box, floating_among, off_axis, on_axis, reach, shown,
};
use crate::layout::solve::{all_placed, laid_out, placed, root_laid_out, shown_under};
use crate::layout::style::{Align, Axis, Justify, LayoutStyle, Len};
use crate::node::tree::{forest, forest_child, forest_size, live, node_at, Node};
use crate::node::NodeId;
use crate::num::{computes_exactly, fractions_are_exact, one, zero, Num};

verus! {

/// Near and far edge of a rectangle along an axis.
pub open spec fn edges<N>(value: spec_fn(N) -> real, rect: [N; 4], axis: Axis) -> (real, real) {
    match axis {
        Axis::Row => (value(rect[0]), value(rect[0]) + value(rect[2])),
        Axis::Col => (value(rect[1]), value(rect[1]) + value(rect[3])),
    }
}

/// Near and far edge of a rectangle along an axis, less its padding.
pub open spec fn inner_edges<N>(
    value: spec_fn(N) -> real,
    rect: [N; 4],
    style: LayoutStyle<N>,
    scale: N,
    axis: Axis,
) -> (real, real) {
    let s = value(scale);
    match axis {
        Axis::Row => (
            value(rect[0]) + value(style.padding[0]) * s,
            value(rect[0]) + value(rect[2]) - value(style.padding[2]) * s,
        ),
        Axis::Col => (
            value(rect[1]) + value(style.padding[1]) * s,
            value(rect[1]) + value(rect[3]) - value(style.padding[3]) * s,
        ),
    }
}

/// The other axis.
pub open spec fn other(axis: Axis) -> Axis {
    if axis is Row {
        Axis::Col
    } else {
        Axis::Row
    }
}

/// Length that a style asks for along an axis.
pub open spec fn asked<N>(style: LayoutStyle<N>, axis: Axis) -> Len<N> {
    if axis is Row {
        style.width
    } else {
        style.height
    }
}

/// Along `axis`, the content box of `p` has room.
pub open spec fn roomy<N>(
    value: spec_fn(N) -> real,
    before: Seq<Option<Node<N>>>,
    after: Seq<Option<Node<N>>>,
    p: NodeId,
    scale: N,
    axis: Axis,
) -> bool {
    let e = inner_edges(value, node_at(after, p).rect, node_at(before, p).layout, scale, axis);
    e.0 <= e.1
}

/// What a placed flow child has for a rectangle, without the names of the
/// steps.
proof fn placed_child<N: Num, M: Measurer<N>>(
    before: Seq<Option<Node<N>>>,
    after: Seq<Option<Node<N>>>,
    m: &M,
    p: NodeId,
    scale: N,
    i: int,
)
    requires
        live(before, p),
        all_placed(before, after, m, p, scale),
        0 <= i < flow(before, p).len(),
    ensures
        node_at(after, flow(before, p)[i]).rect == child_rect(
            before,
            m,
            p,
            node_at(after, p).rect,
            scale,
            i,
        ),
{
    assert(shown_under(before, p, p));
    assert(placed(before, after, m, p, scale));
    assert(shown(before, p)[i] == flow(before, p)[i]);
}

/// Across the main axis, a flow child that is no larger than the content box
/// lies at its near edge under `Start` and `Stretch`, ends at its far edge
/// under `End`, and has as much space before it as behind it under `Center`. A
/// larger one always starts at the near edge.
pub proof fn children_are_aligned<N: Num, M: Measurer<N>>(
    value: spec_fn(N) -> real,
    before: Seq<Option<Node<N>>>,
    after: Seq<Option<Node<N>>>,
    m: &M,
    p: NodeId,
    scale: N,
    i: int,
)
    requires
        computes_exactly(value),
        live(before, p),
        all_placed(before, after, m, p, scale),
        0 <= i < flow(before, p).len(),
        roomy(value, before, after, p, scale, other(node_at(before, p).layout.axis)),
    ensures
        ({
            let style = node_at(before, p).layout;
            let axis = other(style.axis);
            let (lo, hi) = inner_edges(value, node_at(after, p).rect, style, scale, axis);
            let (near, far) = edges(value, node_at(after, flow(before, p)[i]).rect, axis);
            &&& style.align is Start || style.align is Stretch ==> near == lo
            &&& style.align is End && far - near <= hi - lo ==> far == hi
            &&& style.align is Center && far - near <= hi - lo ==> near - lo == hi - far
            &&& far - near > hi - lo ==> near == lo
        }),
{
    placed_child(before, after, m, p, scale, i);
    fractions_are_exact(value);
    let style = node_at(before, p).layout;
    let axis = other(style.axis);
    let rect = node_at(after, p).rect;
    let (lo, hi) = inner_edges(value, rect, style, scale, axis);
    let (near, far) = edges(value, node_at(after, flow(before, p)[i]).rect, axis);
    let (origin, cross) = off_axis(style.axis, content_box(rect, style, scale));
    assert(value(origin) == lo);
    assert(value(cross) == hi - lo);
    let (d, h) = (hi - lo - (far - near), value(N::fraction(1, 2)));
    assert((d * h) * 2real == d) by (nonlinear_arith)
        requires
            h * 2real == 1real,
    ;
    match style.align {
        Align::Center => {
            assert(near == lo + (if d * h < 0real {
                0real
            } else {
                d * h
            }));
        },
        _ => {},
    }
}

/// Across the main axis, a flow child has the length that it asks for, or fills
/// the content box if it asks for a share; one that leaves it open fills the
/// content box under `Stretch`, else it has the size of its content.
pub proof fn children_have_their_size_across<N: Num, M: Measurer<N>>(
    value: spec_fn(N) -> real,
    before: Seq<Option<Node<N>>>,
    after: Seq<Option<Node<N>>>,
    m: &M,
    p: NodeId,
    scale: N,
    i: int,
)
    requires
        computes_exactly(value),
        live(before, p),
        all_placed(before, after, m, p, scale),
        0 <= i < flow(before, p).len(),
        roomy(value, before, after, p, scale, other(node_at(before, p).layout.axis)),
    ensures
        ({
            let style = node_at(before, p).layout;
            let axis = other(style.axis);
            let (lo, hi) = inner_edges(value, node_at(after, p).rect, style, scale, axis);
            let c = flow(before, p)[i];
            let (near, far) = edges(value, node_at(after, c).rect, axis);
            match asked(node_at(before, c).layout, axis) {
                Len::Px(v) => far - near == value(v) * value(scale),
                Len::Pct(v) => far - near == value(v) * (hi - lo),
                Len::Fr(_) => near == lo && far == hi,
                Len::Fill => near == lo && far == hi,
                Len::Auto => if style.align is Stretch {
                    near == lo && far == hi
                } else {
                    exists|room: N|
                        value(room) == hi - lo && far - near == value(
                            #[trigger] intrinsic(before, m, c, axis, room, scale),
                        )
                },
            }
        }),
{
    placed_child(before, after, m, p, scale, i);
    fractions_are_exact(value);
    children_are_aligned(value, before, after, m, p, scale, i);
    let style = node_at(before, p).layout;
    let axis = other(style.axis);
    let rect = node_at(after, p).rect;
    let (lo, hi) = inner_edges(value, rect, style, scale, axis);
    let (origin, cross) = off_axis(style.axis, content_box(rect, style, scale));
    let c = flow(before, p)[i];
    assert(value(cross) == hi - lo);
    let size = intrinsic(before, m, c, axis, cross, scale);
}

/// The lengths of the first `n` of `f` along an axis, added up.
pub open spec fn lengths<N>(
    value: spec_fn(N) -> real,
    nodes: Seq<Option<Node<N>>>,
    f: Seq<NodeId>,
    axis: Axis,
    n: nat,
) -> real
    decreases n,
{
    if n == 0 {
        0real
    } else {
        let e = edges(value, node_at(nodes, f[n - 1]).rect, axis);
        lengths(value, nodes, f, axis, (n - 1) as nat) + (e.1 - e.0)
    }
}

/// Sum of the first `n` sizes of a line.
spec fn sizes_sum<N>(value: spec_fn(N) -> real, s: Seq<N>, n: nat) -> real
    decreases n,
{
    if n == 0 {
        0real
    } else {
        sizes_sum(value, s, (n - 1) as nat) + value(s[n - 1])
    }
}

proof fn total_is_sum<N: Num>(value: spec_fn(N) -> real, s: Seq<N>, n: nat)
    requires
        computes_exactly(value),
    ensures
        value(total_of(s, n)) == sizes_sum(value, s, n),
    decreases n,
{
    fractions_are_exact(value);
    if n > 0 {
        total_is_sum(value, s, (n - 1) as nat);
    }
}

proof fn starts_add_up<N: Num>(value: spec_fn(N) -> real, line: Line<N>, i: nat)
    requires
        computes_exactly(value),
    ensures
        value(start_of(line, i)) == value(line.start) + sizes_sum(value, line.sizes, i) + (
        i as real) * (value(line.gap) + value(line.between)) + (if line.pushed <= i {
            value(line.slack)
        } else {
            0real
        }),
    decreases i,
{
    let step = value(line.gap) + value(line.between);
    if i > 0 {
        starts_add_up(value, line, (i - 1) as nat);
        assert((i as real) * step == ((i - 1) as real) * step + step) by (nonlinear_arith)
            requires
                (i as real) == ((i - 1) as real) + 1real,
        ;
    } else {
        assert((i as real) * step == 0real) by (nonlinear_arith)
            requires
                (i as real) == 0real,
        ;
    }
}

/// What is known of the line of a placed container.
proof fn placed_line<N: Num, M: Measurer<N>>(
    value: spec_fn(N) -> real,
    before: Seq<Option<Node<N>>>,
    after: Seq<Option<Node<N>>>,
    roots: Seq<NodeId>,
    m: &M,
    p: NodeId,
    scale: N,
) -> (line: Line<N>)
    requires
        computes_exactly(value),
        forest(before, roots),
        live(before, p),
        all_placed(before, after, m, p, scale),
        roomy(value, before, after, p, scale, node_at(before, p).layout.axis),
    ensures
        ({
            let style = node_at(before, p).layout;
            let f = flow(before, p);
            let n = f.len();
            let (lo, hi) = inner_edges(value, node_at(after, p).rect, style, scale, style.axis);
            let rect = node_at(after, p).rect;
            let b = content_box(rect, style, scale);
            let (origin, main) = on_axis(style.axis, b);
            let (cross_origin, cross) = off_axis(style.axis, b);
            let w = lengths(value, after, f, style.axis, n);
            let g = value(style.gap) * value(scale);
            let rest = hi - lo - w - (if n > 1 {
                ((n - 1) as real) * g
            } else {
                0real
            });
            &&& line == line_of(before, m, f, style, origin, main, cross, scale)
            &&& value(origin) == lo
            &&& value(main) == hi - lo
            &&& n <= u32::MAX
            &&& value(line.gap) == g
            &&& value(line.slack) == (if rest < 0real {
                0real
            } else {
                rest
            })
            &&& forall|i: int|
                0 <= i < n ==> ({
                    let e = edges(value, node_at(after, #[trigger] f[i]).rect, style.axis);
                    &&& e.0 == value(line.start) + lengths(value, after, f, style.axis, i as nat)
                        + (i as real) * (g + value(line.between)) + (if line.pushed <= i {
                        value(line.slack)
                    } else {
                        0real
                    })
                    &&& e.1 - e.0 == value(line.sizes[i])
                })
        }),
{
    fractions_are_exact(value);
    let style = node_at(before, p).layout;
    let axis = style.axis;
    let f = flow(before, p);
    let n = f.len();
    let rect = node_at(after, p).rect;
    let b = content_box(rect, style, scale);
    let (origin, main) = on_axis(axis, b);
    let (cross_origin, cross) = off_axis(axis, b);
    let line = line_of(before, m, f, style, origin, main, cross, scale);
    flow_is_short(before, node_at(before, p).children@, node_at(before, p).children@.len());
    children_count(before, roots, p);
    forest_size(before, roots);
    assert forall|i: int| 0 <= i < n implies ({
        let e = edges(value, node_at(after, #[trigger] f[i]).rect, axis);
        &&& e.0 == value(start_of(line, i as nat))
        &&& e.1 - e.0 == value(line.sizes[i])
    }) by {
        placed_child(before, after, m, p, scale, i);
    }
    lengths_are_sizes(value, after, f, axis, line.sizes, n);
    total_is_sum(value, line.sizes, n);
    assert forall|i: int| 0 <= i < n implies ({
        let e = edges(value, node_at(after, #[trigger] f[i]).rect, axis);
        e.0 == value(line.start) + lengths(value, after, f, axis, i as nat) + (i as real) * (
        value(line.gap) + value(line.between)) + (if line.pushed <= i {
            value(line.slack)
        } else {
            0real
        })
    }) by {
        starts_add_up(value, line, i as nat);
        lengths_are_sizes(value, after, f, axis, line.sizes, i as nat);
    }
    if n > 1 {
        let g = value(line.gap);
        assert(value(N::natural((n - 1) as u64)) == (n - 1) as real);
        assert(g * ((n - 1) as real) == ((n - 1) as real) * g) by (nonlinear_arith);
    }
    line
}

proof fn flow_is_short<N>(nodes: Seq<Option<Node<N>>>, kids: Seq<NodeId>, n: nat)
    ensures
        flow_among(nodes, kids, n).len() <= n,
    decreases n,
{
    if n > 0 {
        flow_is_short(nodes, kids, (n - 1) as nat);
    }
}

proof fn lengths_are_sizes<N>(
    value: spec_fn(N) -> real,
    nodes: Seq<Option<Node<N>>>,
    f: Seq<NodeId>,
    axis: Axis,
    s: Seq<N>,
    n: nat,
)
    requires
        n <= f.len(),
        forall|i: int|
            0 <= i < f.len() ==> ({
                let e = edges(value, node_at(nodes, #[trigger] f[i]).rect, axis);
                e.1 - e.0 == value(s[i])
            }),
    ensures
        sizes_sum(value, s, n) == lengths(value, nodes, f, axis, n),
    decreases n,
{
    if n > 0 {
        lengths_are_sizes(value, nodes, f, axis, s, (n - 1) as nat);
        let c = f[n - 1];
    }
}

/// The space that the flow children and the gaps between them leave of the
/// content box, along the main axis.
pub open spec fn spare<N>(
    value: spec_fn(N) -> real,
    before: Seq<Option<Node<N>>>,
    after: Seq<Option<Node<N>>>,
    p: NodeId,
    scale: N,
) -> real {
    let style = node_at(before, p).layout;
    let f = flow(before, p);
    let e = inner_edges(value, node_at(after, p).rect, style, scale, style.axis);
    e.1 - e.0 - lengths(value, after, f, style.axis, f.len()) - ((f.len() - 1) as real) * (value(
        style.gap,
    ) * value(scale))
}

/// Space before the flow child at `i`, in front of the gap: from the near edge
/// of the content box for the first, else from the child before it.
pub open spec fn extra_before<N>(
    value: spec_fn(N) -> real,
    before: Seq<Option<Node<N>>>,
    after: Seq<Option<Node<N>>>,
    p: NodeId,
    scale: N,
    i: int,
) -> real {
    let style = node_at(before, p).layout;
    let f = flow(before, p);
    let near = edges(value, node_at(after, f[i]).rect, style.axis).0;
    if i == 0 {
        near - inner_edges(value, node_at(after, p).rect, style, scale, style.axis).0
    } else {
        near - edges(value, node_at(after, f[i - 1]).rect, style.axis).1 - value(style.gap)
            * value(scale)
    }
}

/// Space between the last flow child and the far edge of the content box.
pub open spec fn extra_behind<N>(
    value: spec_fn(N) -> real,
    before: Seq<Option<Node<N>>>,
    after: Seq<Option<Node<N>>>,
    p: NodeId,
    scale: N,
) -> real {
    let style = node_at(before, p).layout;
    let f = flow(before, p);
    inner_edges(value, node_at(after, p).rect, style, scale, style.axis).1 - edges(
        value,
        node_at(after, f.last()).rect,
        style.axis,
    ).1
}

/// Some flow child but the first is pushed to the end.
pub open spec fn pushes<N>(nodes: Seq<Option<Node<N>>>, p: NodeId) -> bool {
    exists|k: int|
        1 <= k < flow(nodes, p).len() && node_at(nodes, #[trigger] flow(nodes, p)[k]).layout.push_end
}

/// Along the main axis the flow children follow one another with the gap
/// between them. What they leave of the content box goes where the container
/// says: behind the last (`Start`), before the first (`End`), half of it to
/// either side (`Center`), evenly between them (`SpaceBetween`), evenly between
/// them and half as much at either end (`SpaceAround`), or evenly between them
/// and at the ends (`SpaceEvenly`). Under `Start`, the first child but the
/// first one that is pushed to the end takes it all before itself, so that the
/// last ends with the content box. Where nothing is left, they are packed from
/// the near edge on.
pub proof fn children_are_justified<N: Num, M: Measurer<N>>(
    value: spec_fn(N) -> real,
    before: Seq<Option<Node<N>>>,
    after: Seq<Option<Node<N>>>,
    roots: Seq<NodeId>,
    m: &M,
    p: NodeId,
    scale: N,
    i: int,
)
    requires
        computes_exactly(value),
        forest(before, roots),
        live(before, p),
        all_placed(before, after, m, p, scale),
        0 <= i < flow(before, p).len(),
        roomy(value, before, after, p, scale, node_at(before, p).layout.axis),
    ensures
        ({
            let style = node_at(before, p).layout;
            let f = flow(before, p);
            let room = spare(value, before, after, p, scale);
            let here = extra_before(value, before, after, p, scale, i);
            let first = extra_before(value, before, after, p, scale, 0);
            let last = extra_behind(value, before, after, p, scale);
            &&& room < 0real ==> here == 0real && last == room
            &&& room >= 0real ==> match style.justify {
                Justify::Start => if pushes(before, p) {
                    &&& first == 0real
                    &&& last == 0real
                    &&& here == room || here == 0real
                    &&& node_at(before, f[i]).layout.push_end && i > 0 && (forall|k: int|
                        1 <= k < i ==> !node_at(before, #[trigger] f[k]).layout.push_end)
                        ==> here == room
                    &&& !node_at(before, f[i]).layout.push_end ==> here == 0real
                } else {
                    here == 0real
                },
                Justify::End => {
                    &&& last == 0real
                    &&& i > 0 ==> here == 0real
                },
                Justify::Center => {
                    &&& first == last
                    &&& i > 0 ==> here == 0real
                },
                Justify::SpaceBetween => {
                    &&& first == 0real
                    &&& f.len() > 1 ==> last == 0real
                    &&& i > 0 ==> here == extra_before(value, before, after, p, scale, 1)
                },
                Justify::SpaceAround => {
                    &&& first == last
                    &&& i > 0 ==> here == 2real * first
                },
                Justify::SpaceEvenly => {
                    &&& first == last
                    &&& i > 0 ==> here == first
                },
            }
        }),
{
    fractions_are_exact(value);
    let style = node_at(before, p).layout;
    let f = flow(before, p);
    let n = f.len();
    let line = placed_spaces(value, before, after, roots, m, p, scale);
    let b = value(line.between);
    let slack = value(line.slack);
    let room = spare(value, before, after, p, scale);
    let (lo, hi) = inner_edges(value, node_at(after, p).rect, style, scale, style.axis);
    first_pushed_is_first(before, f, 1);
    let first = extra_before(value, before, after, p, scale, 0);
    let last = extra_behind(value, before, after, p, scale);
    let here = extra_before(value, before, after, p, scale, i);
    spaces_of_a_line(value, style.justify, line.slack, n);
    match style.justify {
        Justify::Start => {
            if pushes(before, p) {
                let k = choose|k: int|
                    1 <= k < flow(before, p).len() && node_at(
                        before,
                        #[trigger] flow(before, p)[k],
                    ).layout.push_end;
                assert(line.pushed <= k);
            } else {
                if line.pushed < n {
                    assert(node_at(before, f[line.pushed as int]).layout.push_end);
                }
            }
        },
        Justify::SpaceBetween => {
            if n > 1 {
                assert(extra_before(value, before, after, p, scale, 1) == b);
            }
        },
        _ => {},
    }
}

/// What the spaces come to for each way to spread `n` children.
proof fn spaces_of_a_line<N: Num>(
    value: spec_fn(N) -> real,
    justify: Justify,
    slack: N,
    n: nat,
)
    requires
        computes_exactly(value),
        0 < n <= u32::MAX,
    ensures
        ({
            let (lead, between) = justified(justify, slack, n);
            let (a, b, s) = (value(lead), value(between), value(slack));
            let all = ((n as real) - 1real) * b;
            &&& s == 0real ==> a == 0real && b == 0real
            &&& match justify {
                Justify::Start => a == 0real && b == 0real && all == 0real,
                Justify::End => a == s && b == 0real && all == 0real,
                Justify::Center => 2real * a == s && b == 0real && all == 0real,
                Justify::SpaceBetween => a == 0real && (if n > 1 {
                    all == s
                } else {
                    b == 0real && all == 0real
                }),
                Justify::SpaceAround => 2real * a == b && all == s - b,
                Justify::SpaceEvenly => a == b && all == s - 2real * b,
            }
        }),
{
    fractions_are_exact(value);
    let (lead, between) = justified(justify, slack, n);
    let (a, b, s) = (value(lead), value(between), value(slack));
    let nr = n as real;
    let all = (nr - 1real) * b;
    let half = value(N::fraction(1, 2));
    let count = N::natural(n as u64);
    assert(value(count) == nr);
    assert(b == 0real ==> all == 0real) by (nonlinear_arith)
        requires
            all == (nr - 1real) * b,
    ;
    match justify {
        Justify::Start => {},
        Justify::End => {},
        Justify::Center => {
            assert(2real * a == s) by (nonlinear_arith)
                requires
                    a == s * half,
                    half * 2real == 1real,
            ;
        },
        Justify::SpaceBetween => {
            if n > 1 {
                let q = slack.quotient(count.difference(one()));
                assert(b * (nr - 1real) == s);
                assert(all == s) by (nonlinear_arith)
                    requires
                        all == (nr - 1real) * b,
                        b * (nr - 1real) == s,
                ;
                assert(s == 0real ==> b == 0real) by (nonlinear_arith)
                    requires
                        b * (nr - 1real) == s,
                        nr > 1real,
                ;
            }
        },
        Justify::SpaceAround => {
            let q = slack.quotient(count);
            assert(b * nr == s);
            assert(2real * a == b) by (nonlinear_arith)
                requires
                    a == b * half,
                    half * 2real == 1real,
            ;
            assert(all == s - b) by (nonlinear_arith)
                requires
                    all == (nr - 1real) * b,
                    b * nr == s,
            ;
            assert(s == 0real ==> b == 0real) by (nonlinear_arith)
                requires
                    b * nr == s,
                    nr > 0real,
            ;
        },
        Justify::SpaceEvenly => {
            let q = slack.quotient(count.sum(one()));
            assert(b * (nr + 1real) == s);
            assert(all == s - 2real * b) by (nonlinear_arith)
                requires
                    all == (nr - 1real) * b,
                    b * (nr + 1real) == s,
            ;
            assert(s == 0real ==> b == 0real) by (nonlinear_arith)
                requires
                    b * (nr + 1real) == s,
                    nr > 0real,
            ;
        },
    }
}

/// The spaces of a placed container, from the numbers of its line.
proof fn placed_spaces<N: Num, M: Measurer<N>>(
    value: spec_fn(N) -> real,
    before: Seq<Option<Node<N>>>,
    after: Seq<Option<Node<N>>>,
    roots: Seq<NodeId>,
    m: &M,
    p: NodeId,
    scale: N,
) -> (line: Line<N>)
    requires
        computes_exactly(value),
        forest(before, roots),
        live(before, p),
        all_placed(before, after, m, p, scale),
        flow(before, p).len() > 0,
        roomy(value, before, after, p, scale, node_at(before, p).layout.axis),
    ensures
        ({
            let style = node_at(before, p).layout;
            let f = flow(before, p);
            let n = f.len();
            let (lo, hi) = inner_edges(value, node_at(after, p).rect, style, scale, style.axis);
            let room = spare(value, before, after, p, scale);
            let slack = value(line.slack);
            let lead = justified(style.justify, line.slack, n).0;
            &&& n <= u32::MAX
            &&& line.between == justified(style.justify, line.slack, n).1
            &&& value(line.start) == lo + value(lead)
            &&& line.pushed == (if style.justify is Start {
                first_pushed(before, f, 1)
            } else {
                n
            })
            &&& slack == (if room < 0real {
                0real
            } else {
                room
            })
            &&& extra_before(value, before, after, p, scale, 0) == value(lead) + (if line.pushed
                == 0 {
                slack
            } else {
                0real
            })
            &&& forall|k: int|
                0 < k < n ==> #[trigger] extra_before(value, before, after, p, scale, k) == value(
                    line.between,
                ) + (if line.pushed == k {
                    slack
                } else {
                    0real
                })
            &&& extra_behind(value, before, after, p, scale) == room - value(lead) - ((n as real)
                - 1real) * value(line.between) - (if line.pushed < n {
                slack
            } else {
                0real
            })
        }),
{
    let style = node_at(before, p).layout;
    let axis = style.axis;
    let f = flow(before, p);
    let n = f.len();
    let line = placed_line(value, before, after, roots, m, p, scale);
    let g = value(line.gap);
    let b = value(line.between);
    let step = g + b;
    let nr = n as real;
    assert(((n - 1) as real) == nr - 1real);
    if n == 1 {
        assert(((n - 1) as real) * g == 0real) by (nonlinear_arith)
            requires
                ((n - 1) as real) == 0real,
        ;
    }
    assert(0real * step == 0real) by (nonlinear_arith);
    assert((0int as real) == 0real);
    let (z, d) = (f[0], f[n - 1]);
    assert(f[n - 1] == f.last());
    assert(lengths(value, after, f, axis, 0) == 0real);
    assert forall|k: int| 0 < k < n implies #[trigger] extra_before(
        value,
        before,
        after,
        p,
        scale,
        k,
    ) == b + (if line.pushed == k {
        value(line.slack)
    } else {
        0real
    }) by {
        let (x, y) = (f[k], f[k - 1]);
        assert((k as real) * step == ((k - 1) as real) * step + step) by (nonlinear_arith)
            requires
                (k as real) == ((k - 1) as real) + 1real,
        ;
    }
    let w = lengths(value, after, f, axis, n);
    assert(w == lengths(value, after, f, axis, (n - 1) as nat) + value(line.sizes[n - 1]));
    let nb = (nr - 1real) * b;
    assert(((n - 1) as real) * step == (nr - 1real) * g + nb) by (nonlinear_arith)
        requires
            step == g + b,
            nb == (nr - 1real) * b,
            ((n - 1) as real) == nr - 1real,
    ;
    line
}

proof fn first_pushed_is_first<N>(nodes: Seq<Option<Node<N>>>, f: Seq<NodeId>, i: nat)
    ensures
        ({
            let k = first_pushed(nodes, f, i);
            &&& k <= f.len()
            &&& i < f.len() ==> i <= k
            &&& k < f.len() ==> node_at(nodes, f[k as int]).layout.push_end
            &&& forall|j: int| i <= j < k ==> !node_at(nodes, #[trigger] f[j]).layout.push_end
        }),
    decreases f.len() - i,
{
    if i < f.len() && !node_at(nodes, f[i as int]).layout.push_end {
        first_pushed_is_first(nodes, f, i + 1);
    }
}

/// Part that a child asks for of the space that remains: one for `Fill`.
pub open spec fn share_of<N>(value: spec_fn(N) -> real, len: Len<N>) -> real {
    match len {
        Len::Fill => 1real,
        Len::Fr(v) => if value(v) < 0real {
            0real
        } else {
            value(v)
        },
        _ => 0real,
    }
}

/// The length asks for a share of the space that remains.
pub open spec fn sharing<N>(len: Len<N>) -> bool {
    len is Fill || len is Fr
}

/// No flow child of `p` asks for less than nothing along the main axis, or for
/// a share that is out of all proportion.
pub open spec fn sensible<N: Num, M: Measurer<N>>(
    value: spec_fn(N) -> real,
    before: Seq<Option<Node<N>>>,
    after: Seq<Option<Node<N>>>,
    m: &M,
    p: NodeId,
    scale: N,
) -> bool {
    let style = node_at(before, p).layout;
    let f = flow(before, p);
    let (lo, hi) = inner_edges(value, node_at(after, p).rect, style, scale, style.axis);
    &&& value(N::lowest()) < -1real
    &&& forall|k: int|
        0 <= k < f.len() ==> match asked(node_at(before, #[trigger] f[k]).layout, style.axis) {
            Len::Px(v) => 0real <= value(v) * value(scale),
            Len::Pct(v) => 0real <= value(v) * (hi - lo),
            Len::Auto => forall|room: N|
                0real <= value(
                    #[trigger] intrinsic(before, m, f[k], style.axis, room, scale),
                ),
            Len::Fr(v) => value(v) + 1real < -value(N::lowest()),
            Len::Fill => true,
        }
}

/// Sum of the shares that the first `n` of `f` ask for.
spec fn shares_sum<N>(
    value: spec_fn(N) -> real,
    nodes: Seq<Option<Node<N>>>,
    f: Seq<NodeId>,
    axis: Axis,
    n: nat,
) -> real
    decreases n,
{
    if n == 0 {
        0real
    } else {
        shares_sum(value, nodes, f, axis, (n - 1) as nat) + share_of(
            value,
            asked(node_at(nodes, f[n - 1]).layout, axis),
        )
    }
}

proof fn shares_add_up<N: Num>(
    value: spec_fn(N) -> real,
    nodes: Seq<Option<Node<N>>>,
    f: Seq<NodeId>,
    axis: Axis,
    n: nat,
)
    requires
        computes_exactly(value),
        n <= f.len(),
    ensures
        value(shares_total(nodes, f, axis, n)) == shares_sum(value, nodes, f, axis, n),
        0real <= shares_sum(value, nodes, f, axis, n),
        forall|k: int|
            0 <= k < n ==> share_of(value, asked(node_at(nodes, #[trigger] f[k]).layout, axis))
                <= shares_sum(value, nodes, f, axis, n),
    decreases n,
{
    fractions_are_exact(value);
    if n > 0 {
        shares_add_up(value, nodes, f, axis, (n - 1) as nat);
    }
}

/// Along the main axis, a flow child that asks for no share of the space that
/// remains has the length that it asks for, or the size of its content.
pub proof fn children_have_their_size_along<N: Num, M: Measurer<N>>(
    value: spec_fn(N) -> real,
    before: Seq<Option<Node<N>>>,
    after: Seq<Option<Node<N>>>,
    roots: Seq<NodeId>,
    m: &M,
    p: NodeId,
    scale: N,
    i: int,
)
    requires
        computes_exactly(value),
        forest(before, roots),
        live(before, p),
        all_placed(before, after, m, p, scale),
        0 <= i < flow(before, p).len(),
        roomy(value, before, after, p, scale, node_at(before, p).layout.axis),
        sensible(value, before, after, m, p, scale),
    ensures
        ({
            let style = node_at(before, p).layout;
            let axis = style.axis;
            let (lo, hi) = inner_edges(value, node_at(after, p).rect, style, scale, axis);
            let c = flow(before, p)[i];
            let (near, far) = edges(value, node_at(after, c).rect, axis);
            match asked(node_at(before, c).layout, axis) {
                Len::Px(v) => far - near == value(v) * value(scale),
                Len::Pct(v) => far - near == value(v) * (hi - lo),
                Len::Auto => exists|room: N|
                    far - near == value(#[trigger] intrinsic(before, m, c, axis, room, scale)) && (
                    roomy(value, before, after, p, scale, other(axis)) ==> value(room)
                        == inner_edges(
                        value,
                        node_at(after, p).rect,
                        style,
                        scale,
                        other(axis),
                    ).1 - inner_edges(value, node_at(after, p).rect, style, scale, other(axis)).0),
                _ => true,
            }
        }),
{
    fractions_are_exact(value);
    let style = node_at(before, p).layout;
    let line = placed_line(value, before, after, roots, m, p, scale);
    let b = content_box(node_at(after, p).rect, style, scale);
    let (cross_origin, cross) = off_axis(style.axis, b);
    let c = flow(before, p)[i];
    let size = intrinsic(before, m, c, style.axis, cross, scale);
}

/// What the flow children have once the shares are settled: each length times
/// the sum of the shares is its share of the space that remains.
proof fn shares_settle<N: Num, M: Measurer<N>>(
    value: spec_fn(N) -> real,
    before: Seq<Option<Node<N>>>,
    after: Seq<Option<Node<N>>>,
    roots: Seq<NodeId>,
    m: &M,
    p: NodeId,
    scale: N,
) -> (r: real)
    requires
        computes_exactly(value),
        forest(before, roots),
        live(before, p),
        all_placed(before, after, m, p, scale),
        flow(before, p).len() > 0,
        roomy(value, before, after, p, scale, node_at(before, p).layout.axis),
        sensible(value, before, after, m, p, scale),
    ensures
        ({
            let axis = node_at(before, p).layout.axis;
            let f = flow(before, p);
            let total = shares_sum(value, before, f, axis, f.len());
            let rest = spare(value, before, after, p, scale);
            &&& 0real <= r
            &&& forall|i: int|
                0 <= i < f.len() && sharing(
                    asked(node_at(before, #[trigger] f[i]).layout, axis),
                ) ==> ({
                    let e = edges(value, node_at(after, f[i]).rect, axis);
                    &&& total > 0real ==> (e.1 - e.0) * total == r * share_of(
                        value,
                        asked(node_at(before, f[i]).layout, axis),
                    )
                    &&& total == 0real ==> e.1 - e.0 == 0real
                })
            &&& total > 0real ==> rest <= 0real && (rest < 0real ==> r == 0real)
        }),
{
    fractions_are_exact(value);
    let style = node_at(before, p).layout;
    let axis = style.axis;
    let f = flow(before, p);
    let n = f.len();
    let line = placed_line(value, before, after, roots, m, p, scale);
    let b = content_box(node_at(after, p).rect, style, scale);
    let (origin, main) = on_axis(axis, b);
    let (cross_origin, cross) = off_axis(axis, b);
    let total = shares_total(before, f, axis, n);
    shares_add_up(value, before, f, axis, n);
    let t = value(total);
    let fixed = fixed_total(before, m, f, axis, main, cross, scale, n);
    let gap_sum = gaps(style, n, scale);
    let remaining = main.difference(fixed).difference(gap_sum).larger(zero());
    let r = value(remaining);
    assert forall|i: int| 0 <= i < n implies ({
        let len = asked(node_at(before, #[trigger] f[i]).layout, axis);
        let s = slot(before, m, f[i], axis, main, cross, scale);
        &&& sharing(len) && t > 0real ==> value(line.sizes[i]) * t == r * share_of(value, len)
        &&& sharing(len) && t == 0real ==> value(line.sizes[i]) == 0real
        &&& !sharing(len) ==> line.sizes[i] == s
    }) by {
        let len = asked(node_at(before, f[i]).layout, axis);
        let s = slot(before, m, f[i], axis, main, cross, scale);
        assert(line.sizes[i] == settled(s, total, remaining));
        if sharing(len) && t > 0real {
            let o: N = one();
            let q = if len is Fill {
                o.quotient(total)
            } else {
                s.negation().difference(o).quotient(total)
            };
            let x = value(q);
            assert(x * t == share_of(value, len));
            assert(value(line.sizes[i]) == r * x);
            assert((r * x) * t == r * (x * t)) by (nonlinear_arith);
        }
    }
    if t > 0real {
        lengths_with_shares(value, before, m, f, axis, main, cross, scale, line.sizes, r, t, n);
        lengths_are_sizes(value, after, f, axis, line.sizes, n);
        let w = sizes_sum(value, line.sizes, n);
        assert(w == value(fixed) + r) by (nonlinear_arith)
            requires
                t > 0real,
                w * t == value(fixed) * t + r * t,
        ;
        let g = value(style.gap) * value(scale);
        if n > 1 {
            assert(value(N::natural((n - 1) as u64)) == (n - 1) as real);
            assert(g * ((n - 1) as real) == ((n - 1) as real) * g) by (nonlinear_arith);
        } else {
            assert(((n - 1) as real) * g == 0real) by (nonlinear_arith)
                requires
                    ((n - 1) as real) == 0real,
            ;
        }
        assert(value(gap_sum) == ((n - 1) as real) * g);
    }
    r
}

proof fn lengths_with_shares<N: Num, M: Measurer<N>>(
    value: spec_fn(N) -> real,
    nodes: Seq<Option<Node<N>>>,
    m: &M,
    f: Seq<NodeId>,
    axis: Axis,
    main: N,
    cross: N,
    scale: N,
    sizes: Seq<N>,
    r: real,
    t: real,
    n: nat,
)
    requires
        computes_exactly(value),
        n <= f.len(),
        forall|i: int|
            0 <= i < f.len() ==> ({
                let len = asked(node_at(nodes, #[trigger] f[i]).layout, axis);
                let s = slot(nodes, m, f[i], axis, main, cross, scale);
                &&& sharing(len) ==> value(sizes[i]) * t == r * share_of(value, len)
                &&& !sharing(len) ==> sizes[i] == s
            }),
    ensures
        sizes_sum(value, sizes, n) * t == value(
            fixed_total(nodes, m, f, axis, main, cross, scale, n),
        ) * t + r * shares_sum(value, nodes, f, axis, n),
    decreases n,
{
    fractions_are_exact(value);
    if n == 0 {
        assert(0real * t == 0real) by (nonlinear_arith);
        assert(r * 0real == 0real) by (nonlinear_arith);
    } else {
        let k = (n - 1) as nat;
        lengths_with_shares(value, nodes, m, f, axis, main, cross, scale, sizes, r, t, k);
        let c = f[n - 1];
        let len = asked(node_at(nodes, c).layout, axis);
        let (a, x) = (sizes_sum(value, sizes, k), value(sizes[n - 1]));
        let v = value(fixed_total(nodes, m, f, axis, main, cross, scale, k));
        let (u, h) = (shares_sum(value, nodes, f, axis, k), share_of(value, len));
        if sharing(len) {
            assert((a + x) * t == v * t + r * (u + h)) by (nonlinear_arith)
                requires
                    a * t == v * t + r * u,
                    x * t == r * h,
            ;
        } else {
            assert((a + x) * t == (v + x) * t + r * (u + h)) by (nonlinear_arith)
                requires
                    a * t == v * t + r * u,
                    h == 0real,
            ;
        }
    }
}

/// Flow children that ask for shares have lengths in the proportion of their
/// shares.
pub proof fn shares_are_proportional<N: Num, M: Measurer<N>>(
    value: spec_fn(N) -> real,
    before: Seq<Option<Node<N>>>,
    after: Seq<Option<Node<N>>>,
    roots: Seq<NodeId>,
    m: &M,
    p: NodeId,
    scale: N,
    i: int,
    j: int,
)
    requires
        computes_exactly(value),
        forest(before, roots),
        live(before, p),
        all_placed(before, after, m, p, scale),
        0 <= i < flow(before, p).len(),
        0 <= j < flow(before, p).len(),
        roomy(value, before, after, p, scale, node_at(before, p).layout.axis),
        sensible(value, before, after, m, p, scale),
        ({
            let axis = node_at(before, p).layout.axis;
            &&& sharing(asked(node_at(before, flow(before, p)[i]).layout, axis))
            &&& sharing(asked(node_at(before, flow(before, p)[j]).layout, axis))
        }),
    ensures
        ({
            let axis = node_at(before, p).layout.axis;
            let (c, d) = (flow(before, p)[i], flow(before, p)[j]);
            let (x, y) = (
                edges(value, node_at(after, c).rect, axis),
                edges(value, node_at(after, d).rect, axis),
            );
            &&& (x.1 - x.0) * share_of(value, asked(node_at(before, d).layout, axis)) == (y.1
                - y.0) * share_of(value, asked(node_at(before, c).layout, axis))
            &&& 0real <= x.1 - x.0
        }),
{
    let r = shares_settle(value, before, after, roots, m, p, scale);
    let axis = node_at(before, p).layout.axis;
    let f = flow(before, p);
    let (c, d) = (f[i], f[j]);
    let (x, y) = (
        edges(value, node_at(after, c).rect, axis),
        edges(value, node_at(after, d).rect, axis),
    );
    let (a, b) = (x.1 - x.0, y.1 - y.0);
    let (u, v) = (
        share_of(value, asked(node_at(before, c).layout, axis)),
        share_of(value, asked(node_at(before, d).layout, axis)),
    );
    let t = shares_sum(value, before, f, axis, f.len());
    shares_add_up(value, before, f, axis, f.len());
    if t > 0real {
        assert(a * t == r * u);
        assert(b * t == r * v);
        assert((a * v - b * u) * t == 0real) by (nonlinear_arith)
            requires
                a * t == r * u,
                b * t == r * v,
        ;
        assert(a * v == b * u) by (nonlinear_arith)
            requires
                (a * v - b * u) * t == 0real,
                t > 0real,
        ;
        assert(a >= 0real) by (nonlinear_arith)
            requires
                a * t == r * u,
                r >= 0real,
                u >= 0real,
                t > 0real,
        ;
    } else {
        assert(0real * v == 0real && 0real * u == 0real) by (nonlinear_arith);
    }
}

/// Where a flow child asks for a share, the children fill the content box from
/// end to end. Only where the others are too long already do they reach beyond
/// it, and then a share comes to nothing.
pub proof fn shares_fill_the_line<N: Num, M: Measurer<N>>(
    value: spec_fn(N) -> real,
    before: Seq<Option<Node<N>>>,
    after: Seq<Option<Node<N>>>,
    roots: Seq<NodeId>,
    m: &M,
    p: NodeId,
    scale: N,
    j: int,
)
    requires
        computes_exactly(value),
        forest(before, roots),
        live(before, p),
        all_placed(before, after, m, p, scale),
        0 <= j < flow(before, p).len(),
        roomy(value, before, after, p, scale, node_at(before, p).layout.axis),
        sensible(value, before, after, m, p, scale),
        0real < share_of(
            value,
            asked(node_at(before, flow(before, p)[j]).layout, node_at(before, p).layout.axis),
        ),
    ensures
        ({
            let axis = node_at(before, p).layout.axis;
            let style = node_at(before, p).layout;
            let f = flow(before, p);
            let (lo, hi) = inner_edges(value, node_at(after, p).rect, style, scale, axis);
            let first = edges(value, node_at(after, f[0]).rect, axis);
            let last = edges(value, node_at(after, f.last()).rect, axis);
            let here = edges(value, node_at(after, f[j]).rect, axis);
            &&& first.0 == lo
            &&& hi <= last.1
            &&& hi < last.1 ==> here.0 == here.1
        }),
{
    let r = shares_settle(value, before, after, roots, m, p, scale);
    let style = node_at(before, p).layout;
    let axis = style.axis;
    let f = flow(before, p);
    let n = f.len();
    let t = shares_sum(value, before, f, axis, n);
    shares_add_up(value, before, f, axis, n);
    let rest = spare(value, before, after, p, scale);
    let c = f[j];
    let e = edges(value, node_at(after, c).rect, axis);
    let u = share_of(value, asked(node_at(before, c).layout, axis));
    assert(t > 0real);
    children_are_justified(value, before, after, roots, m, p, scale, 0);
    if rest < 0real {
        let a = e.1 - e.0;
        assert(a * t == r * u);
        assert(a == 0real) by (nonlinear_arith)
            requires
                a * t == r * u,
                r == 0real,
                t > 0real,
        ;
    } else {
        nothing_spare(value, before, after, roots, m, p, scale);
    }
}

/// Where the children leave nothing of the content box, they lie from end to
/// end of it.
proof fn nothing_spare<N: Num, M: Measurer<N>>(
    value: spec_fn(N) -> real,
    before: Seq<Option<Node<N>>>,
    after: Seq<Option<Node<N>>>,
    roots: Seq<NodeId>,
    m: &M,
    p: NodeId,
    scale: N,
)
    requires
        computes_exactly(value),
        forest(before, roots),
        live(before, p),
        all_placed(before, after, m, p, scale),
        flow(before, p).len() > 0,
        roomy(value, before, after, p, scale, node_at(before, p).layout.axis),
        spare(value, before, after, p, scale) == 0real,
    ensures
        extra_before(value, before, after, p, scale, 0) == 0real,
        extra_behind(value, before, after, p, scale) == 0real,
{
    let line = placed_spaces(value, before, after, roots, m, p, scale);
    let n = flow(before, p).len();
    spaces_of_a_line(value, node_at(before, p).layout.justify, line.slack, n);
    let b = value(line.between);
    assert(((n as real) - 1real) * b == 0real) by (nonlinear_arith)
        requires
            b == 0real,
    ;
}

/// What is laid out from a node down is laid out from each visible child of it
/// down.
pub proof fn placing_goes_all_the_way_down<N: Num, M: Measurer<N>>(
    before: Seq<Option<Node<N>>>,
    after: Seq<Option<Node<N>>>,
    m: &M,
    p: NodeId,
    c: NodeId,
    scale: N,
)
    requires
        live(before, p),
        live(before, c),
        node_at(before, c).parent == Some(p),
        node_at(before, c).visible,
        p.index < c.index,
        all_placed(before, after, m, p, scale),
    ensures
        all_placed(before, after, m, c, scale),
{
    assert forall|q: NodeId| #[trigger] shown_under(before, c, q) implies placed(
        before,
        after,
        m,
        q,
        scale,
    ) by {
        below_a_child(before, p, c, q);
    }
}

proof fn below_a_child<N>(nodes: Seq<Option<Node<N>>>, p: NodeId, c: NodeId, q: NodeId)
    requires
        live(nodes, p),
        live(nodes, c),
        node_at(nodes, c).parent == Some(p),
        node_at(nodes, c).visible,
        p.index < c.index,
        shown_under(nodes, c, q),
    ensures
        shown_under(nodes, p, q),
    decreases q.index,
{
    assert(shown_under(nodes, p, p));
    assert(shown_under(nodes, p, c));
    if q != c {
        below_a_child(nodes, p, c, node_at(nodes, q).parent->0);
    }
}

/// The flow children of a node are its visible children without an offset of
/// their own, in their order; the others that are visible come after them in
/// the order in which children are shown.
pub proof fn children_are_told_apart<N>(nodes: Seq<Option<Node<N>>>, p: NodeId)
    ensures
        flow(nodes, p) == node_at(nodes, p).children@.filter(
            |c: NodeId|
                live(nodes, c) && node_at(nodes, c).visible && node_at(nodes, c).layout.abs is None,
        ),
        shown(nodes, p) == flow(nodes, p) + node_at(nodes, p).children@.filter(
            |c: NodeId|
                live(nodes, c) && node_at(nodes, c).visible && node_at(nodes, c).layout.abs is Some,
        ),
{
    let kids = node_at(nodes, p).children@;
    filtered_children(nodes, kids, kids.len());
    assert(kids.take(kids.len() as int) == kids);
}

proof fn filtered_children<N>(nodes: Seq<Option<Node<N>>>, kids: Seq<NodeId>, n: nat)
    requires
        n <= kids.len(),
    ensures
        flow_among(nodes, kids, n) == kids.take(n as int).filter(
            |c: NodeId|
                live(nodes, c) && node_at(nodes, c).visible && node_at(nodes, c).layout.abs is None,
        ),
        floating_among(nodes, kids, n) == kids.take(n as int).filter(
            |c: NodeId|
                live(nodes, c) && node_at(nodes, c).visible && node_at(nodes, c).layout.abs is Some,
        ),
    decreases n,
{
    reveal(Seq::filter);
    if n > 0 {
        filtered_children(nodes, kids, (n - 1) as nat);
        assert(kids.take(n as int).drop_last() == kids.take(n - 1));
    }
}

/// A child with an offset of its own has the length that it asks for on either
/// axis; a share is all of the content box. Its offset is counted from the near
/// edges of the content box, in logical pixels.
pub proof fn floating_children_have_their_size<N: Num, M: Measurer<N>>(
    value: spec_fn(N) -> real,
    before: Seq<Option<Node<N>>>,
    after: Seq<Option<Node<N>>>,
    m: &M,
    p: NodeId,
    scale: N,
    i: int,
    axis: Axis,
)
    requires
        computes_exactly(value),
        live(before, p),
        all_placed(before, after, m, p, scale),
        flow(before, p).len() <= i < shown(before, p).len(),
        roomy(value, before, after, p, scale, axis),
    ensures
        ({
            let c = shown(before, p)[i];
            let style = node_at(before, c).layout;
            let (lo, hi) = inner_edges(
                value,
                node_at(after, p).rect,
                node_at(before, p).layout,
                scale,
                axis,
            );
            let (near, far) = edges(value, node_at(after, c).rect, axis);
            let k: int = if axis is Row {
                0
            } else {
                1
            };
            &&& style.abs is Some ==> near == lo + value(style.abs->0[k]) * value(scale)
            &&& match asked(style, axis) {
                Len::Px(v) => far - near == value(v) * value(scale),
                Len::Pct(v) => far - near == value(v) * (hi - lo),
                Len::Fr(_) => far - near == hi - lo,
                Len::Fill => far - near == hi - lo,
                Len::Auto => exists|room: N|
                    far - near == value(#[trigger] intrinsic(before, m, c, axis, room, scale)) && (
                    roomy(value, before, after, p, scale, other(axis)) ==> value(room)
                        == inner_edges(
                        value,
                        node_at(after, p).rect,
                        node_at(before, p).layout,
                        scale,
                        other(axis),
                    ).1 - inner_edges(
                        value,
                        node_at(after, p).rect,
                        node_at(before, p).layout,
                        scale,
                        other(axis),
                    ).0),
            }
        }),
{
    fractions_are_exact(value);
    assert(shown_under(before, p, p));
    assert(placed(before, after, m, p, scale));
    let c = shown(before, p)[i];
    let b = content_box(node_at(after, p).rect, node_at(before, p).layout, scale);
    assert(node_at(after, c).rect == child_rect(before, m, p, node_at(after, p).rect, scale, i));
    let (x, y) = (
        intrinsic(before, m, c, Axis::Row, b[3], scale),
        intrinsic(before, m, c, Axis::Col, b[2], scale),
    );
}

/// A root lies at the origin, or at its offset in logical pixels. It has the
/// length that it asks for on either axis; a share is all of the viewport.
pub proof fn roots_are_placed_in_the_viewport<N: Num, M: Measurer<N>>(
    value: spec_fn(N) -> real,
    before: Seq<Option<Node<N>>>,
    after: Seq<Option<Node<N>>>,
    roots: Seq<NodeId>,
    m: &M,
    viewport: [N; 2],
    scale: N,
    r: int,
    axis: Axis,
)
    requires
        computes_exactly(value),
        laid_out(before, after, roots, m, viewport, scale),
        0 <= r < roots.len(),
        live(before, roots[r]),
        node_at(before, roots[r]).visible,
    ensures
        all_placed(before, after, m, roots[r], scale),
        ({
            let style = node_at(before, roots[r]).layout;
            let (near, far) = edges(value, node_at(after, roots[r]).rect, axis);
            let k: int = if axis is Row {
                0
            } else {
                1
            };
            &&& near == (if style.abs is Some {
                value(style.abs->0[k]) * value(scale)
            } else {
                0real
            })
            &&& match asked(style, axis) {
                Len::Px(v) => far - near == value(v) * value(scale),
                Len::Pct(v) => far - near == value(v) * value(viewport[k]),
                Len::Fr(_) => far - near == value(viewport[k]),
                Len::Fill => far - near == value(viewport[k]),
                Len::Auto => far - near == value(
                    intrinsic(before, m, roots[r], axis, viewport[k], scale),
                ),
            }
        }),
{
    fractions_are_exact(value);
    assert(root_laid_out(before, after, m, roots[r], viewport, scale));
}

/// The content of a container reaches from its near edge to the far edge of its
/// farthest visible child, with the padding behind it: no child reaches
/// farther, and where the content is larger than the padding, some child
/// reaches as far. The content of a list whose rows are made as needed is as
/// high as all its rows.
pub proof fn content_reaches_the_farthest_child<N: Num, M: Measurer<N>>(
    value: spec_fn(N) -> real,
    before: Seq<Option<Node<N>>>,
    after: Seq<Option<Node<N>>>,
    m: &M,
    p: NodeId,
    scale: N,
    axis: Axis,
)
    requires
        computes_exactly(value),
        live(before, p),
        all_placed(before, after, m, p, scale),
    ensures
        ({
            let k: int = if axis is Row {
                0
            } else {
                1
            };
            let rect = node_at(after, p).rect;
            let pad = node_at(before, p).layout.padding;
            let s = value(scale);
            let end = value(rect[k]) + value(node_at(after, p).content_size[k]);
            let behind = value(pad[k + 2]) * s;
            if axis is Col && node_at(before, p).lazy_list is Some {
                value(node_at(after, p).content_size[k]) == value(
                    node_at(before, p).lazy_list->0.total_height(),
                ) * s
            } else {
                &&& value(rect[k]) + value(pad[k]) * s + behind <= end
                &&& forall|i: int|
                    0 <= i < shown(before, p).len() ==> edges(
                        value,
                        node_at(after, #[trigger] shown(before, p)[i]).rect,
                        axis,
                    ).1 + behind <= end
                &&& value(rect[k]) + value(pad[k]) * s + behind < end ==> exists|i: int|
                    0 <= i < shown(before, p).len() && edges(
                        value,
                        node_at(after, #[trigger] shown(before, p)[i]).rect,
                        axis,
                    ).1 + behind == end
            }
        }),
{
    fractions_are_exact(value);
    assert(shown_under(before, p, p));
    assert(placed(before, after, m, p, scale));
    farthest_is_far(value, before, after, m, p, scale, shown(before, p).len());
}

proof fn farthest_is_far<N: Num, M: Measurer<N>>(
    value: spec_fn(N) -> real,
    before: Seq<Option<Node<N>>>,
    after: Seq<Option<Node<N>>>,
    m: &M,
    p: NodeId,
    scale: N,
    n: nat,
)
    requires
        computes_exactly(value),
        placed(before, after, m, p, scale),
        n <= shown(before, p).len(),
    ensures
        ({
            let rect = node_at(after, p).rect;
            let far = reach(before, m, p, rect, scale, n);
            let pad = node_at(before, p).layout.padding;
            let (x, y) = (
                value(rect[0]) + value(pad[0]) * value(scale),
                value(rect[1]) + value(pad[1]) * value(scale),
            );
            &&& x <= value(far[0])
            &&& y <= value(far[1])
            &&& forall|i: int|
                0 <= i < n ==> ({
                    let c = #[trigger] shown(before, p)[i];
                    &&& edges(value, node_at(after, c).rect, Axis::Row).1 <= value(far[0])
                    &&& edges(value, node_at(after, c).rect, Axis::Col).1 <= value(far[1])
                })
            &&& x < value(far[0]) ==> exists|i: int|
                0 <= i < n && edges(
                    value,
                    node_at(after, #[trigger] shown(before, p)[i]).rect,
                    Axis::Row,
                ).1 == value(far[0])
            &&& y < value(far[1]) ==> exists|i: int|
                0 <= i < n && edges(
                    value,
                    node_at(after, #[trigger] shown(before, p)[i]).rect,
                    Axis::Col,
                ).1 == value(far[1])
        }),
    decreases n,
{
    fractions_are_exact(value);
    if n > 0 {
        farthest_is_far(value, before, after, m, p, scale, (n - 1) as nat);
        let c = shown(before, p)[n - 1];
        let rect = node_at(after, p).rect;
        assert(node_at(after, c).rect == child_rect(before, m, p, rect, scale, n - 1));
        let old_far = reach(before, m, p, rect, scale, (n - 1) as nat);
        let far = reach(before, m, p, rect, scale, n);
        let r = node_at(after, c).rect;
        assert(value(far[0]) == if value(old_far[0]) < value(r[0]) + value(r[2]) {
            value(r[0]) + value(r[2])
        } else {
            value(old_far[0])
        });
        assert(value(far[1]) == if value(old_far[1]) < value(r[1]) + value(r[3]) {
            value(r[1]) + value(r[3])
        } else {
            value(old_far[1])
        });
    }
}

/// Layout brings a container that was scrolled too far back to the end of its
/// content, and leaves one that was not where it is. One that may leave its
/// content is left alone.
pub proof fn scrolling_is_kept_to_the_content<N: Num, M: Measurer<N>>(
    value: spec_fn(N) -> real,
    before: Seq<Option<Node<N>>>,
    after: Seq<Option<Node<N>>>,
    m: &M,
    p: NodeId,
    scale: N,
    k: int,
)
    requires
        computes_exactly(value),
        live(before, p),
        all_placed(before, after, m, p, scale),
        node_at(before, p).scroll is Some,
        k == 0 || k == 1,
    ensures
        ({
            let n = node_at(after, p);
            let (s, t) = (node_at(before, p).scroll->0, n.scroll->0);
            let over = value(n.content_size[k]) - value(n.rect[k + 2]);
            let (a, b) = (value(s.target[k]), value(t.target[k]));
            let (c, d) = (value(s.current[k]), value(t.current[k]));
            &&& n.scroll is Some
            &&& t.scale == scale
            &&& t.bar_active == s.bar_active && t.bar_hover == s.bar_hover
            &&& t.overscroll == s.overscroll && t.snap_step == s.snap_step
            &&& s.overscroll ==> a == b && c == d
            &&& !s.overscroll ==> {
                &&& 0real <= b && (b <= over || b == 0real)
                &&& 0real <= a <= over ==> b == a
                &&& a < 0real ==> b == 0real
                &&& 0real <= over < a ==> b == over
                &&& 0real <= d && (d <= over || d == 0real)
                &&& 0real <= c <= over ==> d == c
                &&& c < 0real ==> d == 0real
                &&& 0real <= over < c ==> d == over
            }
        }),
{
    fractions_are_exact(value);
    assert(shown_under(before, p, p));
    assert(placed(before, after, m, p, scale));
}

/// A text is as large as it is measured, at its font size and line height in
/// physical pixels, and within its largest width where it has one.
pub proof fn texts_are_as_large_as_measured<N: Num, M: Measurer<N>>(
    nodes: Seq<Option<Node<N>>>,
    m: &M,
    id: NodeId,
    axis: Axis,
    avail: N,
    scale: N,
)
    requires
        live(nodes, id),
        node_at(nodes, id).visible,
        node_at(nodes, id).text is Some,
    ensures
        ({
            let t = node_at(nodes, id).text->0;
            let k: int = if axis is Row {
                0
            } else {
                1
            };
            intrinsic(nodes, m, id, axis, avail, scale) == match t.max_width {
                Some(w) => m.text_size_within(
                    t.content@,
                    t.font_size.product(scale),
                    t.line_height.product(scale),
                    w.product(scale),
                )[k],
                None => m.text_size(
                    t.content@,
                    t.font_size.product(scale),
                    t.line_height.product(scale),
                )[k],
            }
        }),
{
}

/// Flow children are listed after their parent.
proof fn flow_child_after<N>(
    nodes: Seq<Option<Node<N>>>,
    roots: Seq<NodeId>,
    p: NodeId,
    i: int,
)
    requires
        forest(nodes, roots),
        live(nodes, p),
        0 <= i < flow(nodes, p).len(),
    ensures
        live(nodes, flow(nodes, p)[i]),
        node_at(nodes, flow(nodes, p)[i]).visible,
        p.index < flow(nodes, p)[i].index,
{
    let kids = node_at(nodes, p).children@;
    flow_member(nodes, kids, kids.len(), i);
    let k = choose|k: int| 0 <= k < kids.len() && #[trigger] kids[k] == flow(nodes, p)[i];
    forest_child(nodes, roots, p, k);
}

/// The flow children of `p` ask for lengths of their own along `axis`: pixels,
/// or the size of their content, whatever room there is.
pub open spec fn self_sized<N: Num, M: Measurer<N>>(
    nodes: Seq<Option<Node<N>>>,
    m: &M,
    p: NodeId,
    axis: Axis,
    scale: N,
) -> bool {
    forall|k: int|
        0 <= k < flow(nodes, p).len() ==> match asked(
            node_at(nodes, #[trigger] flow(nodes, p)[k]).layout,
            axis,
        ) {
            Len::Px(_) => true,
            Len::Auto => forall|a: N, b: N|
                intrinsic(nodes, m, flow(nodes, p)[k], axis, a, scale) == intrinsic(
                    nodes,
                    m,
                    flow(nodes, p)[k],
                    axis,
                    b,
                    scale,
                ),
            _ => false,
        }
}

/// A container that is as long as its content along its main axis is filled
/// from end to end by its flow children.
pub proof fn containers_wrap_their_children<N: Num, M: Measurer<N>>(
    value: spec_fn(N) -> real,
    before: Seq<Option<Node<N>>>,
    after: Seq<Option<Node<N>>>,
    roots: Seq<NodeId>,
    m: &M,
    p: NodeId,
    scale: N,
    avail: N,
)
    requires
        computes_exactly(value),
        forest(before, roots),
        live(before, p),
        node_at(before, p).visible,
        node_at(before, p).text is None,
        all_placed(before, after, m, p, scale),
        flow(before, p).len() > 0,
        roomy(value, before, after, p, scale, node_at(before, p).layout.axis),
        sensible(value, before, after, m, p, scale),
        self_sized(before, m, p, node_at(before, p).layout.axis, scale),
        ({
            let axis = node_at(before, p).layout.axis;
            let (near, far) = edges(value, node_at(after, p).rect, axis);
            far - near == value(intrinsic(before, m, p, axis, avail, scale))
        }),
    ensures
        ({
            let style = node_at(before, p).layout;
            let axis = style.axis;
            let f = flow(before, p);
            let (lo, hi) = inner_edges(value, node_at(after, p).rect, style, scale, axis);
            &&& edges(value, node_at(after, f[0]).rect, axis).0 == lo
            &&& edges(value, node_at(after, f.last()).rect, axis).1 == hi
        }),
{
    fractions_are_exact(value);
    let style = node_at(before, p).layout;
    let axis = style.axis;
    let f = flow(before, p);
    let n = f.len();
    let line = placed_line(value, before, after, roots, m, p, scale);
    items_are_lengths(value, before, after, roots, m, p, scale, avail, n);
    let g = value(style.gap) * value(scale);
    if n > 1 {
        assert(value(N::natural((n - 1) as u64)) == (n - 1) as real);
        assert(g * ((n - 1) as real) == ((n - 1) as real) * g) by (nonlinear_arith);
    } else {
        assert(((n - 1) as real) * g == 0real) by (nonlinear_arith)
            requires
                ((n - 1) as real) == 0real,
        ;
    }
    let (a, b, s) = if axis is Row {
        (value(style.padding[0]), value(style.padding[2]), value(scale))
    } else {
        (value(style.padding[1]), value(style.padding[3]), value(scale))
    };
    assert((a + b) * s == a * s + b * s) by (nonlinear_arith);
    nothing_spare(value, before, after, roots, m, p, scale);
}

proof fn items_are_lengths<N: Num, M: Measurer<N>>(
    value: spec_fn(N) -> real,
    before: Seq<Option<Node<N>>>,
    after: Seq<Option<Node<N>>>,
    roots: Seq<NodeId>,
    m: &M,
    p: NodeId,
    scale: N,
    avail: N,
    n: nat,
)
    requires
        computes_exactly(value),
        forest(before, roots),
        live(before, p),
        all_placed(before, after, m, p, scale),
        n <= flow(before, p).len(),
        roomy(value, before, after, p, scale, node_at(before, p).layout.axis),
        sensible(value, before, after, m, p, scale),
        self_sized(before, m, p, node_at(before, p).layout.axis, scale),
    ensures
        ({
            let axis = node_at(before, p).layout.axis;
            let f = flow(before, p);
            value(items_sum(before, m, p, f, n, axis, avail, scale)) == lengths(
                value,
                after,
                f,
                axis,
                n,
            )
        }),
    decreases n,
{
    fractions_are_exact(value);
    if n > 0 {
        let axis = node_at(before, p).layout.axis;
        let f = flow(before, p);
        items_are_lengths(value, before, after, roots, m, p, scale, avail, (n - 1) as nat);
        children_have_their_size_along(value, before, after, roots, m, p, scale, n - 1);
        flow_child_after(before, roots, p, n - 1);
        let c = f[n - 1];
        let e = edges(value, node_at(after, c).rect, axis);
        let item = item_extent(before, m, p, c, axis, avail, scale);
        assert(items_sum(before, m, p, f, n, axis, avail, scale) == items_sum(
            before,
            m,
            p,
            f,
            (n - 1) as nat,
            axis,
            avail,
            scale,
        ).sum(item));
        if asked(node_at(before, c).layout, axis) is Auto {
            let room = choose|room: N|
                e.1 - e.0 == value(#[trigger] intrinsic(before, m, c, axis, room, scale));
            assert(intrinsic(before, m, c, axis, room, scale) == intrinsic(
                before,
                m,
                c,
                axis,
                avail,
                scale,
            ));
            assert(item == intrinsic(before, m, c, axis, avail, scale));
        }
        assert(value(item) == e.1 - e.0);
    }
}

/// A container that is as long as its content across its main axis holds all
/// its flow children, and its largest child fills it.
pub proof fn containers_wrap_their_largest_child<N: Num, M: Measurer<N>>(
    value: spec_fn(N) -> real,
    before: Seq<Option<Node<N>>>,
    after: Seq<Option<Node<N>>>,
    roots: Seq<NodeId>,
    m: &M,
    p: NodeId,
    scale: N,
    avail: N,
)
    requires
        computes_exactly(value),
        forest(before, roots),
        live(before, p),
        node_at(before, p).visible,
        node_at(before, p).text is None,
        all_placed(before, after, m, p, scale),
        flow(before, p).len() > 0,
        roomy(value, before, after, p, scale, other(node_at(before, p).layout.axis)),
        self_sized(before, m, p, other(node_at(before, p).layout.axis), scale),
        ({
            let axis = other(node_at(before, p).layout.axis);
            let (near, far) = edges(value, node_at(after, p).rect, axis);
            far - near == value(intrinsic(before, m, p, axis, avail, scale))
        }),
    ensures
        ({
            let style = node_at(before, p).layout;
            let axis = other(style.axis);
            let f = flow(before, p);
            let (lo, hi) = inner_edges(value, node_at(after, p).rect, style, scale, axis);
            &&& forall|i: int|
                0 <= i < f.len() ==> {
                    let e = edges(value, node_at(after, #[trigger] f[i]).rect, axis);
                    lo <= e.0 && e.1 <= hi
                }
            &&& lo < hi ==> exists|i: int|
                0 <= i < f.len() && edges(value, node_at(after, #[trigger] f[i]).rect, axis) == (
                    lo,
                    hi,
                )
        }),
{
    fractions_are_exact(value);
    let style = node_at(before, p).layout;
    let axis = other(style.axis);
    let f = flow(before, p);
    let n = f.len();
    let (lo, hi) = inner_edges(value, node_at(after, p).rect, style, scale, axis);
    largest_item(value, before, m, p, f, n, axis, avail, scale);
    let best = value(items_max(before, m, p, f, n, axis, avail, scale));
    let (a, b, s) = if axis is Row {
        (value(style.padding[0]), value(style.padding[2]), value(scale))
    } else {
        (value(style.padding[1]), value(style.padding[3]), value(scale))
    };
    assert((a + b) * s == a * s + b * s) by (nonlinear_arith);
    assert(hi - lo == best);
    assert forall|i: int| 0 <= i < n implies ({
        let e = edges(value, node_at(after, #[trigger] f[i]).rect, axis);
        &&& lo <= e.0 && e.1 <= hi
        &&& value(item_extent(before, m, p, f[i], axis, avail, scale)) == hi - lo ==> e == (lo, hi)
    }) by {
        let c = f[i];
        children_are_aligned(value, before, after, m, p, scale, i);
        children_have_their_size_across(value, before, after, m, p, scale, i);
        flow_child_after(before, roots, p, i);
        let e = edges(value, node_at(after, c).rect, axis);
        let x = value(item_extent(before, m, p, c, axis, avail, scale));
        assert(x <= best);
        if asked(node_at(before, c).layout, axis) is Auto && !(style.align is Stretch) {
            let room = choose|room: N|
                value(room) == hi - lo && e.1 - e.0 == value(
                    #[trigger] intrinsic(before, m, c, axis, room, scale),
                );
            assert(intrinsic(before, m, c, axis, room, scale) == intrinsic(
                before,
                m,
                c,
                axis,
                avail,
                scale,
            ));
        }
    }
}

proof fn largest_item<N: Num, M: Measurer<N>>(
    value: spec_fn(N) -> real,
    nodes: Seq<Option<Node<N>>>,
    m: &M,
    p: NodeId,
    f: Seq<NodeId>,
    n: nat,
    axis: Axis,
    avail: N,
    scale: N,
)
    requires
        computes_exactly(value),
        n <= f.len(),
    ensures
        ({
            let best = value(items_max(nodes, m, p, f, n, axis, avail, scale));
            &&& 0real <= best
            &&& forall|i: int|
                0 <= i < n ==> value(
                    item_extent(nodes, m, p, #[trigger] f[i], axis, avail, scale),
                ) <= best
            &&& 0real < best ==> exists|i: int|
                0 <= i < n && value(item_extent(nodes, m, p, #[trigger] f[i], axis, avail, scale))
                    == best
        }),
    decreases n,
{
    fractions_are_exact(value);
    if n > 0 {
        largest_item(value, nodes, m, p, f, (n - 1) as nat, axis, avail, scale);
        let c = f[n - 1];
    }
}

/// What a node with one flow child comes to along an axis, without a text: what
/// the child asks for, with the padding. A share of what remains comes to
/// nothing, and a percentage is of the room there is. What is hidden takes no
/// room.
pub proof fn a_lone_child_makes_the_content<N: Num, M: Measurer<N>>(
    value: spec_fn(N) -> real,
    nodes: Seq<Option<Node<N>>>,
    roots: Seq<NodeId>,
    m: &M,
    p: NodeId,
    axis: Axis,
    avail: N,
    scale: N,
)
    requires
        computes_exactly(value),
        forest(nodes, roots),
        live(nodes, p),
        node_at(nodes, p).text is None,
        flow(nodes, p).len() == 1,
    ensures
        ({
            let style = node_at(nodes, p).layout;
            let c = flow(nodes, p)[0];
            let k: int = if axis is Row {
                0
            } else {
                1
            };
            let pad = (value(style.padding[k]) + value(style.padding[k + 2])) * value(scale);
            let inside = value(intrinsic(nodes, m, p, axis, avail, scale)) - pad;
            let asks = match asked(node_at(nodes, c).layout, axis) {
                Len::Px(v) => value(v) * value(scale),
                Len::Pct(v) => value(v) * value(avail),
                Len::Fr(_) => 0real,
                Len::Fill => 0real,
                Len::Auto => value(intrinsic(nodes, m, c, axis, avail, scale)),
            };
            &&& node_at(nodes, p).visible && style.axis == axis ==> inside == asks
            &&& node_at(nodes, p).visible && style.axis != axis ==> inside == (if asks < 0real {
                0real
            } else {
                asks
            })
            &&& !node_at(nodes, p).visible ==> value(intrinsic(nodes, m, p, axis, avail, scale))
                == 0real
        }),
{
    fractions_are_exact(value);
    flow_child_after(nodes, roots, p, 0);
    let f = flow(nodes, p);
    let c = f[0];
    let item = item_extent(nodes, m, p, c, axis, avail, scale);
    let none: nat = 0;
    let lone: nat = 1;
    assert(items_sum(nodes, m, p, f, none, axis, avail, scale) == zero::<N>());
    assert(items_sum(nodes, m, p, f, lone, axis, avail, scale) == zero::<N>().sum(item));
    assert(items_max(nodes, m, p, f, none, axis, avail, scale) == zero::<N>());
    assert(items_max(nodes, m, p, f, lone, axis, avail, scale) == (if zero::<N>().below(item) {
        item
    } else {
        zero()
    }));
    if asked(node_at(nodes, c).layout, axis) is Auto {
        assert(item == intrinsic(nodes, m, c, axis, avail, scale));
    }
}

} // verus!
