//! Layout of a whole tree.
//!
//! Every visible node below a visible root gets the rectangle that its
//! parent's layout gives it, from the roots down. Nothing else is touched:
//! not the properties that layout reads, and not a hidden subtree.
use vstd::prelude::*;

use crate::layout::intrinsic::{
    content_extent, flow, flow_among, intrinsic, intrinsic_main_from_node, item_extent, items_max,
    items_sum,
};
use crate::layout::line::{crossing, first_pushed, fixed_total, line_of, shares_total};
use crate::layout::measure::Measurer;
use crate::layout::place::{
    child_rect, child_rects, content_box, content_extent_of, content_size_of, floating,
    floating_among, on_axis, off_axis, reach, reclamp, rescrolled, shown, shown_complete,
    shown_distinct, shown_member, Placement,
};
use crate::layout::style::{Axis, Len};
use crate::node::tree::{
    child_ok, forest, forest_child, forest_parent, forest_root, forest_size, live, node_at, Node,
    NodeTree, ScrollState,
};
use crate::node::NodeId;
use crate::num::{zero, Num};

verus! {

/// Two trees that layout cannot tell apart: only rectangles, content extents
/// and scroll states differ.
#[verifier::opaque]
pub open spec fn same_inputs<N>(a: Seq<Option<Node<N>>>, b: Seq<Option<Node<N>>>) -> bool {
    &&& a.len() == b.len()
    &&& forall|i: int|
        #![trigger a[i]]
        #![trigger b[i]]
        0 <= i < a.len() ==> match (a[i], b[i]) {
            (Some(x), Some(y)) => y == (Node {
                rect: y.rect,
                content_size: y.content_size,
                scroll: y.scroll,
                ..x
            }),
            (None, None) => true,
            _ => false,
        }
}

/// A node below `a`, itself included, with no hidden node on the way.
pub open spec fn shown_under<N>(nodes: Seq<Option<Node<N>>>, a: NodeId, d: NodeId) -> bool
    decreases d.index,
{
    live(nodes, d) && (d == a || (node_at(nodes, d).visible && match node_at(nodes, d).parent {
        Some(p) => p.index < d.index && shown_under(nodes, a, p),
        None => false,
    }))
}

/// The visible children of `q` have the rectangles that it gives them, and
/// its content extent and scroll state follow from those.
pub open spec fn placed<N: Num, M: Measurer<N>>(
    before: Seq<Option<Node<N>>>,
    after: Seq<Option<Node<N>>>,
    m: &M,
    q: NodeId,
    scale: N,
) -> bool {
    let rect = node_at(after, q).rect;
    let content = content_size_of(before, m, q, rect, scale);
    &&& forall|i: int|
        0 <= i < shown(before, q).len() ==> node_at(after, #[trigger] shown(before, q)[i]).rect
            == child_rect(before, m, q, rect, scale, i)
    &&& node_at(after, q).content_size == content
    &&& node_at(after, q).scroll == rescrolled(node_at(before, q).scroll, content, rect, scale)
}

/// Everything shown below `a` is placed.
pub open spec fn all_placed<N: Num, M: Measurer<N>>(
    before: Seq<Option<Node<N>>>,
    after: Seq<Option<Node<N>>>,
    m: &M,
    a: NodeId,
    scale: N,
) -> bool {
    forall|q: NodeId| #[trigger] shown_under(before, a, q) ==> placed(before, after, m, q, scale)
}

/// The node is not shown below any of the first `n` of `tops`.
pub open spec fn clear_of<N>(
    nodes: Seq<Option<Node<N>>>,
    tops: Seq<NodeId>,
    n: int,
    d: NodeId,
) -> bool {
    forall|j: int| 0 <= j < n ==> !shown_under(nodes, #[trigger] tops[j], d)
}

proof fn inputs_live<N>(a: Seq<Option<Node<N>>>, b: Seq<Option<Node<N>>>, id: NodeId)
    requires
        same_inputs(a, b),
    ensures
        a.len() == b.len(),
        live(a, id) == live(b, id),
        live(a, id) ==> node_at(b, id) == (Node {
            rect: node_at(b, id).rect,
            content_size: node_at(b, id).content_size,
            scroll: node_at(b, id).scroll,
            ..node_at(a, id)
        }),
{
    reveal(same_inputs);
    if id.index < a.len() {
        assert(a[id.index as int] is Some == b[id.index as int] is Some);
    }
}

proof fn inputs_refl<N>(a: Seq<Option<Node<N>>>)
    ensures
        same_inputs(a, a),
{
    reveal(same_inputs);
}

proof fn inputs_trans<N>(
    a: Seq<Option<Node<N>>>,
    b: Seq<Option<Node<N>>>,
    c: Seq<Option<Node<N>>>,
)
    requires
        same_inputs(a, b),
        same_inputs(b, c),
    ensures
        same_inputs(a, c),
        a.len() == c.len(),
{
    reveal(same_inputs);
    assert forall|i: int|
        #![trigger a[i]]
        #![trigger c[i]]
        0 <= i < a.len() implies match (a[i], c[i]) {
        (Some(x), Some(y)) => y == (Node {
            rect: y.rect,
            content_size: y.content_size,
            scroll: y.scroll,
            ..x
        }),
        (None, None) => true,
        _ => false,
    } by {
        assert(b[i] is Some == a[i] is Some);
        assert(c[i] is Some == b[i] is Some);
    }
}

proof fn inputs_set_rect<N>(a: Seq<Option<Node<N>>>, id: NodeId, rect: [N; 4])
    requires
        live(a, id),
    ensures
        same_inputs(a, a.update(id.index as int, Some(Node { rect, ..node_at(a, id) }))),
{
    reveal(same_inputs);
}

proof fn inputs_set_extent<N>(
    a: Seq<Option<Node<N>>>,
    id: NodeId,
    content_size: [N; 2],
    scroll: Option<ScrollState<N>>,
)
    requires
        live(a, id),
    ensures
        same_inputs(
            a,
            a.update(id.index as int, Some(Node { content_size, scroll, ..node_at(a, id) })),
        ),
{
    reveal(same_inputs);
}

proof fn inputs_forest<N>(
    a: Seq<Option<Node<N>>>,
    b: Seq<Option<Node<N>>>,
    roots: Seq<NodeId>,
)
    requires
        same_inputs(a, b),
        forest(a, roots),
    ensures
        forest(b, roots),
{
    assert forall|p: NodeId, k: int|
        #![trigger node_at(b, p).children@[k]]
        live(b, p) && 0 <= k < node_at(b, p).children@.len() implies child_ok(b, p, k) by {
        inputs_live(a, b, p);
        forest_child(a, roots, p, k);
        inputs_live(a, b, node_at(a, p).children@[k]);
    }
    assert forall|p: NodeId| #[trigger] live(b, p) implies node_at(
        b,
        p,
    ).children@.no_duplicates() by {
        inputs_live(a, b, p);
        forest_parent(a, roots, p);
    }
    assert forall|c: NodeId| #[trigger] live(b, c) implies match node_at(b, c).parent {
        Some(p) => live(b, p) && p.index < c.index && node_at(b, p).children@.contains(c),
        None => roots.contains(c),
    } by {
        inputs_live(a, b, c);
        forest_parent(a, roots, c);
        match node_at(a, c).parent {
            Some(p) => {
                inputs_live(a, b, p);
            },
            None => {},
        }
    }
    assert forall|k: int| 0 <= k < roots.len() implies live(b, #[trigger] roots[k]) && node_at(
        b,
        roots[k],
    ).parent is None by {
        forest_root(a, roots, k);
        inputs_live(a, b, roots[k]);
    }
    forest_size(a, roots);
    assert(a.len() == b.len() && roots.no_duplicates()) by {
        reveal(same_inputs);
        reveal(forest);
    }
    reveal(forest);
}

proof fn inputs_among<N>(
    a: Seq<Option<Node<N>>>,
    b: Seq<Option<Node<N>>>,
    kids: Seq<NodeId>,
    n: nat,
)
    requires
        same_inputs(a, b),
        n <= kids.len(),
    ensures
        flow_among(a, kids, n) == flow_among(b, kids, n),
        floating_among(a, kids, n) == floating_among(b, kids, n),
    decreases n,
{
    if n > 0 {
        inputs_among(a, b, kids, (n - 1) as nat);
        inputs_live(a, b, kids[n - 1]);
    }
}

proof fn inputs_children<N>(a: Seq<Option<Node<N>>>, b: Seq<Option<Node<N>>>, p: NodeId)
    requires
        same_inputs(a, b),
        live(a, p),
    ensures
        flow(a, p) == flow(b, p),
        floating(a, p) == floating(b, p),
        shown(a, p) == shown(b, p),
{
    inputs_live(a, b, p);
    inputs_among(a, b, node_at(a, p).children@, node_at(a, p).children@.len());
}

proof fn inputs_content_extent<N: Num, M: Measurer<N>>(
    a: Seq<Option<Node<N>>>,
    b: Seq<Option<Node<N>>>,
    m: &M,
    id: NodeId,
    probe: Axis,
    avail: N,
    scale: N,
)
    requires
        same_inputs(a, b),
    ensures
        content_extent(a, m, id, probe, avail, scale) == content_extent(
            b,
            m,
            id,
            probe,
            avail,
            scale,
        ),
    decreases a.len() - id.index, 1nat, 0nat,
{
    inputs_live(a, b, id);
    if live(a, id) {
        inputs_children(a, b, id);
        let f = flow(a, id);
        assert forall|i: int| 0 <= i < f.len() implies live(a, #[trigger] f[i]) by {
            let kids = node_at(a, id).children@;
            crate::layout::intrinsic::flow_member(a, kids, kids.len(), i);
        }
        inputs_items(a, b, m, id, f, f.len(), probe, avail, scale);
    }
}

proof fn inputs_items<N: Num, M: Measurer<N>>(
    a: Seq<Option<Node<N>>>,
    b: Seq<Option<Node<N>>>,
    m: &M,
    p: NodeId,
    f: Seq<NodeId>,
    n: nat,
    probe: Axis,
    avail: N,
    scale: N,
)
    requires
        same_inputs(a, b),
        live(a, p),
        n <= f.len(),
        forall|i: int| 0 <= i < f.len() ==> live(a, #[trigger] f[i]),
    ensures
        items_sum(a, m, p, f, n, probe, avail, scale) == items_sum(
            b,
            m,
            p,
            f,
            n,
            probe,
            avail,
            scale,
        ),
        items_max(a, m, p, f, n, probe, avail, scale) == items_max(
            b,
            m,
            p,
            f,
            n,
            probe,
            avail,
            scale,
        ),
    decreases a.len() - p.index, 0nat, n,
{
    if n > 0 {
        inputs_items(a, b, m, p, f, (n - 1) as nat, probe, avail, scale);
        let c = f[n - 1];
        inputs_live(a, b, c);
        if p.index < c.index {
            inputs_content_extent(a, b, m, c, probe, avail, scale);
        }
        assert(item_extent(a, m, p, c, probe, avail, scale) == item_extent(
            b,
            m,
            p,
            c,
            probe,
            avail,
            scale,
        ));
    }
}

proof fn inputs_intrinsic<N: Num, M: Measurer<N>>(
    a: Seq<Option<Node<N>>>,
    b: Seq<Option<Node<N>>>,
    m: &M,
    id: NodeId,
    probe: Axis,
    avail: N,
    scale: N,
)
    requires
        same_inputs(a, b),
    ensures
        intrinsic(a, m, id, probe, avail, scale) == intrinsic(b, m, id, probe, avail, scale),
{
    inputs_live(a, b, id);
    inputs_content_extent(a, b, m, id, probe, avail, scale);
}

proof fn inputs_totals<N: Num, M: Measurer<N>>(
    a: Seq<Option<Node<N>>>,
    b: Seq<Option<Node<N>>>,
    m: &M,
    f: Seq<NodeId>,
    axis: Axis,
    main: N,
    cross: N,
    scale: N,
    n: nat,
)
    requires
        same_inputs(a, b),
        n <= f.len(),
        forall|i: int| 0 <= i < f.len() ==> live(a, #[trigger] f[i]),
    ensures
        shares_total(a, f, axis, n) == shares_total(b, f, axis, n),
        fixed_total(a, m, f, axis, main, cross, scale, n) == fixed_total(
            b,
            m,
            f,
            axis,
            main,
            cross,
            scale,
            n,
        ),
    decreases n,
{
    if n > 0 {
        inputs_totals(a, b, m, f, axis, main, cross, scale, (n - 1) as nat);
        inputs_live(a, b, f[n - 1]);
        inputs_intrinsic(a, b, m, f[n - 1], axis, cross, scale);
    }
}

proof fn inputs_pushed<N>(
    a: Seq<Option<Node<N>>>,
    b: Seq<Option<Node<N>>>,
    f: Seq<NodeId>,
    i: nat,
)
    requires
        same_inputs(a, b),
        forall|k: int| 0 <= k < f.len() ==> live(a, #[trigger] f[k]),
    ensures
        first_pushed(a, f, i) == first_pushed(b, f, i),
    decreases f.len() - i,
{
    if i < f.len() {
        inputs_live(a, b, f[i as int]);
        inputs_pushed(a, b, f, i + 1);
    }
}

/// The rectangle of a child follows from what layout reads and from the
/// rectangle of its parent.
proof fn inputs_child_rect<N: Num, M: Measurer<N>>(
    a: Seq<Option<Node<N>>>,
    b: Seq<Option<Node<N>>>,
    m: &M,
    p: NodeId,
    rect: [N; 4],
    scale: N,
    i: int,
)
    requires
        same_inputs(a, b),
        live(a, p),
        0 <= i < shown(a, p).len(),
    ensures
        child_rect(a, m, p, rect, scale, i) == child_rect(b, m, p, rect, scale, i),
{
    inputs_live(a, b, p);
    inputs_children(a, b, p);
    let style = node_at(a, p).layout;
    let f = flow(a, p);
    let kids = node_at(a, p).children@;
    let bx = content_box(rect, style, scale);
    let (origin, main) = on_axis(style.axis, bx);
    let (cross_origin, cross) = off_axis(style.axis, bx);
    assert forall|k: int| 0 <= k < f.len() implies live(a, #[trigger] f[k]) by {
        crate::layout::intrinsic::flow_member(a, kids, kids.len(), k);
    }
    if i < f.len() {
        inputs_totals(a, b, m, f, style.axis, main, cross, scale, f.len());
        inputs_pushed(a, b, f, 1);
        let la = line_of(a, m, f, style, origin, main, cross, scale);
        let lb = line_of(b, m, f, style, origin, main, cross, scale);
        assert forall|k: int| 0 <= k < f.len() implies la.sizes[k] == lb.sizes[k] by {
            inputs_live(a, b, f[k]);
            inputs_intrinsic(a, b, m, f[k], style.axis, cross, scale);
        }
        assert(la.sizes =~= lb.sizes);
        assert(la == lb);
        inputs_live(a, b, f[i]);
        inputs_intrinsic(a, b, m, f[i], crossing(style.axis), cross, scale);
    } else {
        let c = shown(a, p)[i];
        crate::layout::place::floating_member(a, kids, kids.len(), i - f.len());
        inputs_live(a, b, c);
        inputs_intrinsic(a, b, m, c, Axis::Row, bx[3], scale);
        inputs_intrinsic(a, b, m, c, Axis::Col, bx[2], scale);
    }
}

proof fn inputs_reach<N: Num, M: Measurer<N>>(
    a: Seq<Option<Node<N>>>,
    b: Seq<Option<Node<N>>>,
    m: &M,
    p: NodeId,
    rect: [N; 4],
    scale: N,
    n: nat,
)
    requires
        same_inputs(a, b),
        live(a, p),
        n <= shown(a, p).len(),
    ensures
        reach(a, m, p, rect, scale, n) == reach(b, m, p, rect, scale, n),
    decreases n,
{
    inputs_live(a, b, p);
    if n > 0 {
        inputs_reach(a, b, m, p, rect, scale, (n - 1) as nat);
        inputs_child_rect(a, b, m, p, rect, scale, n - 1);
    }
}

proof fn inputs_content_size<N: Num, M: Measurer<N>>(
    a: Seq<Option<Node<N>>>,
    b: Seq<Option<Node<N>>>,
    m: &M,
    p: NodeId,
    rect: [N; 4],
    scale: N,
)
    requires
        same_inputs(a, b),
        live(a, p),
    ensures
        content_size_of(a, m, p, rect, scale) == content_size_of(b, m, p, rect, scale),
{
    inputs_live(a, b, p);
    inputs_children(a, b, p);
    inputs_reach(a, b, m, p, rect, scale, shown(a, p).len());
}

proof fn inputs_shown_under<N>(
    a: Seq<Option<Node<N>>>,
    b: Seq<Option<Node<N>>>,
    top: NodeId,
    d: NodeId,
)
    requires
        same_inputs(a, b),
    ensures
        shown_under(a, top, d) == shown_under(b, top, d),
    decreases d.index,
{
    inputs_live(a, b, d);
    if live(a, d) && d != top {
        match node_at(a, d).parent {
            Some(p) => {
                if p.index < d.index {
                    inputs_shown_under(a, b, top, p);
                }
            },
            None => {},
        }
    }
}

/// Being placed carries over to a tree with the same node and children, and
/// from one equivalent starting point to another.
proof fn placed_carries<N: Num, M: Measurer<N>>(
    a: Seq<Option<Node<N>>>,
    x: Seq<Option<Node<N>>>,
    b: Seq<Option<Node<N>>>,
    y: Seq<Option<Node<N>>>,
    m: &M,
    q: NodeId,
    scale: N,
)
    requires
        same_inputs(b, a),
        live(b, q),
        placed(a, x, m, q, scale),
        node_at(a, q).scroll == node_at(b, q).scroll,
        node_at(x, q).rect == node_at(y, q).rect,
        node_at(x, q).content_size == node_at(y, q).content_size,
        node_at(x, q).scroll == node_at(y, q).scroll,
        forall|i: int|
            0 <= i < shown(b, q).len() ==> node_at(x, #[trigger] shown(b, q)[i]).rect == node_at(
                y,
                shown(b, q)[i],
            ).rect,
    ensures
        placed(b, y, m, q, scale),
{
    let rect = node_at(y, q).rect;
    inputs_children(b, a, q);
    inputs_content_size(b, a, m, q, rect, scale);
    assert forall|i: int| 0 <= i < shown(b, q).len() implies node_at(
        y,
        #[trigger] shown(b, q)[i],
    ).rect == child_rect(b, m, q, rect, scale, i) by {
        inputs_child_rect(b, a, m, q, rect, scale, i);
        assert(node_at(x, shown(a, q)[i]).rect == child_rect(a, m, q, rect, scale, i));
    }
}

/// What is shown below a node was added after it.
proof fn shown_under_after<N>(nodes: Seq<Option<Node<N>>>, a: NodeId, d: NodeId)
    requires
        shown_under(nodes, a, d),
    ensures
        a.index <= d.index,
    decreases d.index,
{
    if d != a {
        shown_under_after(nodes, a, node_at(nodes, d).parent->0);
    }
}

/// Visible children of one node have no shown node in common.
proof fn siblings_disjoint<N>(
    nodes: Seq<Option<Node<N>>>,
    p: NodeId,
    x: NodeId,
    y: NodeId,
    d: NodeId,
)
    requires
        x != y,
        live(nodes, x),
        live(nodes, y),
        node_at(nodes, x).parent == Some(p),
        node_at(nodes, y).parent == Some(p),
        p.index < x.index,
        p.index < y.index,
        shown_under(nodes, x, d),
    ensures
        !shown_under(nodes, y, d),
    decreases d.index,
{
    if shown_under(nodes, y, d) {
        if d == x {
            shown_under_after(nodes, y, p);
        } else if d == y {
            shown_under_after(nodes, x, p);
        } else {
            siblings_disjoint(nodes, p, x, y, node_at(nodes, d).parent->0);
        }
    }
}

/// Roots have no shown node in common.
proof fn roots_disjoint<N>(nodes: Seq<Option<Node<N>>>, x: NodeId, y: NodeId, d: NodeId)
    requires
        x != y,
        live(nodes, x),
        live(nodes, y),
        node_at(nodes, x).parent is None,
        node_at(nodes, y).parent is None,
        shown_under(nodes, x, d),
    ensures
        !shown_under(nodes, y, d),
    decreases d.index,
{
    if shown_under(nodes, y, d) {
        if d != x && d != y {
            roots_disjoint(nodes, x, y, node_at(nodes, d).parent->0);
        }
    }
}

/// What is shown below a visible child is shown below its parent.
pub(crate) proof fn shown_under_parent<N>(nodes: Seq<Option<Node<N>>>, p: NodeId, c: NodeId, d: NodeId)
    requires
        live(nodes, p),
        live(nodes, c),
        node_at(nodes, c).visible,
        node_at(nodes, c).parent == Some(p),
        p.index < c.index,
        shown_under(nodes, c, d),
    ensures
        shown_under(nodes, p, d),
    decreases d.index,
{
    if d == c {
        assert(shown_under(nodes, p, p));
    } else {
        shown_under_parent(nodes, p, c, node_at(nodes, d).parent->0);
    }
}

/// What is shown below a node, other than itself, is shown below one of its
/// visible children.
proof fn shown_under_child<N>(
    nodes: Seq<Option<Node<N>>>,
    roots: Seq<NodeId>,
    p: NodeId,
    d: NodeId,
) -> (i: int)
    requires
        forest(nodes, roots),
        live(nodes, p),
        shown_under(nodes, p, d),
        d != p,
    ensures
        0 <= i < shown(nodes, p).len(),
        shown_under(nodes, shown(nodes, p)[i], d),
    decreases d.index,
{
    let q = node_at(nodes, d).parent->0;
    if q == p {
        shown_complete(nodes, roots, p, d)
    } else {
        let i = shown_under_child(nodes, roots, p, q);
        i
    }
}

/// A visible child of a shown node is shown.
proof fn shown_under_extends<N>(
    nodes: Seq<Option<Node<N>>>,
    roots: Seq<NodeId>,
    a: NodeId,
    q: NodeId,
    i: int,
)
    requires
        forest(nodes, roots),
        shown_under(nodes, a, q),
        0 <= i < shown(nodes, q).len(),
    ensures
        shown_under(nodes, a, shown(nodes, q)[i]),
{
    shown_member(nodes, roots, q, i);
}

/// No node is shown below two of `tops`.
#[verifier::opaque]
pub open spec fn disjoint_tops<N>(nodes: Seq<Option<Node<N>>>, tops: Seq<NodeId>) -> bool {
    forall|j: int, k: int, d: NodeId|
        0 <= j < tops.len() && 0 <= k < tops.len() && j != k && #[trigger] shown_under(
            nodes,
            tops[j],
            d,
        ) ==> !#[trigger] shown_under(nodes, tops[k], d)
}

proof fn not_below_two<N>(
    nodes: Seq<Option<Node<N>>>,
    tops: Seq<NodeId>,
    j: int,
    k: int,
    d: NodeId,
)
    requires
        disjoint_tops(nodes, tops),
        0 <= j < tops.len(),
        0 <= k < tops.len(),
        j != k,
        shown_under(nodes, tops[j], d),
    ensures
        !shown_under(nodes, tops[k], d),
{
    reveal(disjoint_tops);
}

proof fn siblings_are_disjoint<N>(
    nodes: Seq<Option<Node<N>>>,
    roots: Seq<NodeId>,
    p: NodeId,
)
    requires
        forest(nodes, roots),
        live(nodes, p),
    ensures
        disjoint_tops(nodes, shown(nodes, p)),
{
    reveal(disjoint_tops);
    let tops = shown(nodes, p);
    shown_distinct(nodes, roots, p);
    assert forall|j: int, k: int, d: NodeId|
        0 <= j < tops.len() && 0 <= k < tops.len() && j != k && #[trigger] shown_under(
            nodes,
            tops[j],
            d,
        ) implies !#[trigger] shown_under(nodes, tops[k], d) by {
        shown_member(nodes, roots, p, j);
        shown_member(nodes, roots, p, k);
        siblings_disjoint(nodes, p, tops[j], tops[k], d);
    }
}

/// One more subtree has been laid out, and those before it still are.
proof fn one_more_placed<N: Num, M: Measurer<N>>(
    start: Seq<Option<Node<N>>>,
    cur: Seq<Option<Node<N>>>,
    mid: Seq<Option<Node<N>>>,
    next: Seq<Option<Node<N>>>,
    roots: Seq<NodeId>,
    tops: Seq<NodeId>,
    m: &M,
    i: int,
    rect: [N; 4],
    scale: N,
)
    requires
        forest(start, roots),
        0 <= i < tops.len(),
        forall|j: int| 0 <= j < tops.len() ==> live(start, #[trigger] tops[j]),
        disjoint_tops(start, tops),
        same_inputs(start, cur),
        same_inputs(cur, mid),
        same_inputs(mid, next),
        forall|d: NodeId|
            live(start, d) && #[trigger] clear_of(start, tops, i, d) ==> node_at(cur, d)
                == node_at(start, d),
        forall|j: int| 0 <= j < i ==> all_placed(start, cur, m, #[trigger] tops[j], scale),
        mid == cur.update(
            tops[i].index as int,
            Some(Node { rect, ..node_at(cur, tops[i]) }),
        ),
        forall|d: NodeId|
            live(mid, d) && !#[trigger] shown_under(mid, tops[i], d) ==> node_at(next, d)
                == node_at(mid, d),
        all_placed(mid, next, m, tops[i], scale),
    ensures
        same_inputs(start, next),
        forall|j: int| 0 <= j <= i ==> all_placed(start, next, m, #[trigger] tops[j], scale),
        forall|d: NodeId|
            live(start, d) && #[trigger] clear_of(start, tops, i + 1, d) ==> node_at(next, d)
                == node_at(start, d),
        forall|d: NodeId|
            live(start, d) && !#[trigger] shown_under(start, tops[i], d) ==> node_at(next, d)
                == node_at(cur, d),
{
    let c = tops[i];
    assert(live(start, c));
    assert(shown_under(start, c, c));
    inputs_live(start, cur, c);
    inputs_trans(start, cur, mid);
    inputs_trans(start, mid, next);
    assert forall|d: NodeId| live(start, d) && !#[trigger] shown_under(start, c, d) implies node_at(
        next,
        d,
    ) == node_at(cur, d) by {
        inputs_live(start, mid, d);
        inputs_shown_under(start, mid, c, d);
        assert(d != c);
    }
    assert forall|d: NodeId|
        live(start, d) && #[trigger] clear_of(start, tops, i + 1, d) implies node_at(next, d)
        == node_at(start, d) by {
        assert(!shown_under(start, tops[i], d));
        assert(clear_of(start, tops, i, d));
    }
    assert forall|j: int| 0 <= j <= i implies all_placed(
        start,
        next,
        m,
        #[trigger] tops[j],
        scale,
    ) by {
        assert forall|q: NodeId| #[trigger] shown_under(start, tops[j], q) implies placed(
            start,
            next,
            m,
            q,
            scale,
        ) by {
            inputs_live(start, mid, q);
            if j < i {
                assert(all_placed(start, cur, m, tops[j], scale));
                assert(placed(start, cur, m, q, scale));
                not_below_two(start, tops, j, i, q);
                assert forall|k: int| 0 <= k < shown(start, q).len() implies node_at(
                    cur,
                    #[trigger] shown(start, q)[k],
                ).rect == node_at(next, shown(start, q)[k]).rect by {
                    shown_under_extends(start, roots, tops[j], q, k);
                    shown_member(start, roots, q, k);
                    not_below_two(start, tops, j, i, shown(start, q)[k]);
                }
                inputs_refl(start);
                placed_carries(start, cur, start, next, m, q, scale);
            } else {
                inputs_shown_under(start, mid, c, q);
                assert(placed(mid, next, m, q, scale));
                assert(clear_of(start, tops, i, q)) by {
                    assert forall|k: int| 0 <= k < i implies !shown_under(
                        start,
                        #[trigger] tops[k],
                        q,
                    ) by {
                        not_below_two(start, tops, i, k, q);
                    }
                }
                assert(node_at(mid, q).scroll == node_at(start, q).scroll);
                placed_carries(mid, next, start, next, m, q, scale);
            }
        }
    }
}

/// Lays out everything below `p`, which has its rectangle already.
pub fn layout_children<N: Num, M: Measurer<N>>(
    tree: &mut NodeTree<N>,
    p: NodeId,
    m: &M,
    scale: N,
)
    requires
        old(tree).wf(),
        live(old(tree).nodes(), p),
    ensures
        final(tree).wf(),
        final(tree).root_ids() == old(tree).root_ids(),
        final(tree).dirty_mask() == old(tree).dirty_mask(),
        same_inputs(old(tree).nodes(), final(tree).nodes()),
        node_at(final(tree).nodes(), p).rect == node_at(old(tree).nodes(), p).rect,
        all_placed(old(tree).nodes(), final(tree).nodes(), m, p, scale),
        forall|d: NodeId|
            live(old(tree).nodes(), d) && !#[trigger] shown_under(old(tree).nodes(), p, d)
                ==> node_at(final(tree).nodes(), d) == node_at(old(tree).nodes(), d),
    decreases old(tree).nodes().len() - p.index,
{
    let ghost start = tree.nodes();
    let ghost roots = tree.root_ids();
    let ghost tops = shown(start, p);
    let rects: Vec<Placement<N>> = child_rects(tree, m, p, scale);
    proof {
        assert forall|j: int| 0 <= j < tops.len() implies live(start, #[trigger] tops[j])
            && p.index < tops[j].index by {
            shown_member(start, roots, p, j);
        }
        siblings_are_disjoint(start, roots, p);
        assert forall|j: int| 0 <= j < tops.len() implies !shown_under(
            start,
            #[trigger] tops[j],
            p,
        ) by {
            if shown_under(start, tops[j], p) {
                shown_under_after(start, tops[j], p);
            }
        }
    }
    let ghost rect = node_at(start, p).rect;
    proof {
        inputs_refl(start);
    }
    let mut i: usize = 0;
    while i < rects.len()
        invariant
            i <= rects@.len(),
            tree.wf(),
            tree.root_ids() == roots,
            tree.dirty_mask() == old(tree).dirty_mask(),
            forest(start, roots),
            live(start, p),
            start.len() == old(tree).nodes().len(),
            tops == shown(start, p),
            rects@.len() == tops.len(),
            forall|j: int|
                0 <= j < rects@.len() ==> (#[trigger] rects@[j]).node == tops[j] && rects@[j].rect
                    == child_rect(start, m, p, rect, scale, j),
            forall|j: int|
                0 <= j < tops.len() ==> live(start, #[trigger] tops[j]) && p.index < tops[j].index,
            disjoint_tops(start, tops),
            forall|j: int| 0 <= j < tops.len() ==> !shown_under(start, #[trigger] tops[j], p),
            same_inputs(start, tree.nodes()),
            node_at(tree.nodes(), p) == node_at(start, p),
            forall|d: NodeId|
                live(start, d) && #[trigger] clear_of(start, tops, i as int, d) ==> node_at(
                    tree.nodes(),
                    d,
                ) == node_at(start, d),
            forall|j: int|
                0 <= j < i ==> all_placed(start, tree.nodes(), m, #[trigger] tops[j], scale),
            forall|j: int|
                0 <= j < i ==> node_at(tree.nodes(), #[trigger] tops[j]).rect == child_rect(
                    start,
                    m,
                    p,
                    rect,
                    scale,
                    j,
                ),
        decreases rects@.len() - i,
    {
        let c: NodeId = rects[i].node;
        let ghost cur = tree.nodes();
        proof {
            inputs_live(start, cur, c);
        }
        tree.set_rect(c, rects[i].rect);
        let ghost mid = tree.nodes();
        proof {
            inputs_set_rect(cur, c, rects@[i as int].rect);
            inputs_forest(cur, mid, roots);
        }
        layout_children(tree, c, m, scale);
        proof {
            let next = tree.nodes();
            one_more_placed(
                start,
                cur,
                mid,
                next,
                roots,
                tops,
                m,
                i as int,
                rects@[i as int].rect,
                scale,
            );
            assert(!shown_under(start, tops[i as int], p));
            assert forall|j: int| 0 <= j < i + 1 implies node_at(next, #[trigger] tops[j]).rect
                == child_rect(start, m, p, rect, scale, j) by {
                if j < i {
                    assert(shown_under(start, tops[j], tops[j]));
                    not_below_two(start, tops, j, i as int, tops[j]);
                }
            }
        }
        i += 1;
    }
    let ghost cur = tree.nodes();
    proof {
        inputs_live(start, cur, p);
        inputs_children(start, cur, p);
        assert forall|j: int| 0 <= j < rects@.len() implies (#[trigger] rects@[j]).rect
            == child_rect(cur, m, p, rect, scale, j) by {
            inputs_child_rect(start, cur, m, p, rect, scale, j);
        }
        inputs_content_size(start, cur, m, p, rect, scale);
    }
    let content: [N; 2] = content_extent_of(tree, m, p, &rects, scale);
    if let Some(n) = tree.get(p) {
        let scroll: Option<ScrollState<N>> = reclamp(n.scroll, content, n.rect, scale);
        tree.set_extent(p, content, scroll);
    }
    proof {
        let end = tree.nodes();
        inputs_set_extent(cur, p, content, node_at(end, p).scroll);
        inputs_trans(start, cur, end);
        inputs_forest(start, end, roots);
        assert forall|q: NodeId| #[trigger] shown_under(start, p, q) implies placed(
            start,
            end,
            m,
            q,
            scale,
        ) by {
            if q == p {
                assert forall|k: int| 0 <= k < tops.len() implies node_at(
                    end,
                    #[trigger] tops[k],
                ).rect == child_rect(start, m, p, rect, scale, k) by {
                    assert(tops[k].index != p.index);
                }
            } else {
                let j = shown_under_child(start, roots, p, q);
                assert(all_placed(start, cur, m, tops[j], scale));
                assert(placed(start, cur, m, q, scale));
                inputs_refl(start);
                shown_under_after(start, p, q);
                inputs_live(start, cur, q);
                assert(q.index != p.index);
                assert forall|k: int| 0 <= k < shown(start, q).len() implies node_at(
                    cur,
                    #[trigger] shown(start, q)[k],
                ).rect == node_at(end, shown(start, q)[k]).rect by {
                    shown_member(start, roots, q, k);
                    assert(shown(start, q)[k].index != p.index);
                }
                placed_carries(start, cur, start, end, m, q, scale);
            }
        }
        assert forall|d: NodeId| live(start, d) && !#[trigger] shown_under(start, p, d) implies node_at(
            end,
            d,
        ) == node_at(start, d) by {
            assert(shown_under(start, p, p));
            assert(d != p);
            assert(d.index != p.index);
            assert(clear_of(start, tops, tops.len() as int, d)) by {
                assert forall|j: int| 0 <= j < tops.len() implies !shown_under(
                    start,
                    #[trigger] tops[j],
                    d,
                ) by {
                    shown_member(start, roots, p, j);
                    if shown_under(start, tops[j], d) {
                        shown_under_parent(start, p, tops[j], d);
                    }
                }
            }
        }
    }
}

/// A length of a root, in a viewport of size `avail`.
pub open spec fn root_len<N: Num, M: Measurer<N>>(
    nodes: Seq<Option<Node<N>>>,
    m: &M,
    id: NodeId,
    len: Len<N>,
    axis: Axis,
    avail: N,
    scale: N,
) -> N {
    match len {
        Len::Px(v) => v.product(scale),
        Len::Pct(v) => v.product(avail),
        Len::Fr(_) => avail,
        Len::Fill => avail,
        Len::Auto => content_extent(nodes, m, id, axis, avail, scale),
    }
}

/// Rectangle of a root.
pub open spec fn root_rect<N: Num, M: Measurer<N>>(
    nodes: Seq<Option<Node<N>>>,
    m: &M,
    id: NodeId,
    viewport: [N; 2],
    scale: N,
) -> [N; 4] {
    let style = node_at(nodes, id).layout;
    let origin = match style.abs {
        Some(a) => [a[0].product(scale), a[1].product(scale)],
        None => [zero(), zero()],
    };
    [
        origin[0],
        origin[1],
        root_len(nodes, m, id, style.width, Axis::Row, viewport[0], scale),
        root_len(nodes, m, id, style.height, Axis::Col, viewport[1], scale),
    ]
}

/// Resolves a length against the parent's extent along the same axis.
pub fn resolve_main_size<N: Num, M: Measurer<N>>(
    tree: &NodeTree<N>,
    m: &M,
    id: NodeId,
    len: Len<N>,
    axis: Axis,
    avail: N,
    scale: N,
) -> (r: N)
    requires
        tree.wf(),
    ensures
        r == root_len(tree.nodes(), m, id, len, axis, avail, scale),
{
    match len {
        Len::Px(v) => v.times(scale),
        Len::Pct(v) => v.times(avail),
        Len::Fr(_) => avail,
        Len::Fill => avail,
        Len::Auto => intrinsic_main_from_node(tree, id, axis, avail, m, scale),
    }
}

/// A root is laid out: it has its rectangle and everything shown below it is
/// placed.
pub open spec fn root_laid_out<N: Num, M: Measurer<N>>(
    before: Seq<Option<Node<N>>>,
    after: Seq<Option<Node<N>>>,
    m: &M,
    id: NodeId,
    viewport: [N; 2],
    scale: N,
) -> bool {
    live(before, id) && node_at(before, id).visible ==> {
        &&& node_at(after, id).rect == root_rect(before, m, id, viewport, scale)
        &&& all_placed(before, after, m, id, scale)
    }
}

/// Shown below a visible root among the first `n`.
pub open spec fn reached<N>(
    nodes: Seq<Option<Node<N>>>,
    roots: Seq<NodeId>,
    n: int,
    d: NodeId,
) -> bool {
    exists|k: int|
        0 <= k < n && node_at(nodes, #[trigger] roots[k]).visible && shown_under(
            nodes,
            roots[k],
            d,
        )
}

/// Lays out one root and everything below it. A hidden root is left alone.
pub fn layout_root<N: Num, M: Measurer<N>>(
    tree: &mut NodeTree<N>,
    id: NodeId,
    viewport: [N; 2],
    m: &M,
    scale: N,
)
    requires
        old(tree).wf(),
    ensures
        final(tree).wf(),
        final(tree).root_ids() == old(tree).root_ids(),
        final(tree).dirty_mask() == old(tree).dirty_mask(),
        same_inputs(old(tree).nodes(), final(tree).nodes()),
        root_laid_out(old(tree).nodes(), final(tree).nodes(), m, id, viewport, scale),
        live(old(tree).nodes(), id) && !node_at(old(tree).nodes(), id).visible ==> final(
            tree).nodes() == old(tree).nodes(),
        forall|d: NodeId|
            live(old(tree).nodes(), d) && !#[trigger] shown_under(old(tree).nodes(), id, d)
                ==> node_at(final(tree).nodes(), d) == node_at(old(tree).nodes(), d),
{
    let ghost start = tree.nodes();
    proof {
        inputs_refl(start);
    }
    let (visible, style) = match tree.get(id) {
        Some(n) => (n.visible, n.layout),
        None => {
            return ;
        },
    };
    if !visible {
        return ;
    }
    let w: N = resolve_main_size(tree, m, id, style.width, Axis::Row, viewport[0], scale);
    let h: N = resolve_main_size(tree, m, id, style.height, Axis::Col, viewport[1], scale);
    let origin: [N; 2] = match style.abs {
        Some(a) => [a[0].times(scale), a[1].times(scale)],
        None => [N::of_ratio(0, 1), N::of_ratio(0, 1)],
    };
    let rect: [N; 4] = [origin[0], origin[1], w, h];
    tree.set_rect(id, rect);
    let ghost mid = tree.nodes();
    proof {
        inputs_set_rect(start, id, rect);
        inputs_forest(start, mid, tree.root_ids());
    }
    layout_children(tree, id, m, scale);
    proof {
        let end = tree.nodes();
        inputs_trans(start, mid, end);
        assert forall|q: NodeId| #[trigger] shown_under(start, id, q) implies placed(
            start,
            end,
            m,
            q,
            scale,
        ) by {
            inputs_shown_under(start, mid, id, q);
            assert(placed(mid, end, m, q, scale));
            placed_carries(mid, end, start, end, m, q, scale);
        }
        assert forall|d: NodeId| live(start, d) && !#[trigger] shown_under(start, id, d) implies node_at(
            end,
            d,
        ) == node_at(start, d) by {
            inputs_live(start, mid, d);
            inputs_shown_under(start, mid, id, d);
            assert(shown_under(start, id, id));
        }
    }
}

/// Carries a finished root over to a tree in which nothing below it changed.
proof fn root_carries<N: Num, M: Measurer<N>>(
    start: Seq<Option<Node<N>>>,
    cur: Seq<Option<Node<N>>>,
    next: Seq<Option<Node<N>>>,
    roots: Seq<NodeId>,
    m: &M,
    r: NodeId,
    viewport: [N; 2],
    scale: N,
)
    requires
        forest(start, roots),
        root_laid_out(start, cur, m, r, viewport, scale),
        forall|d: NodeId| #[trigger] shown_under(start, r, d) ==> node_at(next, d) == node_at(cur, d),
    ensures
        root_laid_out(start, next, m, r, viewport, scale),
{
    inputs_refl(start);
    if live(start, r) && node_at(start, r).visible {
        assert(shown_under(start, r, r));
        assert forall|q: NodeId| #[trigger] shown_under(start, r, q) implies placed(
            start,
            next,
            m,
            q,
            scale,
        ) by {
            assert(placed(start, cur, m, q, scale));
            assert forall|k: int| 0 <= k < shown(start, q).len() implies node_at(
                cur,
                #[trigger] shown(start, q)[k],
            ).rect == node_at(next, shown(start, q)[k]).rect by {
                shown_under_extends(start, roots, r, q, k);
            }
            placed_carries(start, cur, start, next, m, q, scale);
        }
    }
}

/// A root laid out in an equivalent tree, whose subtree was as at the start,
/// is laid out with respect to the start.
proof fn root_rebased<N: Num, M: Measurer<N>>(
    start: Seq<Option<Node<N>>>,
    cur: Seq<Option<Node<N>>>,
    next: Seq<Option<Node<N>>>,
    m: &M,
    r: NodeId,
    viewport: [N; 2],
    scale: N,
)
    requires
        same_inputs(start, cur),
        root_laid_out(cur, next, m, r, viewport, scale),
        forall|d: NodeId| #[trigger]
            shown_under(start, r, d) ==> node_at(cur, d) == node_at(start, d),
    ensures
        root_laid_out(start, next, m, r, viewport, scale),
{
    inputs_live(start, cur, r);
    if live(start, r) && node_at(start, r).visible {
        inputs_content_extent(start, cur, m, r, Axis::Row, viewport[0], scale);
        inputs_content_extent(start, cur, m, r, Axis::Col, viewport[1], scale);
        assert forall|q: NodeId| #[trigger] shown_under(start, r, q) implies placed(
            start,
            next,
            m,
            q,
            scale,
        ) by {
            inputs_shown_under(start, cur, r, q);
            assert(placed(cur, next, m, q, scale));
            placed_carries(cur, next, start, next, m, q, scale);
        }
    }
}

/// The nodes after the whole tree was laid out: every root is, with all below
/// it, and what no visible root leads to stays as it was.
pub open spec fn laid_out<N: Num, M: Measurer<N>>(
    before: Seq<Option<Node<N>>>,
    after: Seq<Option<Node<N>>>,
    roots: Seq<NodeId>,
    m: &M,
    viewport: [N; 2],
    scale: N,
) -> bool {
    &&& same_inputs(before, after)
    &&& forall|k: int|
        0 <= k < roots.len() ==> root_laid_out(
            before,
            after,
            m,
            #[trigger] roots[k],
            viewport,
            scale,
        )
    &&& forall|d: NodeId|
        live(before, d) && !#[trigger] reached(before, roots, roots.len() as int, d) ==> node_at(
            after,
            d,
        ) == node_at(before, d)
}

/// Lays out the whole tree in a viewport of physical pixels. `scale` turns
/// logical pixels into physical ones.
pub fn compute_layout<N: Num, M: Measurer<N>>(
    tree: &mut NodeTree<N>,
    viewport: [N; 2],
    m: &M,
    scale: N,
)
    requires
        old(tree).wf(),
    ensures
        final(tree).wf(),
        final(tree).root_ids() == old(tree).root_ids(),
        final(tree).dirty_mask() == old(tree).dirty_mask(),
        laid_out(
            old(tree).nodes(),
            final(tree).nodes(),
            old(tree).root_ids(),
            m,
            viewport,
            scale,
        ),
{
    let ghost start = tree.nodes();
    let ghost roots = tree.root_ids();
    proof {
        inputs_refl(start);
    }
    let count: usize = tree.roots().len();
    let mut i: usize = 0;
    while i < count
        invariant
            i <= count,
            count == roots.len(),
            tree.wf(),
            tree.root_ids() == roots,
            tree.dirty_mask() == old(tree).dirty_mask(),
            forest(start, roots),
            same_inputs(start, tree.nodes()),
            forall|k: int|
                0 <= k < i ==> root_laid_out(
                    start,
                    tree.nodes(),
                    m,
                    #[trigger] roots[k],
                    viewport,
                    scale,
                ),
            forall|d: NodeId|
                live(start, d) && !#[trigger] reached(start, roots, i as int, d) ==> node_at(
                    tree.nodes(),
                    d,
                ) == node_at(start, d),
        decreases count - i,
    {
        let r: NodeId = tree.roots()[i];
        let ghost cur = tree.nodes();
        layout_root(tree, r, viewport, m, scale);
        proof {
            let next = tree.nodes();
            forest_root(start, roots, i as int);
            inputs_trans(start, cur, next);
            assert forall|k: int| 0 <= k < i implies root_laid_out(
                start,
                next,
                m,
                #[trigger] roots[k],
                viewport,
                scale,
            ) by {
                forest_root(start, roots, k);
                assert(roots[k] != roots[i as int]);
                assert forall|d: NodeId| #[trigger] shown_under(
                    start,
                    roots[k],
                    d,
                ) implies node_at(next, d) == node_at(cur, d) by {
                    roots_disjoint(start, roots[k], r, d);
                    inputs_live(start, cur, d);
                    inputs_shown_under(start, cur, r, d);
                }
                root_carries(start, cur, next, roots, m, roots[k], viewport, scale);
            }
            assert forall|d: NodeId| #[trigger] shown_under(start, r, d) implies node_at(cur, d)
                == node_at(start, d) by {
                if reached(start, roots, i as int, d) {
                    let k = choose|k: int|
                        0 <= k < i && node_at(start, #[trigger] roots[k]).visible && shown_under(
                            start,
                            roots[k],
                            d,
                        );
                    forest_root(start, roots, k);
                    assert(roots[k] != roots[i as int]);
                    roots_disjoint(start, roots[k], r, d);
                }
            }
            root_rebased(start, cur, next, m, r, viewport, scale);
            assert forall|d: NodeId|
                live(start, d) && !#[trigger] reached(start, roots, i + 1, d) implies node_at(
                next,
                d,
            ) == node_at(start, d) by {
                assert(!reached(start, roots, i as int, d)) by {
                    if reached(start, roots, i as int, d) {
                        let k = choose|k: int|
                            0 <= k < i && node_at(start, #[trigger] roots[k]).visible
                                && shown_under(start, roots[k], d);
                        assert(node_at(start, roots[k]).visible);
                    }
                }
                inputs_live(start, cur, r);
                inputs_live(start, cur, d);
                inputs_shown_under(start, cur, r, d);
                if shown_under(start, r, d) {
                    assert(!node_at(start, roots[i as int]).visible);
                    assert(next == cur);
                }
            }
        }
        i += 1;
    }
}

} // verus!
