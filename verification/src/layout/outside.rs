//! What is outside the flow of a container, and what it leaves alone.
use vstd::prelude::*;

use crate::layout::intrinsic::{
    content_extent, flow, flow_among, flow_member, in_flow, intrinsic, item_extent, items_max,
    items_sum,
};
use crate::layout::line::{crossing, first_pushed, fixed_total, line_of, shares_total};
use crate::layout::measure::Measurer;
use crate::layout::place::{
    child_rect, content_box, floating, floating_among, floating_member, flow_rect, off_axis,
    on_axis, shown, shown_complete, shown_member,
};
use crate::layout::solve::{all_placed, placed, shown_under, shown_under_parent};
use crate::layout::style::Axis;
use crate::node::prune::{all_still_there, below_any, still_there, subtrees_removed, survives};
use crate::node::tree::{
    descends, forest, forest_child, forest_parent, forest_size, live, node_at, Node,
};
use crate::node::NodeId;
use crate::num::Num;

verus! {

/// The node takes part in the flow of its parent.
pub open spec fn flows<N>(nodes: Seq<Option<Node<N>>>, id: NodeId) -> bool {
    live(nodes, id) && in_flow(node_at(nodes, id))
}

/// A node with the same style, text and flow children in both trees.
pub open spec fn flows_alike<N>(
    a: Seq<Option<Node<N>>>,
    b: Seq<Option<Node<N>>>,
    id: NodeId,
) -> bool {
    &&& live(a, id)
    &&& live(b, id)
    &&& node_at(a, id).layout == node_at(b, id).layout
    &&& node_at(a, id).visible == node_at(b, id).visible
    &&& node_at(a, id).text == node_at(b, id).text
    &&& flow(a, id) == flow(b, id)
}

/// Two trees that differ only outside the flow.
pub open spec fn same_flow<N>(a: Seq<Option<Node<N>>>, b: Seq<Option<Node<N>>>) -> bool {
    forall|id: NodeId| #[trigger] flows(a, id) ==> flows_alike(a, b, id)
}

/// The nodes of a scope flow alike in both trees, and so do the flow children
/// of each, which are in the scope too.
pub open spec fn alike_on<N>(
    a: Seq<Option<Node<N>>>,
    b: Seq<Option<Node<N>>>,
    scope: spec_fn(NodeId) -> bool,
) -> bool {
    &&& forall|id: NodeId| #[trigger] scope(id) ==> flows_alike(a, b, id)
    &&& forall|id: NodeId, i: int|
        scope(id) && 0 <= i < flow(a, id).len() ==> scope(#[trigger] flow(a, id)[i])
}

proof fn flow_children_flow<N>(nodes: Seq<Option<Node<N>>>, p: NodeId)
    ensures
        forall|i: int| 0 <= i < flow(nodes, p).len() ==> flows(nodes, #[trigger] flow(nodes, p)[i]),
{
    let kids = node_at(nodes, p).children@;
    assert forall|i: int| 0 <= i < flow(nodes, p).len() implies flows(
        nodes,
        #[trigger] flow(nodes, p)[i],
    ) by {
        flow_member(nodes, kids, kids.len(), i);
    }
}

proof fn same_content_extent<N: Num, M: Measurer<N>>(
    a: Seq<Option<Node<N>>>,
    b: Seq<Option<Node<N>>>,
    scope: spec_fn(NodeId) -> bool,
    m: &M,
    id: NodeId,
    probe: Axis,
    avail: N,
    scale: N,
)
    requires
        alike_on(a, b, scope),
        scope(id),
    ensures
        content_extent(a, m, id, probe, avail, scale) == content_extent(
            b,
            m,
            id,
            probe,
            avail,
            scale,
        ),
    decreases a.len() - id.index, 1nat, 0nat,
{
    assert(flows_alike(a, b, id));
    assert forall|i: int| 0 <= i < flow(a, id).len() implies scope(#[trigger] flow(a, id)[i]) by {}
    same_items(a, b, scope, m, id, flow(a, id), flow(a, id).len(), probe, avail, scale);
}

proof fn same_items<N: Num, M: Measurer<N>>(
    a: Seq<Option<Node<N>>>,
    b: Seq<Option<Node<N>>>,
    scope: spec_fn(NodeId) -> bool,
    m: &M,
    p: NodeId,
    f: Seq<NodeId>,
    n: nat,
    probe: Axis,
    avail: N,
    scale: N,
)
    requires
        alike_on(a, b, scope),
        live(a, p),
        n <= f.len(),
        forall|i: int| 0 <= i < f.len() ==> scope(#[trigger] f[i]),
    ensures
        items_sum(a, m, p, f, n, probe, avail, scale) == items_sum(
            b,
            m,
            p,
            f,
            n,
            probe,
            avail,
            scale,
        ),
        items_max(a, m, p, f, n, probe, avail, scale) == items_max(
            b,
            m,
            p,
            f,
            n,
            probe,
            avail,
            scale,
        ),
    decreases a.len() - p.index, 0nat, n,
{
    if n > 0 {
        same_items(a, b, scope, m, p, f, (n - 1) as nat, probe, avail, scale);
        let c = f[n - 1];
        assert(scope(c));
        assert(flows_alike(a, b, c));
        if p.index < c.index {
            same_content_extent(a, b, scope, m, c, probe, avail, scale);
        }
        assert(item_extent(a, m, p, c, probe, avail, scale) == item_extent(
            b,
            m,
            p,
            c,
            probe,
            avail,
            scale,
        ));
    }
}

proof fn same_intrinsic<N: Num, M: Measurer<N>>(
    a: Seq<Option<Node<N>>>,
    b: Seq<Option<Node<N>>>,
    scope: spec_fn(NodeId) -> bool,
    m: &M,
    id: NodeId,
    probe: Axis,
    avail: N,
    scale: N,
)
    requires
        alike_on(a, b, scope),
        scope(id),
    ensures
        intrinsic(a, m, id, probe, avail, scale) == intrinsic(b, m, id, probe, avail, scale),
{
    assert(flows_alike(a, b, id));
    same_content_extent(a, b, scope, m, id, probe, avail, scale);
}

proof fn same_totals<N: Num, M: Measurer<N>>(
    a: Seq<Option<Node<N>>>,
    b: Seq<Option<Node<N>>>,
    scope: spec_fn(NodeId) -> bool,
    m: &M,
    f: Seq<NodeId>,
    axis: Axis,
    main: N,
    cross: N,
    scale: N,
    n: nat,
)
    requires
        alike_on(a, b, scope),
        n <= f.len(),
        forall|i: int| 0 <= i < f.len() ==> scope(#[trigger] f[i]),
    ensures
        shares_total(a, f, axis, n) == shares_total(b, f, axis, n),
        fixed_total(a, m, f, axis, main, cross, scale, n) == fixed_total(
            b,
            m,
            f,
            axis,
            main,
            cross,
            scale,
            n,
        ),
    decreases n,
{
    if n > 0 {
        same_totals(a, b, scope, m, f, axis, main, cross, scale, (n - 1) as nat);
        assert(scope(f[n - 1]));
        assert(flows_alike(a, b, f[n - 1]));
        same_intrinsic(a, b, scope, m, f[n - 1], axis, cross, scale);
    }
}

proof fn same_pushed<N>(
    a: Seq<Option<Node<N>>>,
    b: Seq<Option<Node<N>>>,
    scope: spec_fn(NodeId) -> bool,
    f: Seq<NodeId>,
    i: nat,
)
    requires
        alike_on(a, b, scope),
        forall|k: int| 0 <= k < f.len() ==> scope(#[trigger] f[k]),
    ensures
        first_pushed(a, f, i) == first_pushed(b, f, i),
    decreases f.len() - i,
{
    if i < f.len() {
        assert(scope(f[i as int]));
        assert(flows_alike(a, b, f[i as int]));
        same_pushed(a, b, scope, f, i + 1);
    }
}

/// What is placed outside the flow, or hidden, does not move what is in it:
/// in two trees that differ only outside the flow, a container with the same
/// style and the same flow children gives those the same rectangles.
pub proof fn only_the_flow_moves_the_flow<N: Num, M: Measurer<N>>(
    a: Seq<Option<Node<N>>>,
    b: Seq<Option<Node<N>>>,
    m: &M,
    p: NodeId,
    rect: [N; 4],
    scale: N,
    i: int,
)
    requires
        same_flow(a, b),
        flows_alike(a, b, p),
        0 <= i < flow(a, p).len(),
    ensures
        flow_rect(a, m, p, rect, scale, i) == flow_rect(b, m, p, rect, scale, i),
{
    flow_children_flow(a, p);
    let scope = |id: NodeId| flows(a, id);
    assert forall|id: NodeId, i: int| scope(id) && 0 <= i < flow(a, id).len() implies scope(
        #[trigger] flow(a, id)[i],
    ) by {
        flow_children_flow(a, id);
    }
    same_flow_rect(a, b, scope, m, p, rect, scale, i);
}

/// A container whose flow children are in the scope gives them the same
/// rectangles in both trees.
proof fn same_flow_rect<N: Num, M: Measurer<N>>(
    a: Seq<Option<Node<N>>>,
    b: Seq<Option<Node<N>>>,
    scope: spec_fn(NodeId) -> bool,
    m: &M,
    p: NodeId,
    rect: [N; 4],
    scale: N,
    i: int,
)
    requires
        alike_on(a, b, scope),
        flows_alike(a, b, p),
        forall|k: int| 0 <= k < flow(a, p).len() ==> scope(#[trigger] flow(a, p)[k]),
        0 <= i < flow(a, p).len(),
    ensures
        flow_rect(a, m, p, rect, scale, i) == flow_rect(b, m, p, rect, scale, i),
{
    let style = node_at(a, p).layout;
    let f = flow(a, p);
    let bx = content_box(rect, style, scale);
    let (origin, main) = on_axis(style.axis, bx);
    let (_, cross) = off_axis(style.axis, bx);
    same_totals(a, b, scope, m, f, style.axis, main, cross, scale, f.len());
    same_pushed(a, b, scope, f, 1);
    let la = line_of(a, m, f, style, origin, main, cross, scale);
    let lb = line_of(b, m, f, style, origin, main, cross, scale);
    assert forall|k: int| 0 <= k < f.len() implies la.sizes[k] == lb.sizes[k] by {
        assert(scope(f[k]));
        assert(flows_alike(a, b, f[k]));
        same_intrinsic(a, b, scope, m, f[k], style.axis, cross, scale);
    }
    assert(la.sizes =~= lb.sizes);
    assert(la == lb);
    assert(scope(f[i]));
    assert(flows_alike(a, b, f[i]));
    same_intrinsic(a, b, scope, m, f[i], crossing(style.axis), cross, scale);
}

proof fn flow_without<N>(
    a: Seq<Option<Node<N>>>,
    b: Seq<Option<Node<N>>>,
    c: NodeId,
    kids: Seq<NodeId>,
    n: nat,
)
    requires
        n <= kids.len(),
        !flows(a, c),
        !flows(b, c),
        forall|id: NodeId| id != c ==> #[trigger] flows(a, id) == flows(b, id),
    ensures
        flow_among(a, kids, n) == flow_among(b, kids, n),
    decreases n,
{
    if n > 0 {
        flow_without(a, b, c, kids, (n - 1) as nat);
        assert(flows(a, kids[n - 1]) == flows(b, kids[n - 1]));
    }
}

/// An absolutely placed or hidden child can be changed at will: as long as it
/// stays outside the flow, no flow child of any other node moves.
pub proof fn changing_a_floating_child_moves_no_other<N: Num, M: Measurer<N>>(
    a: Seq<Option<Node<N>>>,
    c: NodeId,
    with: Node<N>,
    m: &M,
    p: NodeId,
    rect: [N; 4],
    scale: N,
    i: int,
)
    requires
        live(a, c),
        !in_flow(node_at(a, c)),
        !in_flow(with),
        live(a, p),
        p != c,
        0 <= i < flow(a, p).len(),
    ensures
        ({
            let b = a.update(c.index as int, Some(with));
            &&& flow(b, p) == flow(a, p)
            &&& flow_rect(b, m, p, rect, scale, i) == flow_rect(a, m, p, rect, scale, i)
        }),
{
    let b = a.update(c.index as int, Some(with));
    assert forall|id: NodeId| id != c implies #[trigger] flows(a, id) == flows(b, id) by {
        if id.index == c.index {
            assert(id == c);
        }
    }
    assert forall|id: NodeId| id != c && live(a, id) implies #[trigger] flows_alike(a, b, id) by {
        if id.index == c.index {
            assert(id == c);
        }
        let kids = node_at(a, id).children@;
        flow_without(a, b, c, kids, kids.len());
    }
    assert(same_flow(a, b)) by {
        assert forall|id: NodeId| #[trigger] flows(a, id) implies flows_alike(a, b, id) by {
            assert(id != c);
        }
    }
    assert(flows_alike(a, b, p));
    only_the_flow_moves_the_flow(a, b, m, p, rect, scale, i);
}

/// A child that is added outside the flow moves no flow child: `b` is `a` with
/// a node more, listed below `p`.
pub proof fn adding_a_floating_child_moves_no_other<N: Num, M: Measurer<N>>(
    a: Seq<Option<Node<N>>>,
    p: NodeId,
    listed: Node<N>,
    added: Node<N>,
    m: &M,
    q: NodeId,
    rect: [N; 4],
    scale: N,
    i: int,
)
    requires
        a.len() < u32::MAX,
        live(a, p),
        listed == (Node { children: listed.children, ..node_at(a, p) }),
        listed.children@ == node_at(a, p).children@.push(NodeId { index: a.len() as u32 }),
        !in_flow(added),
        live(a, q),
        0 <= i < flow(a, q).len(),
    ensures
        ({
            let b = a.update(p.index as int, Some(listed)).push(Some(added));
            &&& flow(b, q) == flow(a, q)
            &&& flow_rect(b, m, q, rect, scale, i) == flow_rect(a, m, q, rect, scale, i)
        }),
{
    let b = a.update(p.index as int, Some(listed)).push(Some(added));
    let c = NodeId { index: a.len() as u32 };
    assert forall|id: NodeId| id != c implies #[trigger] flows(a, id) == flows(b, id) by {
        if id.index == p.index {
            assert(id == p);
        } else if id.index == c.index {
            assert(id == c);
        }
    }
    assert forall|id: NodeId| live(a, id) implies #[trigger] flows_alike(a, b, id) by {
        let kids = node_at(a, id).children@;
        flow_without(a, b, c, kids, kids.len());
        if id == p {
            let more = listed.children@;
            flow_of_prefix(b, kids, more, kids.len());
            assert(!flows(b, c));
            assert(more[more.len() - 1] == c);
        } else {
            assert(id.index != p.index);
        }
    }
    assert(same_flow(a, b));
    assert(flows_alike(a, b, q));
    only_the_flow_moves_the_flow(a, b, m, q, rect, scale, i);
}

proof fn flow_of_prefix<N>(
    nodes: Seq<Option<Node<N>>>,
    kids: Seq<NodeId>,
    more: Seq<NodeId>,
    n: nat,
)
    requires
        n <= kids.len() <= more.len(),
        forall|k: int| 0 <= k < kids.len() ==> kids[k] == more[k],
    ensures
        flow_among(nodes, kids, n) == flow_among(nodes, more, n),
    decreases n,
{
    if n > 0 {
        flow_of_prefix(nodes, kids, more, (n - 1) as nat);
    }
}

/// A node that two trees share: only the storage of its list of children may
/// differ.
pub open spec fn same_node<N>(a: Option<Node<N>>, b: Option<Node<N>>) -> bool {
    &&& a is Some
    &&& b is Some
    &&& b->0 == (Node { children: b->0.children, ..a->0 })
    &&& b->0.children@ == a->0.children@
}

/// The two trees share the node `top` and all below it.
pub open spec fn same_subtree<N>(
    a: Seq<Option<Node<N>>>,
    b: Seq<Option<Node<N>>>,
    top: NodeId,
) -> bool {
    &&& descends(a, top, top.index as int)
    &&& forall|i: int| #[trigger] descends(a, top, i) ==> i < b.len() && same_node(a[i], b[i])
}

/// Two trees that differ, as far as `p` and what is below it go, only in what
/// is outside the flow of `p`: its style and its flow children are the same,
/// and so is all below those.
pub open spec fn same_but_outside<N>(
    a: Seq<Option<Node<N>>>,
    b: Seq<Option<Node<N>>>,
    p: NodeId,
) -> bool {
    &&& flows_alike(a, b, p)
    &&& forall|k: int| 0 <= k < flow(a, p).len() ==> same_subtree(a, b, #[trigger] flow(a, p)[k])
}

proof fn same_among<N>(
    a: Seq<Option<Node<N>>>,
    b: Seq<Option<Node<N>>>,
    kids: Seq<NodeId>,
    n: nat,
)
    requires
        n <= kids.len(),
        forall|k: int|
            0 <= k < kids.len() ==> live(a, #[trigger] kids[k]) && live(b, kids[k]) && same_node(
                a[kids[k].index as int],
                b[kids[k].index as int],
            ),
    ensures
        flow_among(a, kids, n) == flow_among(b, kids, n),
        floating_among(a, kids, n) == floating_among(b, kids, n),
    decreases n,
{
    if n > 0 {
        same_among(a, b, kids, (n - 1) as nat);
        assert(live(a, kids[n - 1]));
    }
}

/// A node of a shared subtree has the same children in both trees, all of the
/// subtree too.
proof fn shared_children<N>(
    a: Seq<Option<Node<N>>>,
    b: Seq<Option<Node<N>>>,
    roots: Seq<NodeId>,
    top: NodeId,
    q: NodeId,
)
    requires
        forest(a, roots),
        same_subtree(a, b, top),
        descends(a, top, q.index as int),
    ensures
        flows_alike(a, b, q),
        shown(a, q) == shown(b, q),
        floating(a, q) == floating(b, q),
        forall|i: int|
            0 <= i < shown(a, q).len() ==> descends(
                a,
                top,
                (#[trigger] shown(a, q)[i]).index as int,
            ),
        forall|i: int|
            0 <= i < flow(a, q).len() ==> descends(a, top, (#[trigger] flow(a, q)[i]).index as int),
{
    let kids = node_at(a, q).children@;
    assert(same_node(a[q.index as int], b[q.index as int]));
    assert forall|k: int| 0 <= k < kids.len() implies descends(
        a,
        top,
        (#[trigger] kids[k]).index as int,
    ) && live(a, kids[k]) && live(b, kids[k]) && same_node(
        a[kids[k].index as int],
        b[kids[k].index as int],
    ) by {
        forest_child(a, roots, q, k);
        let i = kids[k].index as int;
        assert(descends(a, top, i));
    }
    same_among(a, b, kids, kids.len());
    assert forall|i: int| 0 <= i < flow(a, q).len() implies descends(
        a,
        top,
        (#[trigger] flow(a, q)[i]).index as int,
    ) by {
        flow_member(a, kids, kids.len(), i);
        let k = choose|k: int| 0 <= k < kids.len() && #[trigger] kids[k] == flow(a, q)[i];
        assert(descends(a, top, kids[k].index as int));
    }
    assert forall|i: int| 0 <= i < shown(a, q).len() implies descends(
        a,
        top,
        (#[trigger] shown(a, q)[i]).index as int,
    ) by {
        if i < flow(a, q).len() {
            assert(shown(a, q)[i] == flow(a, q)[i]);
        } else {
            let j = i - flow(a, q).len();
            floating_member(a, kids, kids.len(), j);
            let k = choose|k: int| 0 <= k < kids.len() && #[trigger] kids[k] == floating(a, q)[j];
            assert(descends(a, top, kids[k].index as int));
        }
    }
}

/// Below a node of a shared subtree both trees place the same.
proof fn shared_child_rect<N: Num, M: Measurer<N>>(
    a: Seq<Option<Node<N>>>,
    b: Seq<Option<Node<N>>>,
    roots: Seq<NodeId>,
    top: NodeId,
    m: &M,
    q: NodeId,
    rect: [N; 4],
    scale: N,
    i: int,
)
    requires
        forest(a, roots),
        same_subtree(a, b, top),
        descends(a, top, q.index as int),
        0 <= i < shown(a, q).len(),
    ensures
        child_rect(a, m, q, rect, scale, i) == child_rect(b, m, q, rect, scale, i),
{
    let scope = |id: NodeId| descends(a, top, id.index as int);
    assert forall|id: NodeId| #[trigger] scope(id) implies flows_alike(a, b, id) by {
        shared_children(a, b, roots, top, id);
    }
    assert forall|id: NodeId, k: int| scope(id) && 0 <= k < flow(a, id).len() implies scope(
        #[trigger] flow(a, id)[k],
    ) by {
        shared_children(a, b, roots, top, id);
    }
    assert(alike_on(a, b, scope));
    shared_children(a, b, roots, top, q);
    if i < flow(a, q).len() {
        assert forall|k: int| 0 <= k < flow(a, q).len() implies scope(
            #[trigger] flow(a, q)[k],
        ) by {}
        same_flow_rect(a, b, scope, m, q, rect, scale, i);
    } else {
        let c = shown(a, q)[i];
        let bx = content_box(rect, node_at(a, q).layout, scale);
        assert(scope(c));
        assert(flows_alike(a, b, c));
        same_intrinsic(a, b, scope, m, c, Axis::Row, bx[3], scale);
        same_intrinsic(a, b, scope, m, c, Axis::Col, bx[2], scale);
    }
}

/// What is shown below a node is below it.
proof fn shown_is_below<N>(nodes: Seq<Option<Node<N>>>, top: NodeId, d: NodeId)
    requires
        shown_under(nodes, top, d),
    ensures
        descends(nodes, top, d.index as int),
    decreases d.index,
{
    if d != top {
        shown_is_below(nodes, top, node_at(nodes, d).parent->0);
    }
}

/// What is shown below the top of a shared subtree is shown in both trees.
proof fn shown_in_both<N>(
    a: Seq<Option<Node<N>>>,
    b: Seq<Option<Node<N>>>,
    top: NodeId,
    d: NodeId,
)
    requires
        same_subtree(a, b, top),
        shown_under(a, top, d),
    ensures
        shown_under(b, top, d),
    decreases d.index,
{
    shown_is_below(a, top, d);
    assert(same_node(a[d.index as int], b[d.index as int]));
    if d != top {
        shown_in_both(a, b, top, node_at(a, d).parent->0);
    }
}

/// What is outside the flow of a container moves nothing in it: in two trees
/// that differ only outside the flow of `p`, and in which everything below `p`
/// was placed with `p` at the same rectangle, each flow child of `p` and
/// everything shown below it has the same rectangle.
pub proof fn what_is_outside_moves_nothing_in_the_flow<N: Num, M: Measurer<N>>(
    a: Seq<Option<Node<N>>>,
    a_roots: Seq<NodeId>,
    a_placed: Seq<Option<Node<N>>>,
    b: Seq<Option<Node<N>>>,
    b_roots: Seq<NodeId>,
    b_placed: Seq<Option<Node<N>>>,
    m: &M,
    p: NodeId,
    scale: N,
    k: int,
    d: NodeId,
)
    requires
        forest(a, a_roots),
        forest(b, b_roots),
        same_but_outside(a, b, p),
        all_placed(a, a_placed, m, p, scale),
        all_placed(b, b_placed, m, p, scale),
        node_at(a_placed, p).rect == node_at(b_placed, p).rect,
        0 <= k < flow(a, p).len(),
        shown_under(a, flow(a, p)[k], d),
    ensures
        node_at(a_placed, d).rect == node_at(b_placed, d).rect,
    decreases d.index,
{
    let c = flow(a, p)[k];
    let rect = node_at(a_placed, p).rect;
    assert(shown(a, p)[k] == c);
    assert(shown(b, p)[k] == c);
    shown_member(a, a_roots, p, k);
    shown_member(b, b_roots, p, k);
    assert(same_subtree(a, b, c));
    if d == c {
        outside_flow_rect(a, b, a_roots, m, p, rect, scale, k);
        assert(shown_under(a, p, p) && shown_under(b, p, p));
        assert(placed(a, a_placed, m, p, scale) && placed(b, b_placed, m, p, scale));
        assert(node_at(a_placed, shown(a, p)[k]).rect == child_rect(a, m, p, rect, scale, k));
        assert(node_at(b_placed, shown(b, p)[k]).rect == child_rect(b, m, p, rect, scale, k));
    } else {
        let q = node_at(a, d).parent->0;
        what_is_outside_moves_nothing_in_the_flow(
            a,
            a_roots,
            a_placed,
            b,
            b_roots,
            b_placed,
            m,
            p,
            scale,
            k,
            q,
        );
        shown_is_below(a, c, q);
        shown_in_both(a, b, c, q);
        shown_under_parent(a, p, c, q);
        shown_under_parent(b, p, c, q);
        shared_children(a, b, a_roots, c, q);
        let i = shown_complete(a, a_roots, q, d);
        let at = node_at(a_placed, q).rect;
        shared_child_rect(a, b, a_roots, c, m, q, at, scale, i);
        assert(placed(a, a_placed, m, q, scale) && placed(b, b_placed, m, q, scale));
        assert(node_at(a_placed, shown(a, q)[i]).rect == child_rect(a, m, q, at, scale, i));
        assert(node_at(b_placed, shown(b, q)[i]).rect == child_rect(b, m, q, at, scale, i));
    }
}

proof fn outside_flow_rect<N: Num, M: Measurer<N>>(
    a: Seq<Option<Node<N>>>,
    b: Seq<Option<Node<N>>>,
    roots: Seq<NodeId>,
    m: &M,
    p: NodeId,
    rect: [N; 4],
    scale: N,
    i: int,
)
    requires
        forest(a, roots),
        same_but_outside(a, b, p),
        0 <= i < flow(a, p).len(),
    ensures
        flow_rect(a, m, p, rect, scale, i) == flow_rect(b, m, p, rect, scale, i),
{
    let f = flow(a, p);
    let scope = |id: NodeId|
        exists|k: int| 0 <= k < f.len() && descends(a, #[trigger] f[k], id.index as int);
    assert forall|id: NodeId| #[trigger] scope(id) implies flows_alike(a, b, id) by {
        let k = choose|k: int| 0 <= k < f.len() && descends(a, #[trigger] f[k], id.index as int);
        assert(same_subtree(a, b, f[k]));
        shared_children(a, b, roots, f[k], id);
    }
    assert forall|id: NodeId, j: int| scope(id) && 0 <= j < flow(a, id).len() implies scope(
        #[trigger] flow(a, id)[j],
    ) by {
        let k = choose|k: int| 0 <= k < f.len() && descends(a, #[trigger] f[k], id.index as int);
        assert(same_subtree(a, b, f[k]));
        shared_children(a, b, roots, f[k], id);
        assert(descends(a, f[k], flow(a, id)[j].index as int));
    }
    assert(alike_on(a, b, scope));
    assert forall|k: int| 0 <= k < f.len() implies scope(#[trigger] flow(a, p)[k]) by {
        assert(same_subtree(a, b, f[k]));
        assert(descends(a, f[k], f[k].index as int));
    }
    same_flow_rect(a, b, scope, m, p, rect, scale, i);
}

/// A visible child outside the flow lies at its own offset from the content
/// box of its parent, whatever else is there.
pub proof fn absolute_children_hang_from_the_content_box<N: Num, M: Measurer<N>>(
    before: Seq<Option<Node<N>>>,
    after: Seq<Option<Node<N>>>,
    m: &M,
    p: NodeId,
    scale: N,
    j: int,
)
    requires
        live(before, p),
        all_placed(before, after, m, p, scale),
        0 <= j < floating(before, p).len(),
    ensures
        ({
            let style = node_at(before, p).layout;
            let rect = node_at(after, p).rect;
            let c = floating(before, p)[j];
            let abs = node_at(before, c).layout.abs->0;
            &&& node_at(before, c).layout.abs is Some
            &&& node_at(after, c).rect[0] == rect[0].sum(style.padding[0].product(scale)).sum(
                abs[0].product(scale),
            )
            &&& node_at(after, c).rect[1] == rect[1].sum(style.padding[1].product(scale)).sum(
                abs[1].product(scale),
            )
        }),
{
    let kids = node_at(before, p).children@;
    let i = flow(before, p).len() + j;
    floating_member(before, kids, kids.len(), j);
    assert(shown(before, p)[i] == floating(before, p)[j]);
    assert(shown_under(before, p, p));
    assert(placed(before, after, m, p, scale));
    assert(node_at(after, shown(before, p)[i]).rect == child_rect(
        before,
        m,
        p,
        node_at(after, p).rect,
        scale,
        i,
    ));
}

/// Node `i` is below one child of a node only.
proof fn below_one_child<N>(nodes: Seq<Option<Node<N>>>, p: NodeId, x: NodeId, y: NodeId, i: int)
    requires
        x != y,
        live(nodes, x),
        live(nodes, y),
        node_at(nodes, x).parent == Some(p),
        node_at(nodes, y).parent == Some(p),
        p.index < x.index,
        p.index < y.index,
        descends(nodes, x, i),
    ensures
        !descends(nodes, y, i),
    decreases i,
{
    if descends(nodes, y, i) {
        if i == x.index {
            below_is_after(nodes, y, p.index as int);
        } else if i == y.index {
            below_is_after(nodes, x, p.index as int);
        } else {
            below_one_child(nodes, p, x, y, nodes[i]->0.parent->0.index as int);
        }
    }
}

proof fn below_is_after<N>(nodes: Seq<Option<Node<N>>>, top: NodeId, i: int)
    requires
        descends(nodes, top, i),
    ensures
        top.index <= i,
    decreases i,
{
    if i != top.index {
        below_is_after(nodes, top, nodes[i]->0.parent->0.index as int);
    }
}

/// Taking children out that are outside the flow, with all below them, changes
/// only what is outside the flow.
pub proof fn removal_outside_the_flow_stays_outside<N>(
    a: Seq<Option<Node<N>>>,
    roots: Seq<NodeId>,
    b: Seq<Option<Node<N>>>,
    p: NodeId,
    tops: Seq<NodeId>,
)
    requires
        forest(a, roots),
        live(a, p),
        subtrees_removed(a, b, tops),
        forall|t: int|
            0 <= t < tops.len() ==> live(a, #[trigger] tops[t]) && node_at(a, tops[t]).parent
                == Some(p) && !in_flow(node_at(a, tops[t])),
    ensures
        same_but_outside(a, b, p),
{
    let n = tops.len() as int;
    forest_size(a, roots);
    assert forall|t: int| 0 <= t < tops.len() implies p.index < (#[trigger] tops[t]).index by {
        assert(live(a, tops[t]));
        forest_parent(a, roots, tops[t]);
    }
    assert(!below_any(a, tops, n, p.index as int)) by {
        if below_any(a, tops, n, p.index as int) {
            let t = choose|t: int| 0 <= t < n && descends(a, #[trigger] tops[t], p.index as int);
            below_is_after(a, tops[t], p.index as int);
        }
    }
    assert(survives(a[p.index as int], b[p.index as int], false, b));
    let kids = node_at(a, p).children@;
    let f = flow(a, p);
    assert forall|k: int| 0 <= k < kids.len() implies live(a, #[trigger] kids[k]) && node_at(
        a,
        kids[k],
    ).parent == Some(p) && p.index < kids[k].index && (flows(a, kids[k]) ==> same_subtree(
        a,
        b,
        kids[k],
    )) && (live(b, kids[k]) ==> node_at(b, kids[k]) == (Node {
        children: node_at(b, kids[k]).children,
        ..node_at(a, kids[k])
    })) by {
        forest_child(a, roots, p, k);
        let c = kids[k];
        assert(survives(
            a[c.index as int],
            b[c.index as int],
            below_any(a, tops, n, c.index as int),
            b,
        ));
        if flows(a, c) {
            removal_spares_the_subtree(a, roots, b, p, tops, c);
        }
    }
    assert(f == flow(b, p)) by {
        flow_after_removal(a, b, kids, kids.len());
        assert(node_at(b, p).children@ == still_there(kids, b));
        assert(kids.take(kids.len() as int) =~= kids);
    }
    assert forall|k: int| 0 <= k < f.len() implies same_subtree(a, b, #[trigger] f[k]) by {
        flow_member(a, kids, kids.len(), k);
        let j = choose|j: int| 0 <= j < kids.len() && #[trigger] kids[j] == f[k];
        assert(flows(a, kids[j]));
    }
}

proof fn removal_spares_the_subtree<N>(
    a: Seq<Option<Node<N>>>,
    roots: Seq<NodeId>,
    b: Seq<Option<Node<N>>>,
    p: NodeId,
    tops: Seq<NodeId>,
    c: NodeId,
)
    requires
        forest(a, roots),
        subtrees_removed(a, b, tops),
        forall|t: int|
            0 <= t < tops.len() ==> live(a, #[trigger] tops[t]) && node_at(a, tops[t]).parent
                == Some(p) && !in_flow(node_at(a, tops[t])) && p.index < tops[t].index,
        flows(a, c),
        node_at(a, c).parent == Some(p),
        p.index < c.index,
    ensures
        same_subtree(a, b, c),
{
    let n = tops.len() as int;
    assert forall|i: int| #[trigger] descends(a, c, i) implies !below_any(a, tops, n, i) by {
        if below_any(a, tops, n, i) {
            let t = choose|t: int| 0 <= t < n && descends(a, #[trigger] tops[t], i);
            assert(live(a, tops[t]));
            below_one_child(a, p, c, tops[t], i);
        }
    }
    assert forall|i: int| #[trigger] descends(a, c, i) implies i < b.len() && same_node(
        a[i],
        b[i],
    ) by {
        assert(survives(a[i], b[i], below_any(a, tops, n, i), b));
        forest_size(a, roots);
        let id = NodeId { index: i as u32 };
        let kids = a[i]->0.children@;
        assert(live(a, id));
        assert forall|k: int| 0 <= k < kids.len() implies live(b, #[trigger] kids[k]) by {
            forest_child(a, roots, id, k);
            let j = kids[k].index as int;
            assert(descends(a, c, j));
            assert(survives(a[j], b[j], below_any(a, tops, n, j), b));
        }
        all_still_there(kids, b);
    }
}

proof fn flow_after_removal<N>(
    a: Seq<Option<Node<N>>>,
    b: Seq<Option<Node<N>>>,
    kids: Seq<NodeId>,
    n: nat,
)
    requires
        n <= kids.len(),
        forall|k: int|
            0 <= k < kids.len() ==> live(a, #[trigger] kids[k]) && (flows(a, kids[k]) ==> live(
                b,
                kids[k],
            )) && (live(b, kids[k]) ==> in_flow(node_at(b, kids[k])) == in_flow(
                node_at(a, kids[k]),
            )),
    ensures
        ({
            let left = still_there(kids.take(n as int), b);
            flow_among(b, left, left.len()) == flow_among(a, kids, n)
        }),
    decreases n,
{
    if n > 0 {
        let short = kids.take(n - 1);
        let upto = kids.take(n as int);
        flow_after_removal(a, b, kids, (n - 1) as nat);
        assert(upto.drop_last() =~= short);
        assert(upto.last() == kids[n - 1]);
        let left = still_there(short, b);
        let c = kids[n - 1];
        assert(live(a, c));
        if live(b, c) {
            let more = left.push(c);
            flow_of_prefix(b, left, more, left.len());
        }
    }
}

} // verus!
