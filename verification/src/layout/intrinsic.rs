//! Sizes that follow from content.
use vstd::prelude::*;

use crate::layout::measure::Measurer;
use crate::layout::style::{Axis, LayoutStyle, Len};
use crate::node::tree::{
    forest, forest_child, forest_parent, forest_size, live, node_at, Node, NodeTree, TextContent,
};
use crate::node::NodeId;
use crate::num::{distinct_below, zero, Num};

verus! {

/// The component of a size along an axis.
pub open spec fn along<N>(axis: Axis, size: [N; 2]) -> N {
    match axis {
        Axis::Row => size[0],
        Axis::Col => size[1],
    }
}

/// The requested length along an axis.
pub open spec fn len_along<N>(style: LayoutStyle<N>, axis: Axis) -> Len<N> {
    match axis {
        Axis::Row => style.width,
        Axis::Col => style.height,
    }
}

/// Size of a text, in physical pixels.
pub open spec fn text_extent<N: Num, M: Measurer<N>>(
    m: &M,
    t: TextContent<N>,
    scale: N,
) -> [N; 2] {
    let size = t.font_size.product(scale);
    let line = t.line_height.product(scale);
    match t.max_width {
        Some(w) => m.text_size_within(t.content@, size, line, w.product(scale)),
        None => m.text_size(t.content@, size, line),
    }
}

/// The node takes part in the flow of its parent.
pub open spec fn in_flow<N>(n: Node<N>) -> bool {
    n.visible && n.layout.abs is None
}

/// The node is placed at an offset of its own.
pub open spec fn out_of_flow<N>(n: Node<N>) -> bool {
    n.visible && n.layout.abs is Some
}

/// The flow children among the first `n` of `kids`, in order.
pub open spec fn flow_among<N>(nodes: Seq<Option<Node<N>>>, kids: Seq<NodeId>, n: nat) -> Seq<
    NodeId,
>
    decreases n,
{
    if n == 0 {
        Seq::empty()
    } else {
        let before = flow_among(nodes, kids, (n - 1) as nat);
        if live(nodes, kids[n - 1]) && in_flow(node_at(nodes, kids[n - 1])) {
            before.push(kids[n - 1])
        } else {
            before
        }
    }
}

/// The flow children of a node, in order.
pub open spec fn flow<N>(nodes: Seq<Option<Node<N>>>, p: NodeId) -> Seq<NodeId> {
    flow_among(nodes, node_at(nodes, p).children@, node_at(nodes, p).children@.len())
}

/// Padding on both sides along an axis.
pub open spec fn pad_along<N: Num>(style: LayoutStyle<N>, axis: Axis, scale: N) -> N {
    match axis {
        Axis::Row => style.padding[0].sum(style.padding[2]).product(scale),
        Axis::Col => style.padding[1].sum(style.padding[3]).product(scale),
    }
}

/// The gaps between `count` flow children.
pub open spec fn gaps<N: Num>(style: LayoutStyle<N>, count: nat, scale: N) -> N {
    if count > 1 {
        style.gap.product(scale).product(N::natural((count - 1) as u64))
    } else {
        zero()
    }
}

/// Size of the content of a node along an axis: the text, or the flow
/// children one after the other along the node's own axis, or the largest of
/// them across it; with the padding.
pub open spec fn content_extent<N: Num, M: Measurer<N>>(
    nodes: Seq<Option<Node<N>>>,
    m: &M,
    id: NodeId,
    probe: Axis,
    avail: N,
    scale: N,
) -> N
    decreases nodes.len() - id.index, 1nat, 0nat,
{
    if !live(nodes, id) {
        zero()
    } else {
        let n = node_at(nodes, id);
        let pad = pad_along(n.layout, probe, scale);
        let f = flow(nodes, id);
        match n.text {
            Some(t) => along(probe, text_extent(m, t, scale)),
            None => if f.len() == 0 {
                pad
            } else if n.layout.axis == probe {
                items_sum(nodes, m, id, f, f.len(), probe, avail, scale).sum(
                    gaps(n.layout, f.len(), scale),
                ).sum(pad)
            } else {
                items_max(nodes, m, id, f, f.len(), probe, avail, scale).sum(pad)
            },
        }
    }
}

/// What one flow child asks for along an axis.
pub open spec fn item_extent<N: Num, M: Measurer<N>>(
    nodes: Seq<Option<Node<N>>>,
    m: &M,
    p: NodeId,
    c: NodeId,
    probe: Axis,
    avail: N,
    scale: N,
) -> N
    decreases nodes.len() - p.index, 0nat, 0nat,
{
    match len_along(node_at(nodes, c).layout, probe) {
        Len::Px(v) => v.product(scale),
        Len::Pct(v) => v.product(avail),
        Len::Fr(_) => zero(),
        Len::Fill => zero(),
        Len::Auto => if p.index < c.index && live(nodes, c) {
            content_extent(nodes, m, c, probe, avail, scale)
        } else {
            zero()
        },
    }
}

/// The first `n` flow children added up.
pub open spec fn items_sum<N: Num, M: Measurer<N>>(
    nodes: Seq<Option<Node<N>>>,
    m: &M,
    p: NodeId,
    f: Seq<NodeId>,
    n: nat,
    probe: Axis,
    avail: N,
    scale: N,
) -> N
    decreases nodes.len() - p.index, 0nat, n,
{
    if n == 0 {
        zero()
    } else {
        items_sum(nodes, m, p, f, (n - 1) as nat, probe, avail, scale).sum(
            item_extent(nodes, m, p, f[n - 1], probe, avail, scale),
        )
    }
}

/// The largest of the first `n` flow children, and at least zero.
pub open spec fn items_max<N: Num, M: Measurer<N>>(
    nodes: Seq<Option<Node<N>>>,
    m: &M,
    p: NodeId,
    f: Seq<NodeId>,
    n: nat,
    probe: Axis,
    avail: N,
    scale: N,
) -> N
    decreases nodes.len() - p.index, 0nat, n,
{
    if n == 0 {
        zero()
    } else {
        let best = items_max(nodes, m, p, f, (n - 1) as nat, probe, avail, scale);
        let v = item_extent(nodes, m, p, f[n - 1], probe, avail, scale);
        if best.below(v) {
            v
        } else {
            best
        }
    }
}

/// Size of the content of a node along an axis; nothing when it is hidden.
pub open spec fn intrinsic<N: Num, M: Measurer<N>>(
    nodes: Seq<Option<Node<N>>>,
    m: &M,
    id: NodeId,
    probe: Axis,
    avail: N,
    scale: N,
) -> N {
    if live(nodes, id) && node_at(nodes, id).visible {
        content_extent(nodes, m, id, probe, avail, scale)
    } else {
        zero()
    }
}

/// A flow child is a live child that takes part in the flow.
pub(crate) proof fn flow_member<N>(nodes: Seq<Option<Node<N>>>, kids: Seq<NodeId>, n: nat, i: int)
    requires
        n <= kids.len(),
        0 <= i < flow_among(nodes, kids, n).len(),
    ensures
        exists|k: int| 0 <= k < n && #[trigger] kids[k] == flow_among(nodes, kids, n)[i],
        live(nodes, flow_among(nodes, kids, n)[i]),
        in_flow(node_at(nodes, flow_among(nodes, kids, n)[i])),
    decreases n,
{
    let before = flow_among(nodes, kids, (n - 1) as nat);
    if i < before.len() {
        flow_member(nodes, kids, (n - 1) as nat, i);
        let k = choose|k: int| 0 <= k < n - 1 && #[trigger] kids[k] == before[i];
        assert(kids[k] == flow_among(nodes, kids, n)[i]);
    } else {
        assert(kids[n - 1] == flow_among(nodes, kids, n)[i]);
    }
}

/// Collects the flow children of a node.
pub fn flow_children<N: Num>(tree: &NodeTree<N>, p: NodeId) -> (r: Vec<NodeId>)
    requires
        tree.wf(),
        live(tree.nodes(), p),
    ensures
        r@ == flow(tree.nodes(), p),
        r@.len() <= u32::MAX,
{
    let mut out: Vec<NodeId> = Vec::new();
    if let Some(n) = tree.get(p) {
        let mut i: usize = 0;
        while i < n.children.len()
            invariant
                i <= n.children@.len(),
                n.children@ == node_at(tree.nodes(), p).children@,
                out@ == flow_among(tree.nodes(), n.children@, i as nat),
                out@.len() <= i,
            decreases n.children@.len() - i,
        {
            let c: NodeId = n.children[i];
            if let Some(cn) = tree.get(c) {
                if cn.visible && cn.layout.abs.is_none() {
                    out.push(c);
                }
            }
            i += 1;
        }
        proof {
            forest_size(tree.nodes(), tree.root_ids());
            children_count(tree.nodes(), tree.root_ids(), p);
        }
    }
    out
}

/// A node has fewer children than the tree has nodes.
pub(crate) proof fn children_count<N>(nodes: Seq<Option<Node<N>>>, roots: Seq<NodeId>, p: NodeId)
    requires
        forest(nodes, roots),
        live(nodes, p),
    ensures
        node_at(nodes, p).children@.len() <= nodes.len(),
{
    let kids = node_at(nodes, p).children@;
    let at = Seq::new(kids.len(), |k: int| kids[k].index as int);
    forest_parent(nodes, roots, p);
    assert forall|i: int, j: int| 0 <= i < at.len() && 0 <= j < at.len() && i != j implies at[i]
        != at[j] by {
        assert(kids[i] != kids[j]);
    }
    assert forall|i: int| 0 <= i < at.len() implies 0 <= #[trigger] at[i] < nodes.len() by {
        forest_child(nodes, roots, p, i);
    }
    distinct_below(at, nodes.len() as int);
}

/// Component of a size along an axis.
pub fn pick<N: Num>(axis: Axis, size: [N; 2]) -> (r: N)
    ensures
        r == along(axis, size),
{
    match axis {
        Axis::Row => size[0],
        Axis::Col => size[1],
    }
}

/// Requested length along an axis.
pub fn pick_len<N: Num>(style: &LayoutStyle<N>, axis: Axis) -> (r: Len<N>)
    ensures
        r == len_along(*style, axis),
{
    match axis {
        Axis::Row => style.width,
        Axis::Col => style.height,
    }
}

/// Measures the text of a node.
pub fn measure<N: Num, M: Measurer<N>>(m: &M, t: &TextContent<N>, scale: N) -> (r: [N; 2])
    ensures
        r == text_extent(m, *t, scale),
{
    let size: N = t.font_size.times(scale);
    let line: N = t.line_height.times(scale);
    match t.max_width {
        Some(w) => m.measure_text_constrained(t.content.as_str(), size, line, w.times(scale)),
        None => m.measure_text(t.content.as_str(), size, line),
    }
}

/// The gaps between `count` flow children.
pub fn gap_total<N: Num>(style: &LayoutStyle<N>, count: usize, scale: N) -> (r: N)
    ensures
        r == gaps(*style, count as nat, scale),
{
    if count > 1 {
        style.gap.times(scale).times(N::of_u64((count - 1) as u64))
    } else {
        N::of_ratio(0, 1)
    }
}

/// Size of the content of a node along an axis, hidden or not.
pub fn intrinsic_main_from_node<N: Num, M: Measurer<N>>(
    tree: &NodeTree<N>,
    id: NodeId,
    probe: Axis,
    avail: N,
    m: &M,
    scale: N,
) -> (r: N)
    requires
        tree.wf(),
    ensures
        r == content_extent(tree.nodes(), m, id, probe, avail, scale),
    decreases tree.nodes().len() - id.index,
{
    let n: &Node<N> = match tree.get(id) {
        Some(n) => n,
        None => {
            return N::of_ratio(0, 1);
        },
    };
    if let Some(t) = &n.text {
        return pick(probe, measure(m, t, scale));
    }
    let pad: N = match probe {
        Axis::Row => n.layout.padding[0].plus(n.layout.padding[2]).times(scale),
        Axis::Col => n.layout.padding[1].plus(n.layout.padding[3]).times(scale),
    };
    let f: Vec<NodeId> = flow_children(tree, id);
    if f.len() == 0 {
        return pad;
    }
    let summing: bool = n.layout.axis == probe;
    let mut acc: N = N::of_ratio(0, 1);
    let mut i: usize = 0;
    while i < f.len()
        invariant
            i <= f@.len(),
            f@ == flow(tree.nodes(), id),
            tree.wf(),
            live(tree.nodes(), id),
            summing ==> acc == items_sum(tree.nodes(), m, id, f@, i as nat, probe, avail, scale),
            !summing ==> acc == items_max(tree.nodes(), m, id, f@, i as nat, probe, avail, scale),
        decreases f@.len() - i,
    {
        let c: NodeId = f[i];
        proof {
            let kids = node_at(tree.nodes(), id).children@;
            flow_member(tree.nodes(), kids, kids.len(), i as int);
            let k = choose|k: int| 0 <= k < kids.len() && #[trigger] kids[k] == c;
            forest_child(tree.nodes(), tree.root_ids(), id, k);
        }
        let v: N = match tree.get(c) {
            Some(cn) => match pick_len(&cn.layout, probe) {
                Len::Px(v) => v.times(scale),
                Len::Pct(v) => v.times(avail),
                Len::Fr(_) => N::of_ratio(0, 1),
                Len::Fill => N::of_ratio(0, 1),
                Len::Auto => intrinsic_main_from_node(tree, c, probe, avail, m, scale),
            },
            None => N::of_ratio(0, 1),
        };
        assert(v == item_extent(tree.nodes(), m, id, c, probe, avail, scale));
        if summing {
            acc = acc.plus(v);
        } else if acc.lt(v) {
            acc = v;
        }
        i += 1;
    }
    if summing {
        acc.plus(gap_total(&n.layout, f.len(), scale)).plus(pad)
    } else {
        acc.plus(pad)
    }
}

/// Size of the content of a node along an axis; nothing when it is hidden.
pub fn intrinsic_main<N: Num, M: Measurer<N>>(
    tree: &NodeTree<N>,
    id: NodeId,
    probe: Axis,
    avail: N,
    m: &M,
    scale: N,
) -> (r: N)
    requires
        tree.wf(),
    ensures
        r == intrinsic(tree.nodes(), m, id, probe, avail, scale),
{
    match tree.get(id) {
        Some(n) => if n.visible {
            intrinsic_main_from_node(tree, id, probe, avail, m, scale)
        } else {
            N::of_ratio(0, 1)
        },
        None => N::of_ratio(0, 1),
    }
}

} // verus!
