//! Rectangles of the children of one container.
use vstd::prelude::*;

use crate::layout::intrinsic::{
    flow, flow_among, flow_children, flow_member, in_flow, intrinsic, intrinsic_main, out_of_flow,
};
use crate::layout::line::{
    across, align_offset, aligned, distribute, line_of, resolve_cross_size, start_of, MainLine,
};
use crate::layout::measure::Measurer;
use crate::layout::style::{Axis, LayoutStyle, Len};
use crate::node::tree::{
    forest, forest_child, forest_parent, live, node_at, Node, NodeTree, ScrollState,
};
use crate::node::NodeId;
use crate::num::{clamp, held, zero, Num};

verus! {

/// The content box: the rectangle without its padding.
pub open spec fn content_box<N: Num>(rect: [N; 4], style: LayoutStyle<N>, scale: N) -> [N; 4] {
    let l = style.padding[0].product(scale);
    let t = style.padding[1].product(scale);
    let r = style.padding[2].product(scale);
    let b = style.padding[3].product(scale);
    [
        rect[0].sum(l),
        rect[1].sum(t),
        rect[2].difference(l).difference(r).larger(zero()),
        rect[3].difference(t).difference(b).larger(zero()),
    ]
}

/// Origin and size of a box along an axis.
pub open spec fn on_axis<N>(axis: Axis, b: [N; 4]) -> (N, N) {
    match axis {
        Axis::Row => (b[0], b[2]),
        Axis::Col => (b[1], b[3]),
    }
}

/// Origin and size of a box across an axis.
pub open spec fn off_axis<N>(axis: Axis, b: [N; 4]) -> (N, N) {
    match axis {
        Axis::Row => (b[1], b[3]),
        Axis::Col => (b[0], b[2]),
    }
}

/// The children among the first `n` of `kids` that are placed at offsets of
/// their own, in order.
pub open spec fn floating_among<N>(nodes: Seq<Option<Node<N>>>, kids: Seq<NodeId>, n: nat) -> Seq<
    NodeId,
>
    decreases n,
{
    if n == 0 {
        Seq::empty()
    } else {
        let before = floating_among(nodes, kids, (n - 1) as nat);
        if live(nodes, kids[n - 1]) && out_of_flow(node_at(nodes, kids[n - 1])) {
            before.push(kids[n - 1])
        } else {
            before
        }
    }
}

/// The children of a node that are placed at offsets of their own.
pub open spec fn floating<N>(nodes: Seq<Option<Node<N>>>, p: NodeId) -> Seq<NodeId> {
    floating_among(nodes, node_at(nodes, p).children@, node_at(nodes, p).children@.len())
}

/// The visible children of a node: those in the flow, then the others.
pub open spec fn shown<N>(nodes: Seq<Option<Node<N>>>, p: NodeId) -> Seq<NodeId> {
    flow(nodes, p) + floating(nodes, p)
}

/// Rectangle of the flow child at `i` of a container at `rect`.
pub open spec fn flow_rect<N: Num, M: Measurer<N>>(
    nodes: Seq<Option<Node<N>>>,
    m: &M,
    p: NodeId,
    rect: [N; 4],
    scale: N,
    i: int,
) -> [N; 4] {
    let style = node_at(nodes, p).layout;
    let f = flow(nodes, p);
    let b = content_box(rect, style, scale);
    let (origin, main) = on_axis(style.axis, b);
    let (cross_origin, cross) = off_axis(style.axis, b);
    let line = line_of(nodes, m, f, style, origin, main, cross, scale);
    let size = across(nodes, m, f[i], style, cross, scale);
    let at = start_of(line, i as nat);
    let off = cross_origin.sum(aligned(style.align, cross, size));
    match style.axis {
        Axis::Row => [at, off, line.sizes[i], size],
        Axis::Col => [off, at, size, line.sizes[i]],
    }
}

/// A length of a child outside the flow, in a content box of size `avail`.
pub open spec fn floating_len<N: Num, M: Measurer<N>>(
    nodes: Seq<Option<Node<N>>>,
    m: &M,
    c: NodeId,
    len: Len<N>,
    axis: Axis,
    avail: N,
    other: N,
    scale: N,
) -> N {
    match len {
        Len::Px(v) => v.product(scale),
        Len::Pct(v) => v.product(avail),
        Len::Fr(_) => avail,
        Len::Fill => avail,
        Len::Auto => intrinsic(nodes, m, c, axis, other, scale),
    }
}

/// The offset of a child outside the flow.
pub open spec fn offset_of<N: Num>(style: LayoutStyle<N>) -> [N; 2] {
    match style.abs {
        Some(a) => a,
        None => [zero(), zero()],
    }
}

/// Rectangle of a child outside the flow, in the content box `b`.
pub open spec fn floating_rect<N: Num, M: Measurer<N>>(
    nodes: Seq<Option<Node<N>>>,
    m: &M,
    c: NodeId,
    b: [N; 4],
    scale: N,
) -> [N; 4] {
    let style = node_at(nodes, c).layout;
    let off = offset_of(style);
    [
        b[0].sum(off[0].product(scale)),
        b[1].sum(off[1].product(scale)),
        floating_len(nodes, m, c, style.width, Axis::Row, b[2], b[3], scale),
        floating_len(nodes, m, c, style.height, Axis::Col, b[3], b[2], scale),
    ]
}

/// Rectangle of the visible child at `i` of a container at `rect`.
pub open spec fn child_rect<N: Num, M: Measurer<N>>(
    nodes: Seq<Option<Node<N>>>,
    m: &M,
    p: NodeId,
    rect: [N; 4],
    scale: N,
    i: int,
) -> [N; 4] {
    if i < flow(nodes, p).len() {
        flow_rect(nodes, m, p, rect, scale, i)
    } else {
        floating_rect(
            nodes,
            m,
            shown(nodes, p)[i],
            content_box(rect, node_at(nodes, p).layout, scale),
            scale,
        )
    }
}

/// The farthest right and lower edges of the first `n` visible children,
/// and at least the origin of the content box.
pub open spec fn reach<N: Num, M: Measurer<N>>(
    nodes: Seq<Option<Node<N>>>,
    m: &M,
    p: NodeId,
    rect: [N; 4],
    scale: N,
    n: nat,
) -> [N; 2]
    decreases n,
{
    if n == 0 {
        let b = content_box(rect, node_at(nodes, p).layout, scale);
        [b[0], b[1]]
    } else {
        let before = reach(nodes, m, p, rect, scale, (n - 1) as nat);
        let r = child_rect(nodes, m, p, rect, scale, n - 1);
        [before[0].larger(r[0].sum(r[2])), before[1].larger(r[1].sum(r[3]))]
    }
}

/// Extent of the content of a container: as far as its children reach, with
/// the padding behind them; a virtualized list is as high as all its rows.
pub open spec fn content_size_of<N: Num, M: Measurer<N>>(
    nodes: Seq<Option<Node<N>>>,
    m: &M,
    p: NodeId,
    rect: [N; 4],
    scale: N,
) -> [N; 2] {
    let n = node_at(nodes, p);
    let far = reach(nodes, m, p, rect, scale, shown(nodes, p).len());
    [
        far[0].difference(rect[0]).sum(n.layout.padding[2].product(scale)),
        match n.lazy_list {
            Some(ll) => ll.total_height().product(scale),
            None => far[1].difference(rect[1]).sum(n.layout.padding[3].product(scale)),
        },
    ]
}

/// A scroll state brought back into the range of its content, unless it may
/// leave it. The scale is noted.
pub open spec fn rescrolled<N: Num>(
    scroll: Option<ScrollState<N>>,
    content: [N; 2],
    rect: [N; 4],
    scale: N,
) -> Option<ScrollState<N>> {
    match scroll {
        Some(s) => if s.overscroll {
            Some(ScrollState { scale, ..s })
        } else {
            let mx = content[0].difference(rect[2]).larger(zero());
            let my = content[1].difference(rect[3]).larger(zero());
            Some(
                ScrollState {
                    target: [held(s.target[0], zero(), mx), held(s.target[1], zero(), my)],
                    current: [held(s.current[0], zero(), mx), held(s.current[1], zero(), my)],
                    scale,
                    ..s
                },
            )
        },
        None => None,
    }
}

/// A child outside the flow is a live child placed at an offset of its own.
pub(crate) proof fn floating_member<N>(nodes: Seq<Option<Node<N>>>, kids: Seq<NodeId>, n: nat, i: int)
    requires
        n <= kids.len(),
        0 <= i < floating_among(nodes, kids, n).len(),
    ensures
        exists|k: int| 0 <= k < n && #[trigger] kids[k] == floating_among(nodes, kids, n)[i],
        live(nodes, floating_among(nodes, kids, n)[i]),
        out_of_flow(node_at(nodes, floating_among(nodes, kids, n)[i])),
    decreases n,
{
    let before = floating_among(nodes, kids, (n - 1) as nat);
    if i < before.len() {
        floating_member(nodes, kids, (n - 1) as nat, i);
        let k = choose|k: int| 0 <= k < n - 1 && #[trigger] kids[k] == before[i];
        assert(kids[k] == floating_among(nodes, kids, n)[i]);
    } else {
        assert(kids[n - 1] == floating_among(nodes, kids, n)[i]);
    }
}

/// A visible child is live, visible, and names its parent.
pub(crate) proof fn shown_member<N>(
    nodes: Seq<Option<Node<N>>>,
    roots: Seq<NodeId>,
    p: NodeId,
    i: int,
)
    requires
        forest(nodes, roots),
        live(nodes, p),
        0 <= i < shown(nodes, p).len(),
    ensures
        live(nodes, shown(nodes, p)[i]),
        node_at(nodes, shown(nodes, p)[i]).visible,
        node_at(nodes, shown(nodes, p)[i]).parent == Some(p),
        p.index < shown(nodes, p)[i].index,
{
    let kids = node_at(nodes, p).children@;
    let f = flow(nodes, p);
    let c = shown(nodes, p)[i];
    if i < f.len() {
        flow_member(nodes, kids, kids.len(), i);
        let k = choose|k: int| 0 <= k < kids.len() && #[trigger] kids[k] == f[i];
        forest_child(nodes, roots, p, k);
    } else {
        floating_member(nodes, kids, kids.len(), i - f.len());
        let k = choose|k: int|
            0 <= k < kids.len() && #[trigger] kids[k] == floating(nodes, p)[i - f.len()];
        forest_child(nodes, roots, p, k);
    }
}

proof fn flow_distinct<N>(nodes: Seq<Option<Node<N>>>, kids: Seq<NodeId>, n: nat)
    requires
        n <= kids.len(),
        kids.no_duplicates(),
    ensures
        flow_among(nodes, kids, n).no_duplicates(),
        floating_among(nodes, kids, n).no_duplicates(),
    decreases n,
{
    if n > 0 {
        flow_distinct(nodes, kids, (n - 1) as nat);
        let f = flow_among(nodes, kids, (n - 1) as nat);
        let g = floating_among(nodes, kids, (n - 1) as nat);
        assert forall|i: int| 0 <= i < f.len() implies f[i] != kids[n - 1] by {
            flow_member(nodes, kids, (n - 1) as nat, i);
        }
        assert forall|i: int| 0 <= i < g.len() implies g[i] != kids[n - 1] by {
            floating_member(nodes, kids, (n - 1) as nat, i);
        }
    }
}

/// No visible child is listed twice.
pub(crate) proof fn shown_distinct<N>(nodes: Seq<Option<Node<N>>>, roots: Seq<NodeId>, p: NodeId)
    requires
        forest(nodes, roots),
        live(nodes, p),
    ensures
        shown(nodes, p).no_duplicates(),
{
    let kids = node_at(nodes, p).children@;
    let f = flow(nodes, p);
    let g = floating(nodes, p);
    forest_parent(nodes, roots, p);
    flow_distinct(nodes, kids, kids.len());
    assert forall|i: int, j: int|
        0 <= i < shown(nodes, p).len() && 0 <= j < shown(nodes, p).len() && i != j implies shown(
        nodes,
        p,
    )[i] != shown(nodes, p)[j] by {
        if i < f.len() {
            flow_member(nodes, kids, kids.len(), i);
        } else {
            floating_member(nodes, kids, kids.len(), i - f.len());
        }
        if j < f.len() {
            flow_member(nodes, kids, kids.len(), j);
        } else {
            floating_member(nodes, kids, kids.len(), j - f.len());
        }
    }
}

proof fn among_contains<N>(nodes: Seq<Option<Node<N>>>, kids: Seq<NodeId>, n: nat, k: int)
    requires
        0 <= k < n <= kids.len(),
        live(nodes, kids[k]),
        node_at(nodes, kids[k]).visible,
    ensures
        flow_among(nodes, kids, n).contains(kids[k]) || floating_among(nodes, kids, n).contains(
            kids[k],
        ),
    decreases n,
{
    let f = flow_among(nodes, kids, (n - 1) as nat);
    let g = floating_among(nodes, kids, (n - 1) as nat);
    if k == n - 1 {
        if in_flow(node_at(nodes, kids[k])) {
            assert(flow_among(nodes, kids, n)[f.len() as int] == kids[k]);
        } else {
            assert(floating_among(nodes, kids, n)[g.len() as int] == kids[k]);
        }
    } else {
        among_contains(nodes, kids, (n - 1) as nat, k);
        if f.contains(kids[k]) {
            let i = f.index_of(kids[k]);
            assert(flow_among(nodes, kids, n)[i] == kids[k]);
        } else {
            let i = g.index_of(kids[k]);
            assert(floating_among(nodes, kids, n)[i] == kids[k]);
        }
    }
}

/// Every visible child is listed.
pub(crate) proof fn shown_complete<N>(
    nodes: Seq<Option<Node<N>>>,
    roots: Seq<NodeId>,
    p: NodeId,
    c: NodeId,
) -> (i: int)
    requires
        forest(nodes, roots),
        live(nodes, p),
        live(nodes, c),
        node_at(nodes, c).visible,
        node_at(nodes, c).parent == Some(p),
    ensures
        0 <= i < shown(nodes, p).len(),
        shown(nodes, p)[i] == c,
{
    let kids = node_at(nodes, p).children@;
    forest_parent(nodes, roots, c);
    let k = kids.index_of(c);
    among_contains(nodes, kids, kids.len(), k);
    let f = flow(nodes, p);
    let g = floating(nodes, p);
    if f.contains(c) {
        let i = f.index_of(c);
        assert(shown(nodes, p)[i] == c);
        i
    } else {
        let i = g.index_of(c);
        assert(shown(nodes, p)[f.len() + i] == c);
        f.len() + i
    }
}

/// Collects the children of a node that are placed at offsets of their own.
pub fn floating_children<N: Num>(tree: &NodeTree<N>, p: NodeId) -> (r: Vec<NodeId>)
    requires
        tree.wf(),
        live(tree.nodes(), p),
    ensures
        r@ == floating(tree.nodes(), p),
{
    let mut out: Vec<NodeId> = Vec::new();
    if let Some(n) = tree.get(p) {
        let mut i: usize = 0;
        while i < n.children.len()
            invariant
                i <= n.children@.len(),
                n.children@ == node_at(tree.nodes(), p).children@,
                out@ == floating_among(tree.nodes(), n.children@, i as nat),
            decreases n.children@.len() - i,
        {
            let c: NodeId = n.children[i];
            if let Some(cn) = tree.get(c) {
                if cn.visible && cn.layout.abs.is_some() {
                    out.push(c);
                }
            }
            i += 1;
        }
    }
    out
}

/// The rectangle without its padding.
pub fn inner_box<N: Num>(rect: [N; 4], style: &LayoutStyle<N>, scale: N) -> (r: [N; 4])
    ensures
        r == content_box(rect, *style, scale),
{
    let z: N = N::of_ratio(0, 1);
    let left: N = style.padding[0].times(scale);
    let top: N = style.padding[1].times(scale);
    let right: N = style.padding[2].times(scale);
    let bottom: N = style.padding[3].times(scale);
    [
        rect[0].plus(left),
        rect[1].plus(top),
        rect[2].minus(left).minus(right).max(z),
        rect[3].minus(top).minus(bottom).max(z),
    ]
}

fn floating_length<N: Num, M: Measurer<N>>(
    tree: &NodeTree<N>,
    m: &M,
    c: NodeId,
    len: Len<N>,
    axis: Axis,
    avail: N,
    other: N,
    scale: N,
) -> (r: N)
    requires
        tree.wf(),
    ensures
        r == floating_len(tree.nodes(), m, c, len, axis, avail, other, scale),
{
    match len {
        Len::Px(v) => v.times(scale),
        Len::Pct(v) => v.times(avail),
        Len::Fr(_) => avail,
        Len::Fill => avail,
        Len::Auto => intrinsic_main(tree, c, axis, other, m, scale),
    }
}

/// A child and the rectangle that its parent gives it.
#[derive(Copy, Clone, Debug)]
pub struct Placement<N> {
    pub node: NodeId,
    pub rect: [N; 4],
}

/// Rectangles of the visible children of a node.
pub fn child_rects<N: Num, M: Measurer<N>>(
    tree: &NodeTree<N>,
    m: &M,
    p: NodeId,
    scale: N,
) -> (r: Vec<Placement<N>>)
    requires
        tree.wf(),
        live(tree.nodes(), p),
    ensures
        r@.len() == shown(tree.nodes(), p).len(),
        forall|i: int|
            0 <= i < r@.len() ==> (#[trigger] r@[i]).node == shown(tree.nodes(), p)[i] && r@[i].rect
                == child_rect(
                tree.nodes(),
                m,
                p,
                node_at(tree.nodes(), p).rect,
                scale,
                i,
            ),
{
    let ghost nodes = tree.nodes();
    let mut out: Vec<Placement<N>> = Vec::new();
    let (rect, style) = match tree.get(p) {
        Some(n) => (n.rect, n.layout),
        None => {
            return out;
        },
    };
    let b: [N; 4] = inner_box(rect, &style, scale);
    let (origin, main, cross_origin, cross) = match style.axis {
        Axis::Row => (b[0], b[2], b[1], b[3]),
        Axis::Col => (b[1], b[3], b[0], b[2]),
    };
    let f: Vec<NodeId> = flow_children(tree, p);
    proof {
        assert forall|i: int| 0 <= i < f@.len() implies live(nodes, #[trigger] f@[i]) by {
            let kids = node_at(nodes, p).children@;
            flow_member(nodes, kids, kids.len(), i);
        }
    }
    let line: MainLine<N> = distribute(tree, m, &f, &style, origin, main, cross, scale);
    let ghost l = line_of(nodes, m, f@, style, origin, main, cross, scale);
    let mut cursor: N = line.start;
    let mut i: usize = 0;
    while i < f.len()
        invariant
            i <= f@.len(),
            tree.wf(),
            nodes == tree.nodes(),
            live(nodes, p),
            rect == node_at(nodes, p).rect,
            style == node_at(nodes, p).layout,
            b == content_box(rect, style, scale),
            (origin, main) == on_axis(style.axis, b),
            (cross_origin, cross) == off_axis(style.axis, b),
            f@ == flow(nodes, p),
            forall|k: int| 0 <= k < f@.len() ==> live(nodes, #[trigger] f@[k]),
            line@ == l,
            l == line_of(nodes, m, f@, style, origin, main, cross, scale),
            i == 0 ==> cursor == l.start,
            i > 0 ==> cursor == start_of(l, (i - 1) as nat).sum(
                l.sizes[i - 1].sum(l.gap).sum(l.between),
            ),
            out@.len() == i,
            forall|k: int|
                0 <= k < i ==> (#[trigger] out@[k]).node == f@[k] && out@[k].rect == flow_rect(
                    nodes,
                    m,
                    p,
                    rect,
                    scale,
                    k,
                ),
        decreases f@.len() - i,
    {
        if i == line.pushed {
            cursor = cursor.plus(line.slack);
        }
        assert(cursor == start_of(l, i as nat));
        let c: NodeId = f[i];
        let main_size: N = line.sizes[i];
        let cross_size: N = resolve_cross_size(tree, m, c, &style, cross, scale);
        let off: N = cross_origin.plus(align_offset(style.align, cross, cross_size));
        let r: [N; 4] = match style.axis {
            Axis::Row => [cursor, off, main_size, cross_size],
            Axis::Col => [off, cursor, cross_size, main_size],
        };
        assert(r == flow_rect(nodes, m, p, rect, scale, i as int));
        out.push(Placement { node: c, rect: r });
        cursor = cursor.plus(main_size.plus(line.gap).plus(line.between));
        i += 1;
    }
    let g: Vec<NodeId> = floating_children(tree, p);
    let mut j: usize = 0;
    while j < g.len()
        invariant
            j <= g@.len(),
            tree.wf(),
            nodes == tree.nodes(),
            live(nodes, p),
            rect == node_at(nodes, p).rect,
            style == node_at(nodes, p).layout,
            b == content_box(rect, style, scale),
            f@ == flow(nodes, p),
            g@ == floating(nodes, p),
            out@.len() == f@.len() + j,
            forall|k: int|
                0 <= k < out@.len() ==> (#[trigger] out@[k]).node == shown(nodes, p)[k]
                    && out@[k].rect == child_rect(nodes, m, p, rect, scale, k),
        decreases g@.len() - j,
    {
        let c: NodeId = g[j];
        proof {
            let kids = node_at(nodes, p).children@;
            floating_member(nodes, kids, kids.len(), j as int);
        }
        if let Some(cn) = tree.get(c) {
            let off: [N; 2] = match cn.layout.abs {
                Some(a) => a,
                None => [N::of_ratio(0, 1), N::of_ratio(0, 1)],
            };
            let w: N = floating_length(
                tree,
                m,
                c,
                cn.layout.width,
                Axis::Row,
                b[2],
                b[3],
                scale,
            );
            let h: N = floating_length(
                tree,
                m,
                c,
                cn.layout.height,
                Axis::Col,
                b[3],
                b[2],
                scale,
            );
            let r: [N; 4] = [
                b[0].plus(off[0].times(scale)),
                b[1].plus(off[1].times(scale)),
                w,
                h,
            ];
            assert(r == floating_rect(nodes, m, c, b, scale));
            out.push(Placement { node: c, rect: r });
        }
        j += 1;
    }
    out
}

/// Extent of the content of a node whose children go to `rects`.
pub fn content_extent_of<N: Num, M: Measurer<N>>(
    tree: &NodeTree<N>,
    m: &M,
    p: NodeId,
    rects: &Vec<Placement<N>>,
    scale: N,
) -> (r: [N; 2])
    requires
        live(tree.nodes(), p),
        rects@.len() == shown(tree.nodes(), p).len(),
        forall|i: int|
            0 <= i < rects@.len() ==> (#[trigger] rects@[i]).rect == child_rect(
                tree.nodes(),
                m,
                p,
                node_at(tree.nodes(), p).rect,
                scale,
                i,
            ),
    ensures
        r == content_size_of(tree.nodes(), m, p, node_at(tree.nodes(), p).rect, scale),
{
    let ghost nodes = tree.nodes();
    match tree.get(p) {
        Some(n) => {
            let rect: [N; 4] = n.rect;
            let b: [N; 4] = inner_box(rect, &n.layout, scale);
            let mut far_x: N = b[0];
            let mut far_y: N = b[1];
            let mut i: usize = 0;
            while i < rects.len()
                invariant
                    i <= rects@.len(),
                    [far_x, far_y] == reach(nodes, m, p, rect, scale, i as nat),
                    forall|k: int|
                        0 <= k < rects@.len() ==> (#[trigger] rects@[k]).rect == child_rect(
                            nodes,
                            m,
                            p,
                            rect,
                            scale,
                            k,
                        ),
                decreases rects@.len() - i,
            {
                let r: [N; 4] = rects[i].rect;
                far_x = far_x.max(r[0].plus(r[2]));
                far_y = far_y.max(r[1].plus(r[3]));
                i += 1;
            }
            let w: N = far_x.minus(rect[0]).plus(n.layout.padding[2].times(scale));
            let h: N = match &n.lazy_list {
                Some(ll) => ll.total_height_logical().times(scale),
                None => far_y.minus(rect[1]).plus(n.layout.padding[3].times(scale)),
            };
            [w, h]
        },
        None => [scale, scale],
    }
}

/// Brings a scroll state back into the range of its content, unless it may
/// leave it, and notes the scale.
pub fn reclamp<N: Num>(
    scroll: Option<ScrollState<N>>,
    content: [N; 2],
    rect: [N; 4],
    scale: N,
) -> (r: Option<ScrollState<N>>)
    ensures
        r == rescrolled(scroll, content, rect, scale),
{
    match scroll {
        Some(s) => if s.overscroll {
            let mut t: ScrollState<N> = s;
            t.scale = scale;
            Some(t)
        } else {
            let z: N = N::of_ratio(0, 1);
            let mx: N = content[0].minus(rect[2]).max(z);
            let my: N = content[1].minus(rect[3]).max(z);
            Some(
                ScrollState {
                    target: [clamp(s.target[0], z, mx), clamp(s.target[1], z, my)],
                    current: [clamp(s.current[0], z, mx), clamp(s.current[1], z, my)],
                    overscroll: s.overscroll,
                    snap_step: s.snap_step,
                    scale,
                    bar_active: s.bar_active,
                    bar_hover: s.bar_hover,
                    bar_alpha: s.bar_alpha,
                },
            )
        },
        None => None,
    }
}

} // verus!
