//! Scrolling of containers.
use vstd::prelude::*;

use crate::node::dirty;
use crate::node::tree::{
    live, node_at, relabel_keeps_forest, with_node, Node, NodeTree, ScrollState,
};
use crate::node::{NodeId, ScrollAxis};
use crate::num::{clamp, held, one, zero, Num, Px};

verus! {

/// How far the content of a node scrolls on each axis.
pub open spec fn scroll_range<N: Num>(n: Node<N>) -> [N; 2] {
    [
        n.content_size[0].difference(n.rect[2]).larger(zero()),
        n.content_size[1].difference(n.rect[3]).larger(zero()),
    ]
}

/// Where content comes to rest that is asked to be at `v`: on the nearest
/// multiple of the step, but at the end of the content where it was asked to
/// be there or beyond. Without a step it rests wherever it reaches.
pub open spec fn snapped<N: Num>(v: N, step: N, max: N) -> N {
    let p = held(v, zero(), max);
    if zero::<N>().below(step) && p.below(max) {
        held(p.quotient(step).rounded().product(step), zero(), max)
    } else {
        p
    }
}

/// Where the target of an axis goes that is asked to be `to`.
pub open spec fn reached<N: Num>(to: N, step: N, max: N, snap: bool) -> N {
    if snap {
        snapped(to, step, max)
    } else {
        held(to, zero(), max)
    }
}

/// A node after its scroll target was asked to be `to`: the target goes
/// there as far as the content reaches, on the axes that scroll, and, with
/// `snap`, to where the content may rest.
pub open spec fn aimed<N: Num>(n: Node<N>, to: [N; 2], snap: bool) -> Node<N> {
    match n.scroll {
        Some(s) => {
            let max = scroll_range(n);
            let tx = if n.layout.overflow_x is Scroll {
                reached(to[0], s.snap_step.product(s.scale), max[0], snap)
            } else {
                s.target[0]
            };
            let ty = if n.layout.overflow_y is Scroll {
                reached(to[1], s.snap_step.product(s.scale), max[1], snap)
            } else {
                s.target[1]
            };
            Node { scroll: Some(ScrollState { target: [tx, ty], ..s }), ..n }
        },
        None => n,
    }
}

/// A node after its scroll target was asked to be `to`, where it may rest.
pub open spec fn retargeted<N: Num>(n: Node<N>, to: [N; 2]) -> Node<N> {
    aimed(n, to, true)
}

/// The movement that a node makes of a requested one.
pub open spec fn absorbed<N: Num>(n: Node<N>, delta: [N; 2], snap: bool) -> [N; 2] {
    match n.scroll {
        Some(s) => {
            let to = aimed(n, [s.target[0].sum(delta[0]), s.target[1].sum(delta[1])], snap);
            [
                if n.layout.overflow_x is Scroll {
                    to.scroll->0.target[0].difference(s.target[0])
                } else {
                    zero()
                },
                if n.layout.overflow_y is Scroll {
                    to.scroll->0.target[1].difference(s.target[1])
                } else {
                    zero()
                },
            ]
        },
        None => [zero(), zero()],
    }
}

/// There is a node that can be scrolled.
pub open spec fn scrolls_at<N>(nodes: Seq<Option<Node<N>>>, id: NodeId) -> bool {
    live(nodes, id) && node_at(nodes, id).scroll is Some
}

/// A node after it took its part of a movement.
pub open spec fn nudged<N: Num>(n: Node<N>, delta: [N; 2], snap: bool) -> Node<N> {
    match n.scroll {
        Some(s) => aimed(n, [s.target[0].sum(delta[0]), s.target[1].sum(delta[1])], snap),
        None => n,
    }
}

/// A node after its content was put at `pos` on one axis, as far as it
/// reaches.
pub open spec fn jumped<N: Num>(n: Node<N>, axis: ScrollAxis, pos: N) -> Node<N> {
    match n.scroll {
        Some(s) => match axis {
            ScrollAxis::X => {
                let p = held(pos, zero(), scroll_range(n)[0]);
                Node {
                    scroll: Some(
                        ScrollState {
                            current: [p, s.current[1]],
                            target: [p, s.target[1]],
                            ..s
                        },
                    ),
                    ..n
                }
            },
            ScrollAxis::Y => {
                let p = held(pos, zero(), scroll_range(n)[1]);
                Node {
                    scroll: Some(
                        ScrollState {
                            current: [s.current[0], p],
                            target: [s.target[0], p],
                            ..s
                        },
                    ),
                    ..n
                }
            },
        },
        None => n,
    }
}

/// A node after its bars were marked as held or not.
pub open spec fn bars_held<N: Num>(n: Node<N>, active: [bool; 2]) -> Node<N> {
    match n.scroll {
        Some(s) => Node { scroll: Some(ScrollState { bar_active: active, ..s }), ..n },
        None => n,
    }
}

/// A node after its bars were marked as hovered or not: a bar that the
/// pointer comes over is shown in full.
pub open spec fn bars_hovered<N: Num>(n: Node<N>, hover: [bool; 2]) -> Node<N> {
    match n.scroll {
        Some(s) => if s.bar_hover == hover {
            n
        } else {
            Node {
                scroll: Some(
                    ScrollState {
                        bar_hover: hover,
                        bar_alpha: if hover[0] || hover[1] {
                            one()
                        } else {
                            s.bar_alpha
                        },
                        ..s
                    },
                ),
                ..n
            }
        },
        None => n,
    }
}

/// The ids among the first `n` whose nodes scroll, in the order in which
/// they were added.
pub open spec fn scrollable_ids<N>(nodes: Seq<Option<Node<N>>>, n: nat) -> Seq<NodeId>
    decreases n,
{
    if n == 0 {
        Seq::empty()
    } else {
        let before = scrollable_ids(nodes, (n - 1) as nat);
        if nodes[n - 1] is Some && nodes[n - 1]->0.scroll is Some {
            before.push(NodeId { index: (n - 1) as u32 })
        } else {
            before
        }
    }
}

fn reach<N: Num>(to: N, step: N, max: N, snap: bool) -> (r: N)
    ensures
        r == reached(to, step, max, snap),
{
    let z: N = N::of_ratio(0, 1);
    let p: N = clamp(to, z, max);
    if snap && z.lt(step) && p.lt(max) {
        clamp(p.over(step).round().times(step), z, max)
    } else {
        p
    }
}

fn range_of<N: Num>(n: &Node<N>) -> (r: [N; 2])
    ensures
        r == scroll_range(*n),
{
    let z: N = N::of_ratio(0, 1);
    [n.content_size[0].minus(n.rect[2]).max(z), n.content_size[1].minus(n.rect[3]).max(z)]
}

impl<N: Num> NodeTree<N> {
    /// The nodes that scroll, in the order in which they were added.
    pub fn scrollables(&self) -> (r: Vec<NodeId>)
        requires
            self.wf(),
        ensures
            r@ == scrollable_ids(self.nodes(), self.nodes().len()),
    {
        proof {
            crate::node::tree::forest_size(self.nodes(), self.root_ids());
        }
        let mut out: Vec<NodeId> = Vec::new();
        let count: usize = self.capacity();
        let mut i: usize = 0;
        while i < count
            invariant
                i <= count,
                count == self.nodes().len(),
                count <= u32::MAX,
                out@ == scrollable_ids(self.nodes(), i as nat),
            decreases count - i,
        {
            let id: NodeId = NodeId { index: i as u32 };
            if let Some(n) = self.get(id) {
                if n.scroll.is_some() {
                    out.push(id);
                }
            }
            i += 1;
        }
        out
    }

    /// Asks for a scroll target. It is held within the content, on the axes
    /// that scroll, and goes to where the content may rest.
    pub fn set_scroll_target(&mut self, id: NodeId, to: [N; 2])
        requires
            old(self).wf(),
        ensures
            final(self).wf(),
            final(self).nodes() == with_node(
                old(self).nodes(),
                id,
                retargeted(node_at(old(self).nodes(), id), to),
            ),
            final(self).root_ids() == old(self).root_ids(),
            final(self).dirty_mask() == dirty::marked_if(
                old(self).dirty_mask(),
                live(old(self).nodes(), id),
                dirty::SCROLL,
            ),
    {
        self.aim_scroll(id, to, true);
    }

    /// Asks for a scroll target, with `snap` for one where the content may
    /// rest.
    fn aim_scroll(&mut self, id: NodeId, to: [N; 2], snap: bool)
        requires
            old(self).wf(),
        ensures
            final(self).wf(),
            final(self).nodes() == with_node(
                old(self).nodes(),
                id,
                aimed(node_at(old(self).nodes(), id), to, snap),
            ),
            final(self).root_ids() == old(self).root_ids(),
            final(self).dirty_mask() == dirty::marked_if(
                old(self).dirty_mask(),
                live(old(self).nodes(), id),
                dirty::SCROLL,
            ),
    {
        let ghost before = self.nodes();
        let state: Option<ScrollState<N>> = match self.get(id) {
            Some(n) => match n.scroll {
                Some(s) => {
                    let max: [N; 2] = range_of(n);
                    let step: N = s.snap_step.times(s.scale);
                    let tx: N = if n.layout.overflow_x.scrolls() {
                        reach(to[0], step, max[0], snap)
                    } else {
                        s.target[0]
                    };
                    let ty: N = if n.layout.overflow_y.scrolls() {
                        reach(to[1], step, max[1], snap)
                    } else {
                        s.target[1]
                    };
                    let mut t: ScrollState<N> = s;
                    t.target = [tx, ty];
                    Some(t)
                },
                None => None,
            },
            None => {
                return ;
            },
        };
        self.set_scroll(id, state);
        proof {
            relabel_keeps_forest(
                before,
                self.root_ids(),
                id,
                aimed(node_at(before, id), to, snap),
            );
        }
        self.mark(dirty::SCROLL);
    }

    /// Moves the scroll target of a node by `delta` as far as its content
    /// reaches, to where the content may rest. Returns the part of the
    /// movement that was made.
    pub fn add_scroll_delta(&mut self, id: NodeId, delta: [N; 2]) -> (r: [N; 2])
        requires
            old(self).wf(),
        ensures
            final(self).wf(),
            r == if live(old(self).nodes(), id) {
                absorbed(node_at(old(self).nodes(), id), delta, true)
            } else {
                [zero(), zero()]
            },
            final(self).nodes() == with_node(
                old(self).nodes(),
                id,
                nudged(node_at(old(self).nodes(), id), delta, true),
            ),
            final(self).root_ids() == old(self).root_ids(),
            final(self).dirty_mask() == dirty::marked_if(
                old(self).dirty_mask(),
                scrolls_at(old(self).nodes(), id),
                dirty::SCROLL,
            ),
    {
        self.shift_scroll(id, delta, true)
    }

    /// Moves the scroll target of a node by `delta` as far as its content
    /// reaches, between the places where the content may rest too. Returns
    /// the part of the movement that was made.
    pub fn add_scroll_delta_continuous(&mut self, id: NodeId, delta: [N; 2]) -> (r: [N; 2])
        requires
            old(self).wf(),
        ensures
            final(self).wf(),
            r == if live(old(self).nodes(), id) {
                absorbed(node_at(old(self).nodes(), id), delta, false)
            } else {
                [zero(), zero()]
            },
            final(self).nodes() == with_node(
                old(self).nodes(),
                id,
                nudged(node_at(old(self).nodes(), id), delta, false),
            ),
            final(self).root_ids() == old(self).root_ids(),
            final(self).dirty_mask() == dirty::marked_if(
                old(self).dirty_mask(),
                scrolls_at(old(self).nodes(), id),
                dirty::SCROLL,
            ),
    {
        self.shift_scroll(id, delta, false)
    }

    /// Moves the scroll target of a node by `delta` as far as its content
    /// reaches, with `snap` to where the content may rest. Returns the part
    /// of the movement that was made.
    pub(crate) fn shift_scroll(&mut self, id: NodeId, delta: [N; 2], snap: bool) -> (r: [N; 2])
        requires
            old(self).wf(),
        ensures
            final(self).wf(),
            r == if live(old(self).nodes(), id) {
                absorbed(node_at(old(self).nodes(), id), delta, snap)
            } else {
                [zero(), zero()]
            },
            final(self).nodes() == with_node(
                old(self).nodes(),
                id,
                nudged(node_at(old(self).nodes(), id), delta, snap),
            ),
            final(self).root_ids() == old(self).root_ids(),
            final(self).dirty_mask() == dirty::marked_if(
                old(self).dirty_mask(),
                scrolls_at(old(self).nodes(), id),
                dirty::SCROLL,
            ),
    {
        let z: N = N::of_ratio(0, 1);
        let ghost before = self.nodes();
        let (was, x, y) = match self.get(id) {
            Some(n) => match n.scroll {
                Some(s) => (
                    s.target,
                    n.layout.overflow_x.scrolls(),
                    n.layout.overflow_y.scrolls(),
                ),
                None => {
                    assert(before.update(id.index as int, Some(node_at(before, id))) =~= before);
                    return [z, z];
                },
            },
            None => {
                return [z, z];
            },
        };
        self.aim_scroll(id, [was[0].plus(delta[0]), was[1].plus(delta[1])], snap);
        match self.get(id) {
            Some(n) => match n.scroll {
                Some(s) => [
                    if x {
                        s.target[0].minus(was[0])
                    } else {
                        z
                    },
                    if y {
                        s.target[1].minus(was[1])
                    } else {
                        z
                    },
                ],
                None => [z, z],
            },
            None => [z, z],
        }
    }

    /// Puts the content at `pos` on one axis at once, as far as it reaches.
    pub fn set_scroll_immediate(&mut self, id: NodeId, axis: ScrollAxis, pos: N)
        requires
            old(self).wf(),
        ensures
            final(self).wf(),
            final(self).nodes() == with_node(
                old(self).nodes(),
                id,
                jumped(node_at(old(self).nodes(), id), axis, pos),
            ),
            final(self).root_ids() == old(self).root_ids(),
            final(self).dirty_mask() == dirty::marked_if(
                old(self).dirty_mask(),
                live(old(self).nodes(), id),
                dirty::SCROLL,
            ),
    {
        let ghost before = self.nodes();
        let z: N = N::of_ratio(0, 1);
        let state: Option<ScrollState<N>> = match self.get(id) {
            Some(n) => match n.scroll {
                Some(s) => {
                    let max: [N; 2] = range_of(n);
                    let mut t: ScrollState<N> = s;
                    match axis {
                        ScrollAxis::X => {
                            let p: N = clamp(pos, z, max[0]);
                            t.current = [p, s.current[1]];
                            t.target = [p, s.target[1]];
                        },
                        ScrollAxis::Y => {
                            let p: N = clamp(pos, z, max[1]);
                            t.current = [s.current[0], p];
                            t.target = [s.target[0], p];
                        },
                    }
                    Some(t)
                },
                None => None,
            },
            None => {
                return ;
            },
        };
        self.set_scroll(id, state);
        proof {
            relabel_keeps_forest(
                before,
                self.root_ids(),
                id,
                jumped(node_at(before, id), axis, pos),
            );
        }
        self.mark(dirty::SCROLL);
    }

    /// Marks the bars of a node as held or not.
    pub fn set_bar_active(&mut self, id: NodeId, active: [bool; 2])
        requires
            old(self).wf(),
        ensures
            final(self).wf(),
            final(self).nodes() == with_node(
                old(self).nodes(),
                id,
                bars_held(node_at(old(self).nodes(), id), active),
            ),
            final(self).root_ids() == old(self).root_ids(),
            final(self).dirty_mask() == dirty::marked_if(
                old(self).dirty_mask(),
                live(old(self).nodes(), id),
                dirty::VISUAL,
            ),
    {
        let ghost before = self.nodes();
        let state: Option<ScrollState<N>> = match self.get(id) {
            Some(n) => match n.scroll {
                Some(s) => {
                    let mut t: ScrollState<N> = s;
                    t.bar_active = active;
                    Some(t)
                },
                None => None,
            },
            None => {
                return ;
            },
        };
        self.set_scroll(id, state);
        proof {
            relabel_keeps_forest(before, self.root_ids(), id, bars_held(node_at(before, id), active));
        }
        self.mark(dirty::VISUAL);
    }

    /// Marks the bars of a node as hovered or not. Returns whether that
    /// differs from before.
    pub fn set_bar_hover(&mut self, id: NodeId, hover: [bool; 2]) -> (r: bool)
        requires
            old(self).wf(),
        ensures
            final(self).wf(),
            r == (live(old(self).nodes(), id) && node_at(old(self).nodes(), id).scroll is Some
                && node_at(old(self).nodes(), id).scroll->0.bar_hover != hover),
            final(self).nodes() == with_node(
                old(self).nodes(),
                id,
                bars_hovered(node_at(old(self).nodes(), id), hover),
            ),
            final(self).root_ids() == old(self).root_ids(),
            final(self).dirty_mask() == dirty::marked_if(old(self).dirty_mask(), r, dirty::VISUAL),
    {
        let ghost before = self.nodes();
        let mut t: ScrollState<N> = match self.get(id) {
            Some(n) => match n.scroll {
                Some(s) => s,
                None => {
                    assert(before.update(id.index as int, Some(node_at(before, id))) =~= before);
                    return false;
                },
            },
            None => {
                return false;
            },
        };
        if t.bar_hover[0] == hover[0] && t.bar_hover[1] == hover[1] {
            assert(t.bar_hover =~= hover);
            assert(before.update(id.index as int, Some(node_at(before, id))) =~= before);
            return false;
        }
        assert(t.bar_hover != hover);
        t.bar_hover = hover;
        if hover[0] || hover[1] {
            t.bar_alpha = N::of_ratio(1, 1);
        }
        self.set_scroll(id, Some(t));
        proof {
            relabel_keeps_forest(
                before,
                self.root_ids(),
                id,
                bars_hovered(node_at(before, id), hover),
            );
        }
        self.mark(dirty::VISUAL);
        true
    }
}

/// In whole pixels, scrolling does not leave the content: whatever is asked
/// for, the target on an axis that scrolls, and the place that content is put
/// at, are between the start and the farthest offset.
pub proof fn scrolling_stays_in_range(n: Node<Px>, to: [Px; 2], axis: ScrollAxis, pos: Px)
    requires
        n.scroll is Some,
    ensures
        ({
            let t = retargeted(n, to).scroll->0.target;
            let c = jumped(n, axis, pos).scroll->0.current;
            let max = scroll_range(n);
            &&& n.layout.overflow_x is Scroll ==> 0 <= t[0].0 <= max[0].0
            &&& n.layout.overflow_y is Scroll ==> 0 <= t[1].0 <= max[1].0
            &&& axis is X ==> 0 <= c[0].0 <= max[0].0 && c[1] == n.scroll->0.current[1]
            &&& axis is Y ==> 0 <= c[1].0 <= max[1].0 && c[0] == n.scroll->0.current[0]
        }),
{
    assert(zero::<Px>() == Px(0)) by {
        assert(crate::num::truncated_quotient(0, 1) == 0);
    }
}

/// The multiple of a step at or before a pixel.
proof fn snap_of_a_pixel(p: int, step: int, max: int)
    requires
        0 <= p < max <= i32::MAX,
        0 < step <= i32::MAX,
    ensures
        0 <= crate::num::truncated_quotient(p, step) <= p,
        0 <= crate::num::truncated_quotient(p, step) * step <= p,
        (crate::num::truncated_quotient(p, step) * step) % step == 0,
        crate::num::truncated_quotient(
            crate::num::truncated_quotient(p, step) * step,
            step,
        ) == crate::num::truncated_quotient(p, step),
{
    let k = p / step;
    assert(crate::num::truncated_quotient(p, step) == k);
    assert(0 <= k <= p && 0 <= k * step <= p) by (nonlinear_arith)
        requires
            k == p / step,
            0 <= p,
            0 < step,
    ;
    assert((k * step) % step == 0 && (k * step) / step == k) by (nonlinear_arith)
        requires
            0 < step,
            0 <= k,
    ;
}

/// In whole pixels, with a step, what is asked for comes to rest on a multiple
/// of the step or at the end of the content. A step that is not positive
/// changes nothing.
pub proof fn snapping_lands_on_a_multiple(v: Px, step: Px, max: Px)
    requires
        0 <= max.0,
    ensures
        step.0 > 0 ==> snapped(v, step, max).0 % step.0 == 0 || snapped(v, step, max) == max,
        step.0 <= 0 ==> snapped(v, step, max) == held(v, zero(), max),
        max.0 <= v.0 ==> snapped(v, step, max) == max,
        snapped(v, step, max) == snapped(snapped(v, step, max), step, max),
{
    assert(zero::<Px>() == Px(0)) by {
        assert(crate::num::truncated_quotient(0, 1) == 0);
    }
    let p = held(v, zero(), max).0;
    if step.0 > 0 && p < max.0 {
        snap_of_a_pixel(p as int, step.0 as int, max.0 as int);
    }
}

} // verus!
