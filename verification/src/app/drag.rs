//! Dragging nodes: handlers that follow a press, payloads that are let go
//! over another node, and nodes that follow the pointer and glide back.
use vstd::prelude::*;

use crate::anim::{distinct_keys, tween_restarted, without_key, within_store, Curve, Timeline};
use crate::event::{DragCtx, DropCtx, HoverCtx};
use crate::node::dirty;
use crate::node::tree::{live, node_at, Node, NodeTree};
use crate::node::{HitEntry, NodeId};
use crate::num::{computes_exactly, fractions_are_exact, zero, Num};
use crate::signal::{store_written, SignalId, Signals, Value};

verus! {

/// The tween that takes a node back to its place.
pub const DRAG_RETURN_TWEEN_KEY: u32 = 0xD000_0000;

/// Nanoseconds that it takes.
pub const DRAG_RETURN_TIME: u64 = 160_000_000;

/// A node that is lifted, and how far it is from its place.
#[derive(Debug, Clone, Copy)]
pub struct Lifted<N> {
    pub node: NodeId,
    pub offset: [N; 2],
}

/// A drag in progress.
#[derive(Debug, Clone, Copy)]
pub struct DragState<N> {
    /// Where the press landed on a node that can be dragged.
    pub origin: Option<[N; 2]>,
    /// Where the pointer was when the drag handler ran last.
    pub last: Option<[N; 2]>,
    /// The node whose drag handler follows the press.
    pub node: Option<NodeId>,
    pub payload: Option<u64>,
    /// The node that follows the pointer or glides back.
    pub follow: Option<Lifted<N>>,
    /// The node that glides back.
    pub returning: Option<NodeId>,
}

/// Left, top, width and height of the first entry of a node at or after `i`;
/// nothing where it has none.
pub open spec fn entry_rect<N: Num>(hits: Seq<HitEntry<N>>, id: NodeId, i: nat) -> [N; 4]
    decreases hits.len() - i,
{
    if i >= hits.len() {
        [zero(), zero(), zero(), zero()]
    } else if hits[i as int].node_id == id {
        bounds_rect(hits[i as int].bounds)
    } else {
        entry_rect(hits, id, i + 1)
    }
}

pub open spec fn bounds_rect<N: Num>(b: [N; 4]) -> [N; 4] {
    [b[0], b[1], b[2].difference(b[0]), b[3].difference(b[1])]
}

fn rect_of_entry<N: Num>(hits: &Vec<HitEntry<N>>, id: NodeId) -> (r: [N; 4])
    ensures
        r == entry_rect(hits@, id, 0),
{
    let mut i: usize = 0;
    while i < hits.len()
        invariant
            i <= hits@.len(),
            entry_rect(hits@, id, i as nat) == entry_rect(hits@, id, 0),
        decreases hits.len() - i,
    {
        if hits[i].node_id == id {
            let b = hits[i].bounds;
            return [b[0], b[1], b[2].minus(b[0]), b[3].minus(b[1])];
        }
        i = i + 1;
    }
    let z = N::of_ratio(0, 1);
    [z, z, z, z]
}

/// The node can be dragged.
pub open spec fn draggable<N>(n: Node<N>) -> bool {
    n.handlers.drag || n.drag_payload is Some || n.drag_follow
}

/// The captured node and the pointer, if a press there starts a drag.
pub open spec fn grabbed<N>(
    nodes: Seq<Option<Node<N>>>,
    captured: Option<NodeId>,
    cursor: Option<[N; 2]>,
) -> bool {
    captured is Some && cursor is Some && live(nodes, captured->0) && draggable(
        node_at(nodes, captured->0),
    )
}

/// The drag that a press on a draggable node starts. A node that follows the
/// pointer is lifted at once.
pub open spec fn begun<N: Num>(
    d: DragState<N>,
    n: Node<N>,
    captured: NodeId,
    origin: [N; 2],
) -> DragState<N> {
    DragState {
        origin: Some(origin),
        last: Some(origin),
        node: if n.handlers.drag {
            Some(captured)
        } else {
            None
        },
        payload: n.drag_payload,
        follow: if n.drag_follow {
            Some(Lifted { node: captured, offset: [zero(), zero()] })
        } else {
            d.follow
        },
        returning: None,
    }
}

/// What the drag handler is told, and the state after it ran.
pub open spec fn drag_told<N: Num>(
    d: DragState<N>,
    nodes: Seq<Option<Node<N>>>,
    hits: Seq<HitEntry<N>>,
    captured: Option<NodeId>,
    x: N,
    y: N,
    scale: N,
) -> Option<DragCtx<N>> {
    if captured is Some && d.origin is Some && live(nodes, captured->0) && node_at(
        nodes,
        captured->0,
    ).handlers.drag {
        let last = match d.last {
            Some(l) => l,
            None => d.origin->0,
        };
        Some(
            DragCtx {
                node: captured->0,
                start: d.origin->0,
                current: [x, y],
                delta: [x.difference(last[0]), y.difference(last[1])],
                rect: entry_rect(hits, captured->0, 0),
                scale,
            },
        )
    } else {
        None
    }
}

/// The topmost entry at or after `i` that the point hits and whose node takes
/// payloads.
pub open spec fn drop_target<N: Num>(
    hits: Seq<HitEntry<N>>,
    nodes: Seq<Option<Node<N>>>,
    x: N,
    y: N,
    i: nat,
) -> Option<NodeId>
    decreases hits.len() - i,
{
    if i >= hits.len() {
        None
    } else if hits[i as int].holds(x, y) && live(nodes, hits[i as int].node_id) && node_at(
        nodes,
        hits[i as int].node_id,
    ).handlers.drop {
        Some(hits[i as int].node_id)
    } else {
        drop_target(hits, nodes, x, y, i + 1)
    }
}

/// The offset is not worth an animation.
pub open spec fn close_by<N: Num>(off: [N; 2]) -> bool {
    off[0].magnitude().below(N::fraction(1, 2)) && off[1].magnitude().below(N::fraction(1, 2))
}

fn is_close_by<N: Num>(off: [N; 2]) -> (r: bool)
    ensures
        r == close_by(off),
{
    let half = N::of_ratio(1, 2);
    off[0].abs().lt(half) && off[1].abs().lt(half)
}

/// How far the lifted node is from its place when the press ends.
pub open spec fn drop_offset<N: Num>(d: DragState<N>, cursor: Option<[N; 2]>) -> Option<
    Lifted<N>,
> {
    if d.follow is Some && d.origin is Some && cursor is Some {
        let c = cursor->0;
        let o = d.origin->0;
        Some(
            Lifted {
                node: d.follow->0.node,
                offset: [c[0].difference(o[0]), c[1].difference(o[1])],
            },
        )
    } else {
        None
    }
}

/// The drag after the press ended: a lifted node stays where it was let go
/// and starts to glide back, unless it is close to its place.
pub open spec fn released<N: Num>(d: DragState<N>, cursor: Option<[N; 2]>) -> DragState<N> {
    let left = DragState { origin: None, last: None, payload: None, ..d };
    match drop_offset(d, cursor) {
        Some(l) => if close_by(l.offset) {
            DragState { follow: None, ..left }
        } else {
            DragState { follow: Some(l), returning: Some(l.node), ..left }
        },
        None => left,
    }
}

/// The glide back has to be started.
pub open spec fn glides<N: Num>(d: DragState<N>, cursor: Option<[N; 2]>) -> bool {
    drop_offset(d, cursor) is Some && !close_by(drop_offset(d, cursor)->0.offset)
}

/// The drag after a node that glides back came to `off` from its place.
pub open spec fn glided<N: Num>(d: DragState<N>, off: [N; 2]) -> DragState<N> {
    match d.returning {
        None => d,
        Some(node) => if close_by(off) {
            DragState { follow: None, returning: None, ..d }
        } else {
            DragState { follow: Some(Lifted { node, offset: off }), ..d }
        },
    }
}

/// A tree after the lifted node changed, if it did: what is drawn of it has to
/// be drawn anew. Nothing else of the tree changes.
pub open spec fn lift_marked<N: Num>(
    before: NodeTree<N>,
    after: NodeTree<N>,
    changed: bool,
) -> bool {
    &&& after.nodes() == before.nodes()
    &&& after.root_ids() == before.root_ids()
    &&& after.dirty_mask() == dirty::marked_if(before.dirty_mask(), changed, dirty::VISUAL)
}

/// No drag.
pub open spec fn no_drag<N>() -> DragState<N> {
    DragState {
        origin: None,
        last: None,
        node: None,
        payload: None,
        follow: None,
        returning: None,
    }
}

impl<N: Num> DragState<N> {
    pub fn none() -> (r: Self)
        ensures
            r == no_drag::<N>(),
    {
        DragState {
            origin: None,
            last: None,
            node: None,
            payload: None,
            follow: None,
            returning: None,
        }
    }

    /// A press was captured: starts a drag if the node can be dragged. A node
    /// that was gliding back stops. The result says whether the drag handler
    /// is to run at once, at the place of the press.
    pub fn begin(
        &mut self,
        tree: &mut NodeTree<N>,
        captured: Option<NodeId>,
        cursor: Option<[N; 2]>,
        timeline: &mut Timeline<N>,
    ) -> (r: bool)
        ensures
            !grabbed(old(tree).nodes(), captured, cursor) ==> {
                &&& *final(self) == *old(self)
                &&& final(timeline)@ == old(timeline)@
                &&& !r
            },
            grabbed(old(tree).nodes(), captured, cursor) ==> {
                let n = node_at(old(tree).nodes(), captured->0);
                &&& *final(self) == begun(*old(self), n, captured->0, cursor->0)
                &&& final(timeline)@ == (if old(self).returning is Some {
                    without_key(old(timeline)@, DRAG_RETURN_TWEEN_KEY)
                } else {
                    old(timeline)@
                })
                &&& r == n.handlers.drag
            },
            lift_marked(
                *old(tree),
                *final(tree),
                grabbed(old(tree).nodes(), captured, cursor) && node_at(
                    old(tree).nodes(),
                    captured->0,
                ).drag_follow,
            ),
            final(timeline).interval() == old(timeline).interval(),
            distinct_keys(old(timeline)@) ==> distinct_keys(final(timeline)@),
            forall|m: nat|
                within_store(old(timeline)@, m) ==> #[trigger] within_store(final(timeline)@, m),
    {
        let cap: NodeId = match captured {
            Some(c) => c,
            None => return false,
        };
        let origin: [N; 2] = match cursor {
            Some(c) => c,
            None => return false,
        };
        let (drag, payload, follow): (bool, Option<u64>, bool) = match tree.get(cap) {
            Some(n) => (n.handlers.drag, n.drag_payload, n.drag_follow),
            None => (false, None, false),
        };
        if !drag && payload.is_none() && !follow {
            return false;
        }
        if self.returning.is_some() {
            timeline.stop(DRAG_RETURN_TWEEN_KEY);
            self.returning = None;
        }
        self.origin = Some(origin);
        self.last = Some(origin);
        self.node = if drag {
            Some(cap)
        } else {
            None
        };
        self.payload = payload;
        if follow {
            let z = N::of_ratio(0, 1);
            self.follow = Some(Lifted { node: cap, offset: [z, z] });
            tree.mark(dirty::VISUAL);
        }
        drag
    }

    /// What the drag handler of the captured node is told of a movement; it
    /// counts as told.
    pub fn fire(
        &mut self,
        tree: &NodeTree<N>,
        hits: &Vec<HitEntry<N>>,
        captured: Option<NodeId>,
        x: N,
        y: N,
        scale: N,
    ) -> (r: Option<DragCtx<N>>)
        ensures
            r == drag_told(*old(self), tree.nodes(), hits@, captured, x, y, scale),
            *final(self) == (if r is Some {
                DragState { last: Some([x, y]), ..*old(self) }
            } else {
                *old(self)
            }),
    {
        let cap: NodeId = match captured {
            Some(c) => c,
            None => return None,
        };
        let start: [N; 2] = match self.origin {
            Some(o) => o,
            None => return None,
        };
        let handles: bool = match tree.get(cap) {
            Some(n) => n.handlers.drag,
            None => false,
        };
        if !handles {
            return None;
        }
        let last: [N; 2] = match self.last {
            Some(l) => l,
            None => start,
        };
        let told = DragCtx {
            node: cap,
            start,
            current: [x, y],
            delta: [x.minus(last[0]), y.minus(last[1])],
            rect: rect_of_entry(hits, cap),
            scale,
        };
        self.last = Some([x, y]);
        Some(told)
    }

    /// Moves the lifted node with the pointer. The result says whether the
    /// captured node follows it.
    pub fn update_follow(
        &mut self,
        tree: &mut NodeTree<N>,
        captured: Option<NodeId>,
        x: N,
        y: N,
    ) -> (r: bool)
        ensures
            r == (captured is Some && old(self).origin is Some && live(old(tree).nodes(), captured->0)
                && node_at(old(tree).nodes(), captured->0).drag_follow),
            *final(self) == (if r {
                let o = old(self).origin->0;
                DragState {
                    follow: Some(
                        Lifted {
                            node: captured->0,
                            offset: [x.difference(o[0]), y.difference(o[1])],
                        },
                    ),
                    ..*old(self)
                }
            } else {
                *old(self)
            }),
            lift_marked(*old(tree), *final(tree), r),
    {
        let cap: NodeId = match captured {
            Some(c) => c,
            None => return false,
        };
        let origin: [N; 2] = match self.origin {
            Some(o) => o,
            None => return false,
        };
        let follows: bool = match tree.get(cap) {
            Some(n) => n.drag_follow,
            None => false,
        };
        if follows {
            self.follow = Some(
                Lifted { node: cap, offset: [x.minus(origin[0]), y.minus(origin[1])] },
            );
            tree.mark(dirty::VISUAL);
        }
        follows
    }

    /// The node whose handler for the end of a drag is to run, if the drag
    /// ends now. It is told only once.
    pub fn take_end(&mut self, tree: &NodeTree<N>) -> (r: Option<NodeId>)
        ensures
            r == (match old(self).node {
                Some(id) => if live(tree.nodes(), id) && node_at(
                    tree.nodes(),
                    id,
                ).handlers.drag_end {
                    Some(id)
                } else {
                    None
                },
                None => None,
            }),
            *final(self) == (DragState { node: None, ..*old(self) }),
    {
        let dragged: Option<NodeId> = self.node;
        self.node = None;
        match dragged {
            Some(id) => match tree.get(id) {
                Some(n) => if n.handlers.drag_end {
                    Some(id)
                } else {
                    None
                },
                None => None,
            },
            None => None,
        }
    }

    /// Lets the payload go. The result is told to the topmost node under the
    /// pointer that takes payloads.
    pub fn take_drop(
        &mut self,
        tree: &NodeTree<N>,
        hits: &Vec<HitEntry<N>>,
        cursor: Option<[N; 2]>,
    ) -> (r: Option<DropCtx>)
        ensures
            r == (if old(self).payload is Some && cursor is Some {
                match drop_target(hits@, tree.nodes(), cursor->0[0], cursor->0[1], 0) {
                    Some(node) => Some(DropCtx { node, payload: old(self).payload->0 }),
                    None => None,
                }
            } else {
                None
            }),
            *final(self) == (DragState { payload: None, ..*old(self) }),
    {
        let payload: u64 = match self.payload {
            Some(p) => p,
            None => return None,
        };
        self.payload = None;
        let at: [N; 2] = match cursor {
            Some(c) => c,
            None => return None,
        };
        let mut i: usize = 0;
        while i < hits.len()
            invariant
                i <= hits@.len(),
                drop_target(hits@, tree.nodes(), at[0], at[1], i as nat) == drop_target(
                    hits@,
                    tree.nodes(),
                    at[0],
                    at[1],
                    0,
                ),
                cursor == Some(at),
                old(self).payload == Some(payload),
                *self == (DragState { payload: None, ..*old(self) }),
            decreases hits.len() - i,
        {
            let takes: bool = hits[i].contains(at[0], at[1]) && match tree.get(hits[i].node_id) {
                Some(n) => n.handlers.drop,
                None => false,
            };
            if takes {
                return Some(DropCtx { node: hits[i].node_id, payload });
            }
            i = i + 1;
        }
        None
    }

    /// Ends the drag: a lifted node glides back by a tween of the cell
    /// `offset`, or is put back at once.
    pub fn release(
        &mut self,
        tree: &mut NodeTree<N>,
        cursor: Option<[N; 2]>,
        offset: SignalId,
        timeline: &mut Timeline<N>,
        signals: &mut Signals<N>,
        now: u64,
    )
        requires
            offset.index < old(signals)@.len(),
        ensures
            *final(self) == released(*old(self), cursor),
            !glides(*old(self), cursor) ==> final(timeline)@ == old(timeline)@ && final(signals)@
                == old(signals)@,
            glides(*old(self), cursor) ==> {
                let off = drop_offset(*old(self), cursor)->0.offset;
                let at = store_written(old(signals)@, offset.index as int, Value::Pair(off));
                let home = Value::Pair([zero::<N>(), zero()]);
                &&& final(signals)@ == at
                &&& final(timeline)@ == tween_restarted(
                    old(timeline)@,
                    at,
                    DRAG_RETURN_TWEEN_KEY,
                    offset,
                    home,
                    (Curve::EaseInOut, DRAG_RETURN_TIME),
                    now,
                )
            },
            lift_marked(*old(tree), *final(tree), drop_offset(*old(self), cursor) is Some),
            final(signals)@.len() == old(signals)@.len(),
            final(timeline).interval() == old(timeline).interval(),
            distinct_keys(old(timeline)@) ==> distinct_keys(final(timeline)@),
            within_store(old(timeline)@, old(signals)@.len()) ==> within_store(
                final(timeline)@,
                old(signals)@.len(),
            ),
    {
        if let Some(lifted) = self.follow {
            if let Some(o) = self.origin {
                if let Some(c) = cursor {
                    tree.mark(dirty::VISUAL);
                    let off: [N; 2] = [c[0].minus(o[0]), c[1].minus(o[1])];
                    if is_close_by(off) {
                        self.follow = None;
                    } else {
                        let z = N::of_ratio(0, 1);
                        signals.set(offset, Value::Pair(off));
                        timeline.restart(
                            &*signals,
                            DRAG_RETURN_TWEEN_KEY,
                            offset,
                            Value::Pair([z, z]),
                            Curve::EaseInOut,
                            DRAG_RETURN_TIME,
                            now,
                        );
                        self.returning = Some(lifted.node);
                        self.follow = Some(Lifted { node: lifted.node, offset: off });
                    }
                }
            }
        }
        self.origin = None;
        self.last = None;
        self.payload = None;
    }

    /// A step of the glide back: the node is where the tween is, and is put
    /// down when it is close to its place.
    pub fn tick_return(&mut self, tree: &mut NodeTree<N>, off: [N; 2])
        ensures
            *final(self) == glided(*old(self), off),
            lift_marked(*old(tree), *final(tree), old(self).returning is Some),
    {
        if let Some(node) = self.returning {
            tree.mark(dirty::VISUAL);
            if is_close_by(off) {
                self.follow = None;
                self.returning = None;
            } else {
                self.follow = Some(Lifted { node, offset: off });
            }
        }
    }

    /// Drops everything: the end of the press will not be seen.
    pub fn clear(&mut self, tree: &mut NodeTree<N>, timeline: &mut Timeline<N>)
        ensures
            *final(self) == no_drag::<N>(),
            lift_marked(*old(tree), *final(tree), old(self).follow is Some),
            final(timeline)@ == without_key(old(timeline)@, DRAG_RETURN_TWEEN_KEY),
            final(timeline).interval() == old(timeline).interval(),
            distinct_keys(old(timeline)@) ==> distinct_keys(final(timeline)@),
            forall|m: nat|
                within_store(old(timeline)@, m) ==> #[trigger] within_store(final(timeline)@, m),
    {
        if self.follow.is_some() {
            tree.mark(dirty::VISUAL);
        }
        *self = DragState::none();
        timeline.stop(DRAG_RETURN_TWEEN_KEY);
    }
}

/// What the hover handler under the pointer is told of a movement; nothing
/// while a press is held.
pub fn hover_move<N: Num>(
    tree: &NodeTree<N>,
    hits: &Vec<HitEntry<N>>,
    captured: Option<NodeId>,
    hovered: Option<NodeId>,
    x: N,
    y: N,
    scale: N,
) -> (r: Option<HoverCtx<N>>)
    ensures
        r == (if captured is None && hovered is Some && live(tree.nodes(), hovered->0) && node_at(
            tree.nodes(),
            hovered->0,
        ).handlers.hover_move {
            Some(
                HoverCtx {
                    node: hovered->0,
                    pos: [x, y],
                    rect: entry_rect(hits@, hovered->0, 0),
                    scale,
                },
            )
        } else {
            None
        }),
{
    if captured.is_some() {
        return None;
    }
    let id: NodeId = match hovered {
        Some(id) => id,
        None => return None,
    };
    let handles: bool = match tree.get(id) {
        Some(n) => n.handlers.hover_move,
        None => false,
    };
    if !handles {
        return None;
    }
    Some(HoverCtx { node: id, pos: [x, y], rect: rect_of_entry(hits, id), scale })
}

/// The topmost entry at or after `i` that the point hits and whose node
/// handles the wheel.
pub open spec fn wheel_entry<N: Num>(
    hits: Seq<HitEntry<N>>,
    nodes: Seq<Option<Node<N>>>,
    x: N,
    y: N,
    i: nat,
) -> Option<(NodeId, [N; 4])>
    decreases hits.len() - i,
{
    if i >= hits.len() {
        None
    } else if hits[i as int].holds(x, y) && live(nodes, hits[i as int].node_id) && node_at(
        nodes,
        hits[i as int].node_id,
    ).handlers.wheel {
        Some((hits[i as int].node_id, bounds_rect(hits[i as int].bounds)))
    } else {
        wheel_entry(hits, nodes, x, y, i + 1)
    }
}

/// The topmost node under the pointer that handles the wheel, and its
/// rectangle. A node above it that does not handle the wheel lets it through.
pub fn wheel_target<N: Num>(tree: &NodeTree<N>, hits: &Vec<HitEntry<N>>, x: N, y: N) -> (r: Option<
    (NodeId, [N; 4]),
>)
    ensures
        r == wheel_entry(hits@, tree.nodes(), x, y, 0),
{
    let mut i: usize = 0;
    while i < hits.len()
        invariant
            i <= hits@.len(),
            wheel_entry(hits@, tree.nodes(), x, y, i as nat) == wheel_entry(
                hits@,
                tree.nodes(),
                x,
                y,
                0,
            ),
        decreases hits.len() - i,
    {
        let takes: bool = hits[i].contains(x, y) && match tree.get(hits[i].node_id) {
            Some(n) => n.handlers.wheel,
            None => false,
        };
        if takes {
            let b = hits[i].bounds;
            return Some((hits[i].node_id, [b[0], b[1], b[2].minus(b[0]), b[3].minus(b[1])]));
        }
        i = i + 1;
    }
    None
}

/// A press that starts no drag, or whose drag was given up, tells no drag
/// handler anything and lets no payload go.
pub proof fn no_drag_tells_nothing<N: Num>(
    nodes: Seq<Option<Node<N>>>,
    hits: Seq<HitEntry<N>>,
    captured: Option<NodeId>,
    x: N,
    y: N,
    scale: N,
)
    ensures
        drag_told(no_drag::<N>(), nodes, hits, captured, x, y, scale) is None,
        drop_offset(no_drag::<N>(), Some([x, y])) is None,
        released(no_drag::<N>(), Some([x, y])) == no_drag::<N>(),
{
}

/// The movements that a drag handler is told add up: each starts where the
/// one before it ended.
pub proof fn drag_deltas_join<N: Num>(
    d: DragState<N>,
    nodes: Seq<Option<Node<N>>>,
    hits: Seq<HitEntry<N>>,
    captured: Option<NodeId>,
    first: [N; 2],
    second: [N; 2],
    scale: N,
)
    requires
        drag_told(d, nodes, hits, captured, first[0], first[1], scale) is Some,
    ensures
        ({
            let after = DragState { last: Some([first[0], first[1]]), ..d };
            let told = drag_told(after, nodes, hits, captured, second[0], second[1], scale);
            &&& told is Some
            &&& told->0.start == d.origin->0
            &&& told->0.delta == [
                second[0].difference(first[0]),
                second[1].difference(first[1]),
            ]
        }),
{
}

/// In exact numbers, the rectangle that handlers are told reaches from the near
/// edges of the first entry of the node to the far ones.
pub proof fn handlers_are_told_the_bounds<N: Num>(
    value: spec_fn(N) -> real,
    hits: Seq<HitEntry<N>>,
    id: NodeId,
    i: nat,
    k: int,
)
    requires
        computes_exactly(value),
        i <= k < hits.len(),
        hits[k].node_id == id,
        forall|j: int| i <= j < k ==> (#[trigger] hits[j]).node_id != id,
    ensures
        ({
            let r = entry_rect(hits, id, i);
            let b = hits[k].bounds;
            &&& r[0] == b[0] && r[1] == b[1]
            &&& value(r[0]) + value(r[2]) == value(b[2])
            &&& value(r[1]) + value(r[3]) == value(b[3])
        }),
    decreases k - i,
{
    if i < k {
        let h = hits[i as int];
        handlers_are_told_the_bounds(value, hits, id, i + 1, k);
    }
}

/// A payload is let go over the first entry under the pointer whose node takes
/// payloads.
pub proof fn payloads_go_to_the_topmost_taker<N: Num>(
    hits: Seq<HitEntry<N>>,
    nodes: Seq<Option<Node<N>>>,
    x: N,
    y: N,
    i: nat,
    k: int,
)
    requires
        i <= k < hits.len(),
        hits[k].holds(x, y),
        live(nodes, hits[k].node_id),
        node_at(nodes, hits[k].node_id).handlers.drop,
        forall|j: int|
            i <= j < k ==> !((#[trigger] hits[j]).holds(x, y) && live(nodes, hits[j].node_id)
                && node_at(nodes, hits[j].node_id).handlers.drop),
    ensures
        drop_target(hits, nodes, x, y, i) == Some(hits[k].node_id),
    decreases k - i,
{
    if i < k {
        let h = hits[i as int];
        payloads_go_to_the_topmost_taker(hits, nodes, x, y, i + 1, k);
    }
}

/// The wheel goes to the first entry under the pointer whose node handles it.
pub proof fn wheels_go_to_the_topmost_handler<N: Num>(
    hits: Seq<HitEntry<N>>,
    nodes: Seq<Option<Node<N>>>,
    x: N,
    y: N,
    i: nat,
    k: int,
)
    requires
        i <= k < hits.len(),
        hits[k].holds(x, y),
        live(nodes, hits[k].node_id),
        node_at(nodes, hits[k].node_id).handlers.wheel,
        forall|j: int|
            i <= j < k ==> !((#[trigger] hits[j]).holds(x, y) && live(nodes, hits[j].node_id)
                && node_at(nodes, hits[j].node_id).handlers.wheel),
    ensures
        wheel_entry(hits, nodes, x, y, i) matches Some((id, _)) && id == hits[k].node_id,
    decreases k - i,
{
    if i < k {
        let h = hits[i as int];
        wheels_go_to_the_topmost_handler(hits, nodes, x, y, i + 1, k);
    }
}

/// In exact numbers, what a drag handler is told adds up: the place before and
/// the movement give the place now, and the start is where the press landed.
pub proof fn drags_are_told_from_the_press_on<N: Num>(
    value: spec_fn(N) -> real,
    d: DragState<N>,
    nodes: Seq<Option<Node<N>>>,
    hits: Seq<HitEntry<N>>,
    captured: Option<NodeId>,
    x: N,
    y: N,
    scale: N,
)
    requires
        computes_exactly(value),
        drag_told(d, nodes, hits, captured, x, y, scale) is Some,
    ensures
        ({
            let c = drag_told(d, nodes, hits, captured, x, y, scale)->0;
            let last = if d.last is Some {
                d.last->0
            } else {
                d.origin->0
            };
            &&& Some(c.node) == captured
            &&& Some(c.start) == d.origin
            &&& c.current == [x, y]
            &&& value(last[0]) + value(c.delta[0]) == value(x)
            &&& value(last[1]) + value(c.delta[1]) == value(y)
        }),
{
}

/// A press on a node that can be dragged starts a drag where the pointer is,
/// for what the node has: its handler, its payload, or following the pointer.
pub proof fn drags_begin_at_the_press<N: Num>(
    value: spec_fn(N) -> real,
    d: DragState<N>,
    n: Node<N>,
    captured: NodeId,
    origin: [N; 2],
)
    requires
        computes_exactly(value),
    ensures
        ({
            let b = begun(d, n, captured, origin);
            &&& b.origin == Some(origin)
            &&& b.last == Some(origin)
            &&& b.node is Some <==> n.handlers.drag
            &&& b.node is Some ==> b.node->0 == captured
            &&& b.payload == n.drag_payload
            &&& b.returning is None
            &&& n.drag_follow ==> b.follow is Some && b.follow->0.node == captured && value(
                b.follow->0.offset[0],
            ) == 0real && value(b.follow->0.offset[1]) == 0real
        }),
{
    fractions_are_exact(value);
}

/// In exact numbers, a lifted node is let go as far from its place as the
/// pointer is from where the press landed. It glides back from there, unless it
/// is less than half a pixel away on both axes: then it is home.
pub proof fn lifted_nodes_glide_home<N: Num>(
    value: spec_fn(N) -> real,
    d: DragState<N>,
    cursor: [N; 2],
)
    requires
        computes_exactly(value),
        d.follow is Some,
        d.origin is Some,
    ensures
        ({
            let r = released(d, Some(cursor));
            let (dx, dy) = (
                value(cursor[0]) - value(d.origin->0[0]),
                value(cursor[1]) - value(d.origin->0[1]),
            );
            let near = -1real < 2real * dx < 1real && -1real < 2real * dy < 1real;
            &&& r.origin is None && r.last is None && r.payload is None
            &&& near ==> r.follow is None
            &&& !near ==> {
                &&& r.follow is Some
                &&& r.follow->0.node == d.follow->0.node
                &&& value(r.follow->0.offset[0]) == dx
                &&& value(r.follow->0.offset[1]) == dy
                &&& r.returning == Some(d.follow->0.node)
            }
            &&& glides(d, Some(cursor)) == !near
        }),
{
    fractions_are_exact(value);
}

/// In exact numbers, a node that glides back is where its tween is, and home
/// once it is less than half a pixel away on both axes.
pub proof fn gliding_ends_at_home<N: Num>(
    value: spec_fn(N) -> real,
    d: DragState<N>,
    off: [N; 2],
)
    requires
        computes_exactly(value),
        d.returning is Some,
    ensures
        ({
            let r = glided(d, off);
            let near = -1real < 2real * value(off[0]) < 1real && -1real < 2real * value(off[1])
                < 1real;
            &&& near ==> r.follow is None && r.returning is None
            &&& !near ==> r.follow is Some && r.follow->0.node == d.returning->0
                && r.follow->0.offset == off && r.returning == d.returning
        }),
{
    fractions_are_exact(value);
}

} // verus!
