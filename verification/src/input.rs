//! Pointer and keyboard input.
//!
//! [`InputState`] follows the pointer over the hit cache of a flattened
//! tree, topmost entry first, and keeps the hover, press and focus cells of
//! the interactive nodes in step. The functions around it route presses and
//! drags to scrollbars, and wheel and key movements to scroll containers.
use vstd::prelude::*;

use crate::node::hit::inside;
use crate::node::dirty;
use crate::node::scroll::{
    absorbed, bars_held, bars_hovered, jumped, nudged, retargeted, scroll_range, scrollable_ids,
    scrolls_at,
};
use crate::node::tree::{live, node_at, with_node, Interact, Node, NodeTree};
use crate::node::{HitEntry, NodeId, ScrollAxis, ScrollHit, ScrollbarHit};
use crate::num::{clamp_unit, eq2, equals2, unit_clamped, zero, Num};
use crate::signal::{same_value, store_written, Cell, SignalId, Signals, Value};

verus! {

/// What an event changed.
#[derive(Debug, Clone, Copy, PartialEq, Eq, Structural)]
pub struct InputChange {
    pub hovered_changed: bool,
    pub pressed_changed: bool,
    pub focused_changed: bool,
}

impl InputChange {
    /// Whether anything changed.
    pub fn any(&self) -> (r: bool)
        ensures
            r == (self.hovered_changed || self.pressed_changed || self.focused_changed),
    {
        self.hovered_changed || self.pressed_changed || self.focused_changed
    }
}

impl Default for InputChange {
    fn default() -> (r: InputChange)
        ensures
            !r.hovered_changed,
            !r.pressed_changed,
            !r.focused_changed,
    {
        InputChange { hovered_changed: false, pressed_changed: false, focused_changed: false }
    }
}

/// One of the cells that follow the pointer.
#[derive(Debug, Clone, Copy, PartialEq, Eq, Structural)]
pub enum Aspect {
    Hover,
    Pressed,
    Focused,
}

/// The cell of a node for an aspect.
pub open spec fn aspect_cell(i: Interact, aspect: Aspect) -> Option<SignalId> {
    match aspect {
        Aspect::Hover => i.hover,
        Aspect::Pressed => i.pressed,
        Aspect::Focused => i.focused,
    }
}

/// The cell behind hit entry `k`, if its node is there and has one.
pub open spec fn entry_cell<N: Num>(
    hits: Seq<HitEntry<N>>,
    nodes: Seq<Option<Node<N>>>,
    aspect: Aspect,
    k: int,
) -> Option<SignalId> {
    if live(nodes, hits[k].node_id) {
        aspect_cell(node_at(nodes, hits[k].node_id).interact, aspect)
    } else {
        None
    }
}

/// Every such cell is in a store of `cells` cells.
pub open spec fn cells_exist<N: Num>(
    hits: Seq<HitEntry<N>>,
    nodes: Seq<Option<Node<N>>>,
    cells: nat,
) -> bool {
    forall|k: int, aspect: Aspect|
        0 <= k < hits.len() ==> (#[trigger] entry_cell(hits, nodes, aspect, k) matches Some(id)
            ==> id.index < cells)
}

/// The store after the cells of the first `n` entries were set: on for the
/// target, off for the others.
pub open spec fn synced<N: Num>(
    hits: Seq<HitEntry<N>>,
    nodes: Seq<Option<Node<N>>>,
    aspect: Aspect,
    target: Option<NodeId>,
    store: Seq<Cell<N>>,
    n: nat,
) -> Seq<Cell<N>>
    decreases n,
{
    if n == 0 {
        store
    } else {
        let before = synced(hits, nodes, aspect, target, store, (n - 1) as nat);
        match entry_cell(hits, nodes, aspect, n - 1) {
            Some(id) => store_written(
                before,
                id.index as int,
                Value::Flag(Some(hits[n - 1].node_id) == target),
            ),
            None => before,
        }
    }
}

/// Whether setting the cell of entry `k` changes it.
pub open spec fn sync_changes<N: Num>(
    hits: Seq<HitEntry<N>>,
    nodes: Seq<Option<Node<N>>>,
    aspect: Aspect,
    target: Option<NodeId>,
    store: Seq<Cell<N>>,
    k: int,
) -> bool {
    match entry_cell(hits, nodes, aspect, k) {
        Some(id) => !same_value(
            synced(hits, nodes, aspect, target, store, k as nat)[id.index as int].value,
            Value::Flag(Some(hits[k].node_id) == target),
        ),
        None => false,
    }
}

/// Whether setting the cells changes any.
pub open spec fn any_sync_change<N: Num>(
    hits: Seq<HitEntry<N>>,
    nodes: Seq<Option<Node<N>>>,
    aspect: Aspect,
    target: Option<NodeId>,
    store: Seq<Cell<N>>,
) -> bool {
    exists|k: int|
        0 <= k < hits.len() && #[trigger] sync_changes(hits, nodes, aspect, target, store, k)
}

/// The cells of the entries follow their nodes: after they were set, the cell
/// of an entry is on if its node is the target, and off otherwise, unless the
/// cell is shared with another node.
pub proof fn cells_follow_their_nodes<N: Num>(
    hits: Seq<HitEntry<N>>,
    nodes: Seq<Option<Node<N>>>,
    aspect: Aspect,
    target: Option<NodeId>,
    store: Seq<Cell<N>>,
    n: nat,
    k: int,
)
    requires
        cells_exist(hits, nodes, store.len()),
        n <= hits.len(),
        0 <= k < n,
        entry_cell(hits, nodes, aspect, k) is Some,
        forall|j: int|
            0 <= j < hits.len() && #[trigger] entry_cell(hits, nodes, aspect, j) == entry_cell(
                hits,
                nodes,
                aspect,
                k,
            ) ==> hits[j].node_id == hits[k].node_id,
    ensures
        synced(hits, nodes, aspect, target, store, n).len() == store.len(),
        synced(hits, nodes, aspect, target, store, n)[entry_cell(
            hits,
            nodes,
            aspect,
            k,
        )->0.index as int].value == Value::<N>::Flag(Some(hits[k].node_id) == target),
    decreases n,
{
    let c = entry_cell(hits, nodes, aspect, k)->0;
    let before = synced(hits, nodes, aspect, target, store, (n - 1) as nat);
    syncing_keeps_the_store(hits, nodes, aspect, target, store, (n - 1) as nat);
    assert(entry_cell(hits, nodes, aspect, n - 1) matches Some(d) ==> d.index < store.len());
    if k == n - 1 {
        assert(c.index < store.len());
    } else {
        cells_follow_their_nodes(hits, nodes, aspect, target, store, (n - 1) as nat, k);
        if entry_cell(hits, nodes, aspect, n - 1) is Some && entry_cell(
            hits,
            nodes,
            aspect,
            n - 1,
        )->0.index == c.index {
            assert(entry_cell(hits, nodes, aspect, n - 1) == Some(c));
        }
    }
}

/// Setting cells adds none.
pub(crate) proof fn syncing_keeps_the_store<N: Num>(
    hits: Seq<HitEntry<N>>,
    nodes: Seq<Option<Node<N>>>,
    aspect: Aspect,
    target: Option<NodeId>,
    store: Seq<Cell<N>>,
    n: nat,
)
    requires
        cells_exist(hits, nodes, store.len()),
        n <= hits.len(),
    ensures
        synced(hits, nodes, aspect, target, store, n).len() == store.len(),
    decreases n,
{
    if n > 0 {
        assert(entry_cell(hits, nodes, aspect, n - 1) matches Some(d) ==> d.index < store.len());
        syncing_keeps_the_store(hits, nodes, aspect, target, store, (n - 1) as nat);
    }
}

/// Sets the cells of all entries: on for the target, off for the others.
/// Returns whether any changed.
pub fn sync_bool_signals<N: Num>(
    hits: &Vec<HitEntry<N>>,
    tree: &NodeTree<N>,
    aspect: Aspect,
    target: Option<NodeId>,
    signals: &mut Signals<N>,
) -> (r: bool)
    requires
        cells_exist(hits@, tree.nodes(), old(signals)@.len()),
    ensures
        final(signals)@ == synced(
            hits@,
            tree.nodes(),
            aspect,
            target,
            old(signals)@,
            hits@.len(),
        ),
        final(signals)@.len() == old(signals)@.len(),
        r == any_sync_change(hits@, tree.nodes(), aspect, target, old(signals)@),
{
    let ghost store = signals@;
    let ghost nodes = tree.nodes();
    let mut changed: bool = false;
    let mut i: usize = 0;
    while i < hits.len()
        invariant
            i <= hits@.len(),
            nodes == tree.nodes(),
            cells_exist(hits@, nodes, store.len()),
            signals@ == synced(hits@, nodes, aspect, target, store, i as nat),
            signals@.len() == store.len(),
            changed == exists|k: int|
                0 <= k < i && #[trigger] sync_changes(hits@, nodes, aspect, target, store, k),
        decreases hits@.len() - i,
    {
        let id: NodeId = hits[i].node_id;
        let cell: Option<SignalId> = match tree.get(id) {
            Some(n) => match aspect {
                Aspect::Hover => n.interact.hover,
                Aspect::Pressed => n.interact.pressed,
                Aspect::Focused => n.interact.focused,
            },
            None => None,
        };
        assert(cell == entry_cell(hits@, nodes, aspect, i as int));
        let mut here: bool = false;
        if let Some(c) = cell {
            let on: bool = match target {
                Some(t) => t == id,
                None => false,
            };
            here = signals.set(c, Value::Flag(on));
        }
        assert(here == sync_changes(hits@, nodes, aspect, target, store, i as int));
        if here {
            changed = true;
        }
        i += 1;
    }
    changed
}

/// The first entry at or after `i` that the point hits.
pub open spec fn first_hit<N: Num>(hits: Seq<HitEntry<N>>, x: N, y: N, i: nat) -> Option<NodeId>
    decreases hits.len() - i,
{
    if i >= hits.len() {
        None
    } else if hits[i as int].holds(x, y) {
        Some(hits[i as int].node_id)
    } else {
        first_hit(hits, x, y, i + 1)
    }
}

/// Whether the point lies on the first entry of `id` at or after `i`.
pub open spec fn over_entry<N: Num>(hits: Seq<HitEntry<N>>, id: NodeId, x: N, y: N, i: nat) -> bool
    decreases hits.len() - i,
{
    if i >= hits.len() {
        false
    } else if hits[i as int].node_id == id {
        hits[i as int].holds(x, y)
    } else {
        over_entry(hits, id, x, y, i + 1)
    }
}

pub(crate) fn point_over<N: Num>(hits: &Vec<HitEntry<N>>, id: NodeId, x: N, y: N) -> (r: bool)
    ensures
        r == over_entry(hits@, id, x, y, 0),
{
    let mut i: usize = 0;
    while i < hits.len()
        invariant
            i <= hits@.len(),
            over_entry(hits@, id, x, y, i as nat) == over_entry(hits@, id, x, y, 0),
        decreases hits@.len() - i,
    {
        if hits[i].node_id == id {
            return hits[i].contains(x, y);
        }
        i += 1;
    }
    false
}

/// Where the pointer is and what it does.
#[derive(Debug, Clone, Copy)]
pub struct InputState<N> {
    pub cursor: Option<[N; 2]>,
    /// Topmost interactive node under the pointer; while a press is
    /// captured, the node that captured it.
    pub hovered: Option<NodeId>,
    /// Node that a press began on, until the release.
    pub captured: Option<NodeId>,
    /// Node that was pressed last.
    pub focused: Option<NodeId>,
}

/// The store after cells were set, or as it was.
pub open spec fn synced_if<N: Num>(
    cond: bool,
    hits: Seq<HitEntry<N>>,
    nodes: Seq<Option<Node<N>>>,
    aspect: Aspect,
    target: Option<NodeId>,
    store: Seq<Cell<N>>,
) -> Seq<Cell<N>> {
    if cond {
        synced(hits, nodes, aspect, target, store, hits.len())
    } else {
        store
    }
}

/// The outcome of a movement of the pointer to a point.
pub open spec fn pointer_moved<N: Num>(
    before: InputState<N>,
    after: InputState<N>,
    hits: Seq<HitEntry<N>>,
    nodes: Seq<Option<Node<N>>>,
    store: Seq<Cell<N>>,
    store_after: Seq<Cell<N>>,
    x: N,
    y: N,
    r: InputChange,
) -> bool {
    let hover = before.hover_at(hits, x, y);
    let moved = hover != before.hovered;
    let held = before.captured is Some;
    let pressed = before.pressed_at(hits, x, y);
    let first = synced_if(moved, hits, nodes, Aspect::Hover, hover, store);
    &&& after == (InputState { cursor: Some([x, y]), hovered: hover, ..before })
    &&& store_after == synced_if(held, hits, nodes, Aspect::Pressed, pressed, first)
    &&& store_after.len() == store.len()
    &&& r.hovered_changed == (moved && any_sync_change(hits, nodes, Aspect::Hover, hover, store))
    &&& r.pressed_changed == (held && any_sync_change(
        hits,
        nodes,
        Aspect::Pressed,
        pressed,
        first,
    ))
    &&& !r.focused_changed
}

/// The outcome of the pointer leaving the window.
pub open spec fn pointer_left<N: Num>(
    before: InputState<N>,
    after: InputState<N>,
    hits: Seq<HitEntry<N>>,
    nodes: Seq<Option<Node<N>>>,
    store: Seq<Cell<N>>,
    store_after: Seq<Cell<N>>,
    r: InputChange,
) -> bool {
    let was = before.hovered is Some;
    &&& after == (InputState { cursor: None, hovered: None, ..before })
    &&& store_after == synced_if(was, hits, nodes, Aspect::Hover, None, store)
    &&& store_after.len() == store.len()
    &&& r.hovered_changed == (was && any_sync_change(hits, nodes, Aspect::Hover, None, store))
    &&& !r.pressed_changed
    &&& !r.focused_changed
}

/// The outcome of a press.
pub open spec fn press_taken<N: Num>(
    before: InputState<N>,
    after: InputState<N>,
    hits: Seq<HitEntry<N>>,
    nodes: Seq<Option<Node<N>>>,
    store: Seq<Cell<N>>,
    store_after: Seq<Cell<N>>,
    r: InputChange,
) -> bool {
    let target = before.hovered;
    let moved = before.focused != target;
    let first = synced(hits, nodes, Aspect::Pressed, target, store, hits.len());
    &&& after == (InputState { captured: target, focused: target, ..before })
    &&& store_after == synced_if(moved, hits, nodes, Aspect::Focused, target, first)
    &&& store_after.len() == store.len()
    &&& r.pressed_changed == any_sync_change(hits, nodes, Aspect::Pressed, target, store)
    &&& r.focused_changed == (moved && any_sync_change(
        hits,
        nodes,
        Aspect::Focused,
        target,
        first,
    ))
    &&& !r.hovered_changed
}

/// The outcome of the end of a press.
pub open spec fn press_ended<N: Num>(
    before: InputState<N>,
    after: InputState<N>,
    hits: Seq<HitEntry<N>>,
    nodes: Seq<Option<Node<N>>>,
    store: Seq<Cell<N>>,
    store_after: Seq<Cell<N>>,
    r: InputChange,
) -> bool {
    let hover = match before.cursor {
        Some(c) => first_hit(hits, c[0], c[1], 0),
        None => before.hovered,
    };
    let moved = hover != before.hovered;
    let first = synced(hits, nodes, Aspect::Pressed, None, store, hits.len());
    &&& after == (InputState { captured: None, hovered: hover, ..before })
    &&& store_after == synced_if(moved, hits, nodes, Aspect::Hover, hover, first)
    &&& store_after.len() == store.len()
    &&& r.pressed_changed == any_sync_change(hits, nodes, Aspect::Pressed, None, store)
    &&& r.hovered_changed == (moved && any_sync_change(hits, nodes, Aspect::Hover, hover, first))
    &&& !r.focused_changed
}

impl<N: Num> InputState<N> {
    /// No pointer yet.
    pub fn new() -> (r: InputState<N>)
        ensures
            r.cursor is None,
            r.hovered is None,
            r.captured is None,
            r.focused is None,
    {
        InputState { cursor: None, hovered: None, captured: None, focused: None }
    }

    /// The topmost interactive node at a point.
    pub fn hit_test(hits: &Vec<HitEntry<N>>, x: N, y: N) -> (r: Option<NodeId>)
        ensures
            r == first_hit(hits@, x, y, 0),
    {
        let mut i: usize = 0;
        while i < hits.len()
            invariant
                i <= hits@.len(),
                first_hit(hits@, x, y, i as nat) == first_hit(hits@, x, y, 0),
            decreases hits@.len() - i,
        {
            if hits[i].contains(x, y) {
                return Some(hits[i].node_id);
            }
            i += 1;
        }
        None
    }

    /// The node that a pointer at a point hovers.
    pub open spec fn hover_at(&self, hits: Seq<HitEntry<N>>, x: N, y: N) -> Option<NodeId> {
        if self.captured is Some {
            self.captured
        } else {
            first_hit(hits, x, y, 0)
        }
    }

    /// The node that looks pressed while the pointer is at a point: the
    /// captured one, as long as the pointer is over it.
    pub open spec fn pressed_at(&self, hits: Seq<HitEntry<N>>, x: N, y: N) -> Option<NodeId> {
        match self.captured {
            Some(cap) => if over_entry(hits, cap, x, y, 0) {
                Some(cap)
            } else {
                None
            },
            None => None,
        }
    }

    /// The pointer moved. Hover follows it, unless a press is captured;
    /// then the captured node looks pressed only while the pointer is over
    /// it.
    pub fn on_cursor_moved(
        &mut self,
        x: N,
        y: N,
        hits: &Vec<HitEntry<N>>,
        tree: &NodeTree<N>,
        signals: &mut Signals<N>,
    ) -> (r: InputChange)
        requires
            cells_exist(hits@, tree.nodes(), old(signals)@.len()),
        ensures
            pointer_moved(
                *old(self),
                *final(self),
                hits@,
                tree.nodes(),
                old(signals)@,
                final(signals)@,
                x,
                y,
                r,
            ),
    {
        self.cursor = Some([x, y]);
        let new_hover: Option<NodeId> = if self.captured.is_some() {
            self.captured
        } else {
            InputState::hit_test(hits, x, y)
        };
        let mut change: InputChange = InputChange::default();
        if !same_node(new_hover, self.hovered) {
            self.hovered = new_hover;
            change.hovered_changed = sync_bool_signals(
                hits,
                tree,
                Aspect::Hover,
                new_hover,
                signals,
            );
        }
        if let Some(cap) = self.captured {
            let target: Option<NodeId> = if point_over(hits, cap, x, y) {
                Some(cap)
            } else {
                None
            };
            change.pressed_changed = sync_bool_signals(
                hits,
                tree,
                Aspect::Pressed,
                target,
                signals,
            );
        }
        change
    }

    /// The pointer left the window: nothing is hovered.
    pub fn on_cursor_left(
        &mut self,
        hits: &Vec<HitEntry<N>>,
        tree: &NodeTree<N>,
        signals: &mut Signals<N>,
    ) -> (r: InputChange)
        requires
            cells_exist(hits@, tree.nodes(), old(signals)@.len()),
        ensures
            pointer_left(
                *old(self),
                *final(self),
                hits@,
                tree.nodes(),
                old(signals)@,
                final(signals)@,
                r,
            ),
    {
        self.cursor = None;
        let mut change: InputChange = InputChange::default();
        if self.hovered.is_some() {
            self.hovered = None;
            change.hovered_changed = sync_bool_signals(hits, tree, Aspect::Hover, None, signals);
        }
        change
    }

    /// The left button went down: the hovered node captures the press, looks
    /// pressed, and takes the focus.
    pub fn on_left_pressed(
        &mut self,
        hits: &Vec<HitEntry<N>>,
        tree: &NodeTree<N>,
        signals: &mut Signals<N>,
    ) -> (r: InputChange)
        requires
            cells_exist(hits@, tree.nodes(), old(signals)@.len()),
        ensures
            press_taken(
                *old(self),
                *final(self),
                hits@,
                tree.nodes(),
                old(signals)@,
                final(signals)@,
                r,
            ),
    {
        let target: Option<NodeId> = self.hovered;
        self.captured = target;
        let mut change: InputChange = InputChange::default();
        change.pressed_changed = sync_bool_signals(hits, tree, Aspect::Pressed, target, signals);
        if !same_node(self.focused, target) {
            self.focused = target;
            change.focused_changed = sync_bool_signals(
                hits,
                tree,
                Aspect::Focused,
                target,
                signals,
            );
        }
        change
    }

    /// The left button went up: nothing is captured or pressed, and hover is
    /// found anew at the pointer.
    pub fn on_left_released(
        &mut self,
        hits: &Vec<HitEntry<N>>,
        tree: &NodeTree<N>,
        signals: &mut Signals<N>,
    ) -> (r: InputChange)
        requires
            cells_exist(hits@, tree.nodes(), old(signals)@.len()),
        ensures
            press_ended(
                *old(self),
                *final(self),
                hits@,
                tree.nodes(),
                old(signals)@,
                final(signals)@,
                r,
            ),
    {
        self.captured = None;
        let mut change: InputChange = InputChange::default();
        change.pressed_changed = sync_bool_signals(hits, tree, Aspect::Pressed, None, signals);
        if let Some(c) = self.cursor {
            let new_hover: Option<NodeId> = InputState::hit_test(hits, c[0], c[1]);
            if !same_node(new_hover, self.hovered) {
                self.hovered = new_hover;
                change.hovered_changed = sync_bool_signals(
                    hits,
                    tree,
                    Aspect::Hover,
                    new_hover,
                    signals,
                );
            }
        }
        change
    }
}

impl<N: Num> Default for InputState<N> {
    fn default() -> (r: InputState<N>)
        ensures
            r.cursor is None,
            r.hovered is None,
            r.captured is None,
            r.focused is None,
    {
        InputState::new()
    }
}

/// Whether two optional ids are the same.
pub fn same_node(a: Option<NodeId>, b: Option<NodeId>) -> (r: bool)
    ensures
        r == (a == b),
{
    match (a, b) {
        (Some(x), Some(y)) => x == y,
        (None, None) => true,
        _ => false,
    }
}

/// What a press on the scrollbars came to.
#[derive(Debug, Clone, Copy)]
pub enum ScrollbarPress<N> {
    /// No bar was hit.
    Miss,
    /// A thumb was grabbed.
    StartDrag {
        node_id: NodeId,
        axis: ScrollAxis,
        pointer_origin: N,
        scroll_origin: N,
        track_travel: N,
        max_offset: N,
    },
    /// The track was hit beside the thumb, and the content scrolls there.
    JumpedToPosition,
}

/// The last of the first `n` bars whose visible track holds the point: the
/// innermost one.
pub open spec fn last_bar<N: Num>(bars: Seq<ScrollbarHit<N>>, x: N, y: N, n: nat) -> Option<int>
    decreases n,
{
    if n == 0 {
        None
    } else if bars[n - 1].under(x, y) {
        Some(n - 1)
    } else {
        last_bar(bars, x, y, (n - 1) as nat)
    }
}

/// The component of a point along an axis.
pub open spec fn component<N>(axis: ScrollAxis, v: [N; 2]) -> N {
    match axis {
        ScrollAxis::X => v[0],
        ScrollAxis::Y => v[1],
    }
}

/// A pair with one component replaced.
pub open spec fn with_component<T>(axis: ScrollAxis, v: [T; 2], c: T) -> [T; 2] {
    match axis {
        ScrollAxis::X => [c, v[1]],
        ScrollAxis::Y => [v[0], c],
    }
}

fn component_of<N: Num>(axis: ScrollAxis, v: [N; 2]) -> (r: N)
    ensures
        r == component(axis, v),
{
    match axis {
        ScrollAxis::X => v[0],
        ScrollAxis::Y => v[1],
    }
}

/// Current scroll position of a node, zero where it does not scroll.
pub open spec fn position_of<N: Num>(nodes: Seq<Option<Node<N>>>, id: NodeId) -> [N; 2] {
    if live(nodes, id) && node_at(nodes, id).scroll is Some {
        node_at(nodes, id).scroll->0.current
    } else {
        [zero(), zero()]
    }
}

/// Scroll target of a node, zero where it does not scroll.
pub open spec fn target_of<N: Num>(nodes: Seq<Option<Node<N>>>, id: NodeId) -> [N; 2] {
    if live(nodes, id) && node_at(nodes, id).scroll is Some {
        node_at(nodes, id).scroll->0.target
    } else {
        [zero(), zero()]
    }
}

/// Which bars of a node are held.
pub open spec fn held_bars<N: Num>(nodes: Seq<Option<Node<N>>>, id: NodeId) -> [bool; 2] {
    if live(nodes, id) && node_at(nodes, id).scroll is Some {
        node_at(nodes, id).scroll->0.bar_active
    } else {
        [false, false]
    }
}

fn read_position<N: Num>(tree: &NodeTree<N>, id: NodeId) -> (r: [N; 2])
    ensures
        r == position_of(tree.nodes(), id),
{
    match tree.get(id) {
        Some(n) => match n.scroll {
            Some(s) => s.current,
            None => [N::of_ratio(0, 1), N::of_ratio(0, 1)],
        },
        None => [N::of_ratio(0, 1), N::of_ratio(0, 1)],
    }
}

fn read_target<N: Num>(tree: &NodeTree<N>, id: NodeId) -> (r: [N; 2])
    ensures
        r == target_of(tree.nodes(), id),
{
    match tree.get(id) {
        Some(n) => match n.scroll {
            Some(s) => s.target,
            None => [N::of_ratio(0, 1), N::of_ratio(0, 1)],
        },
        None => [N::of_ratio(0, 1), N::of_ratio(0, 1)],
    }
}

fn read_held<N: Num>(tree: &NodeTree<N>, id: NodeId) -> (r: [bool; 2])
    ensures
        r == held_bars(tree.nodes(), id),
{
    match tree.get(id) {
        Some(n) => match n.scroll {
            Some(s) => s.bar_active,
            None => [false, false],
        },
        None => [false, false],
    }
}

/// The bar's thumb length along its axis.
pub open spec fn thumb_len<N: Num>(b: ScrollbarHit<N>) -> N {
    match b.axis {
        ScrollAxis::X => b.thumb[2].difference(b.thumb[0]),
        ScrollAxis::Y => b.thumb[3].difference(b.thumb[1]),
    }
}

/// The scroll offset that brings the middle of the thumb to a point.
pub open spec fn offset_at<N: Num>(b: ScrollbarHit<N>, pointer: N) -> N {
    let track_min = component(b.axis, [b.track[0], b.track[1]]);
    let raw = pointer.difference(track_min).difference(
        thumb_len(b).product(N::fraction(1, 2)),
    );
    unit_clamped(raw.quotient(b.track_travel)).product(b.max_offset)
}

/// What a press at a point on bar `b` comes to, and the tree after it.
pub open spec fn bar_pressed<N: Num>(
    b: ScrollbarHit<N>,
    nodes: Seq<Option<Node<N>>>,
    cursor: [N; 2],
) -> (ScrollbarPress<N>, Seq<Option<Node<N>>>) {
    let pointer = component(b.axis, cursor);
    let n = node_at(nodes, b.node_id);
    if inside(b.thumb, cursor[0], cursor[1]) {
        (
            ScrollbarPress::StartDrag {
                node_id: b.node_id,
                axis: b.axis,
                pointer_origin: pointer,
                scroll_origin: component(b.axis, position_of(nodes, b.node_id)),
                track_travel: b.track_travel,
                max_offset: b.max_offset,
            },
            with_node(
                nodes,
                b.node_id,
                bars_held(n, with_component(b.axis, held_bars(nodes, b.node_id), true)),
            ),
        )
    } else if zero::<N>().below(b.track_travel) {
        (
            ScrollbarPress::JumpedToPosition,
            with_node(
                nodes,
                b.node_id,
                retargeted(
                    n,
                    with_component(
                        b.axis,
                        target_of(nodes, b.node_id),
                        offset_at(b, pointer),
                    ),
                ),
            ),
        )
    } else {
        (ScrollbarPress::JumpedToPosition, nodes)
    }
}

/// What a press at a point on bar `b` marks: how the bar looks, or where the
/// content is.
pub open spec fn bar_marked<N: Num>(
    b: ScrollbarHit<N>,
    nodes: Seq<Option<Node<N>>>,
    cursor: [N; 2],
    mask: u32,
) -> u32 {
    if inside(b.thumb, cursor[0], cursor[1]) {
        dirty::marked_if(mask, live(nodes, b.node_id), dirty::VISUAL)
    } else {
        dirty::marked_if(
            mask,
            live(nodes, b.node_id) && zero::<N>().below(b.track_travel),
            dirty::SCROLL,
        )
    }
}

/// Tries a press on the scrollbars. The innermost bar under the pointer
/// takes it: on the thumb a drag starts, elsewhere on the track the content
/// scrolls so that the thumb comes under the pointer.
pub fn press_scrollbar<N: Num>(
    cursor: [N; 2],
    bars: &Vec<ScrollbarHit<N>>,
    tree: &mut NodeTree<N>,
) -> (r: ScrollbarPress<N>)
    requires
        old(tree).wf(),
    ensures
        final(tree).wf(),
        final(tree).root_ids() == old(tree).root_ids(),
        match last_bar(bars@, cursor[0], cursor[1], bars@.len()) {
            None => {
                &&& r is Miss
                &&& final(tree).nodes() == old(tree).nodes()
                &&& final(tree).dirty_mask() == old(tree).dirty_mask()
            },
            Some(k) => {
                &&& (r, final(tree).nodes()) == bar_pressed(bars@[k], old(tree).nodes(), cursor)
                &&& final(tree).dirty_mask() == bar_marked(
                    bars@[k],
                    old(tree).nodes(),
                    cursor,
                    old(tree).dirty_mask(),
                )
            },
        },
{
    let ghost nodes = tree.nodes();
    let mut i: usize = bars.len();
    while i > 0 && !bars[i - 1].contains(cursor[0], cursor[1])
        invariant
            i <= bars@.len(),
            last_bar(bars@, cursor[0], cursor[1], i as nat) == last_bar(
                bars@,
                cursor[0],
                cursor[1],
                bars@.len(),
            ),
        decreases i,
    {
        i -= 1;
    }
    if i == 0 {
        return ScrollbarPress::Miss;
    }
    let bar: ScrollbarHit<N> = bars[i - 1];
    assert(last_bar(bars@, cursor[0], cursor[1], bars@.len()) == Some(i - 1));
    let pointer: N = component_of(bar.axis, cursor);
    if crate::node::hit::rect_contains(bar.thumb, cursor[0], cursor[1]) {
        let scroll_origin: N = component_of(bar.axis, read_position(tree, bar.node_id));
        let held: [bool; 2] = read_held(tree, bar.node_id);
        let active: [bool; 2] = match bar.axis {
            ScrollAxis::X => [true, held[1]],
            ScrollAxis::Y => [held[0], true],
        };
        tree.set_bar_active(bar.node_id, active);
        return ScrollbarPress::StartDrag {
            node_id: bar.node_id,
            axis: bar.axis,
            pointer_origin: pointer,
            scroll_origin,
            track_travel: bar.track_travel,
            max_offset: bar.max_offset,
        };
    }
    let z: N = N::of_ratio(0, 1);
    if z.lt(bar.track_travel) {
        let track_min: N = component_of(bar.axis, [bar.track[0], bar.track[1]]);
        let thumb: N = match bar.axis {
            ScrollAxis::X => bar.thumb[2].minus(bar.thumb[0]),
            ScrollAxis::Y => bar.thumb[3].minus(bar.thumb[1]),
        };
        let raw: N = pointer.minus(track_min).minus(thumb.times(N::of_ratio(1, 2)));
        let off: N = clamp_unit(raw.over(bar.track_travel)).times(bar.max_offset);
        let was: [N; 2] = read_target(tree, bar.node_id);
        let target: [N; 2] = match bar.axis {
            ScrollAxis::X => [off, was[1]],
            ScrollAxis::Y => [was[0], off],
        };
        tree.set_scroll_target(bar.node_id, target);
    }
    ScrollbarPress::JumpedToPosition
}

/// The scroll position that a thumb drag asks for.
pub open spec fn drag_position<N: Num>(
    pointer: N,
    pointer_origin: N,
    scroll_origin: N,
    track_travel: N,
    max_offset: N,
) -> N {
    scroll_origin.sum(
        pointer.difference(pointer_origin).product(max_offset.quotient(track_travel)),
    )
}

/// The smallest step that counts as a movement.
pub open spec fn epsilon<N: Num>() -> N {
    N::fraction(1, 8_388_608)
}

/// Goes on with a thumb drag: the content follows the pointer at once.
/// Returns whether it moved.
pub fn drag_to<N: Num>(
    cursor: [N; 2],
    node_id: NodeId,
    axis: ScrollAxis,
    pointer_origin: N,
    scroll_origin: N,
    track_travel: N,
    max_offset: N,
    tree: &mut NodeTree<N>,
) -> (r: bool)
    requires
        old(tree).wf(),
    ensures
        final(tree).wf(),
        final(tree).root_ids() == old(tree).root_ids(),
        final(tree).dirty_mask() == dirty::marked_if(
            old(tree).dirty_mask(),
            live(old(tree).nodes(), node_id) && !track_travel.at_most(zero())
                && !max_offset.at_most(zero()),
            dirty::SCROLL,
        ),
        track_travel.at_most(zero()) || max_offset.at_most(zero()) ==> !r && final(tree).nodes()
            == old(tree).nodes(),
        !track_travel.at_most(zero()) && !max_offset.at_most(zero()) ==> {
            &&& final(tree).nodes() == with_node(
                old(tree).nodes(),
                node_id,
                jumped(
                    node_at(old(tree).nodes(), node_id),
                    axis,
                    drag_position(
                        component(axis, cursor),
                        pointer_origin,
                        scroll_origin,
                        track_travel,
                        max_offset,
                    ),
                ),
            )
            &&& r == epsilon::<N>().below(
                component(axis, position_of(final(tree).nodes(), node_id)).difference(
                    component(axis, position_of(old(tree).nodes(), node_id)),
                ).magnitude(),
            )
        },
{
    let z: N = N::of_ratio(0, 1);
    if track_travel.le(z) || max_offset.le(z) {
        return false;
    }
    let pointer: N = component_of(axis, cursor);
    let delta: N = pointer.minus(pointer_origin).times(max_offset.over(track_travel));
    let to: N = scroll_origin.plus(delta);
    let before: N = component_of(axis, read_position(tree, node_id));
    tree.set_scroll_immediate(node_id, axis, to);
    let after: N = component_of(axis, read_position(tree, node_id));
    N::of_ratio(1, 8_388_608).lt(after.minus(before).abs())
}

/// The tree after a drag on one axis ended.
pub open spec fn drag_ended<N: Num>(
    nodes: Seq<Option<Node<N>>>,
    id: NodeId,
    axis: ScrollAxis,
) -> Seq<Option<Node<N>>> {
    let n = bars_held(
        node_at(nodes, id),
        with_component(axis, held_bars(nodes, id), false),
    );
    with_node(nodes, id, retargeted(n, position_of(nodes, id)))
}

/// What the end of a drag marks.
pub open spec fn drag_end_marked(mask: u32, there: bool) -> u32 {
    dirty::marked_if(dirty::marked_if(mask, there, dirty::VISUAL), there, dirty::SCROLL)
}

/// Ends a thumb drag: the bar is let go, and the content settles where it
/// is, within its range.
pub fn end_drag<N: Num>(node_id: NodeId, axis: ScrollAxis, tree: &mut NodeTree<N>)
    requires
        old(tree).wf(),
    ensures
        final(tree).wf(),
        final(tree).root_ids() == old(tree).root_ids(),
        final(tree).nodes() == drag_ended(old(tree).nodes(), node_id, axis),
        final(tree).dirty_mask() == drag_end_marked(
            old(tree).dirty_mask(),
            live(old(tree).nodes(), node_id),
        ),
{
    let ghost nodes = tree.nodes();
    let held: [bool; 2] = read_held(tree, node_id);
    let active: [bool; 2] = match axis {
        ScrollAxis::X => [false, held[1]],
        ScrollAxis::Y => [held[0], false],
    };
    tree.set_bar_active(node_id, active);
    let current: [N; 2] = read_position(tree, node_id);
    tree.set_scroll_target(node_id, current);
    assert(tree.nodes() =~= drag_ended(nodes, node_id, axis));
}

/// Whether the pointer is on a bar of a node and axis.
pub open spec fn bar_under<N: Num>(
    cursor: Option<[N; 2]>,
    bars: Seq<ScrollbarHit<N>>,
    id: NodeId,
    axis: ScrollAxis,
) -> bool {
    match cursor {
        Some(c) => exists|k: int|
            0 <= k < bars.len() && (#[trigger] bars[k]).node_id == id && bars[k].axis == axis
                && bars[k].under(c[0], c[1]),
        None => false,
    }
}

/// Which bars of a node the pointer is on.
pub open spec fn hover_flags<N: Num>(
    cursor: Option<[N; 2]>,
    bars: Seq<ScrollbarHit<N>>,
    id: NodeId,
) -> [bool; 2] {
    [
        bar_under(cursor, bars, id, ScrollAxis::X),
        bar_under(cursor, bars, id, ScrollAxis::Y),
    ]
}

/// One of the first `n` bars belongs to the node.
pub open spec fn has_bar<N: Num>(bars: Seq<ScrollbarHit<N>>, id: NodeId, n: int) -> bool {
    exists|k: int| 0 <= k < n && (#[trigger] bars[k]).node_id == id
}

fn flags_for<N: Num>(
    cursor: Option<[N; 2]>,
    bars: &Vec<ScrollbarHit<N>>,
    id: NodeId,
) -> (r: [bool; 2])
    ensures
        r == hover_flags(cursor, bars@, id),
{
    let mut over_x: bool = false;
    let mut over_y: bool = false;
    if let Some(c) = cursor {
        let mut i: usize = 0;
        while i < bars.len()
            invariant
                i <= bars@.len(),
                over_x == exists|k: int|
                    0 <= k < i && (#[trigger] bars@[k]).node_id == id && bars@[k].axis
                        == ScrollAxis::X && bars@[k].under(c[0], c[1]),
                over_y == exists|k: int|
                    0 <= k < i && (#[trigger] bars@[k]).node_id == id && bars@[k].axis
                        == ScrollAxis::Y && bars@[k].under(c[0], c[1]),
            decreases bars@.len() - i,
        {
            let b: ScrollbarHit<N> = bars[i];
            if b.node_id == id && b.contains(c[0], c[1]) {
                match b.axis {
                    ScrollAxis::X => {
                        over_x = true;
                    },
                    ScrollAxis::Y => {
                        over_y = true;
                    },
                }
            }
            i += 1;
        }
    }
    [over_x, over_y]
}

/// The tree after the bars that belong to one of the first `n` bars' nodes
/// were marked.
pub open spec fn hover_applied<N: Num>(
    before: Seq<Option<Node<N>>>,
    after: Seq<Option<Node<N>>>,
    cursor: Option<[N; 2]>,
    bars: Seq<ScrollbarHit<N>>,
    n: int,
) -> bool {
    &&& after.len() == before.len()
    &&& forall|id: NodeId| #[trigger]
        live(before, id) ==> live(after, id) && node_at(after, id) == if has_bar(bars, id, n) {
            bars_hovered(node_at(before, id), hover_flags(cursor, bars, id))
        } else {
            node_at(before, id)
        }
    &&& forall|id: NodeId| #[trigger] live(after, id) ==> live(before, id)
}

/// Marking the bars of a node changes something.
pub open spec fn hover_changes<N: Num>(
    nodes: Seq<Option<Node<N>>>,
    cursor: Option<[N; 2]>,
    bars: Seq<ScrollbarHit<N>>,
    k: int,
) -> bool {
    let id = bars[k].node_id;
    live(nodes, id) && node_at(nodes, id).scroll is Some && node_at(nodes, id).scroll->0.bar_hover
        != hover_flags(cursor, bars, id)
}

/// Marks every bar that the pointer is on as hovered, and the other bars of
/// the same nodes as not. Returns whether any mark changed.
pub fn update_scrollbar_hover<N: Num>(
    cursor: Option<[N; 2]>,
    bars: &Vec<ScrollbarHit<N>>,
    tree: &mut NodeTree<N>,
) -> (r: bool)
    requires
        old(tree).wf(),
    ensures
        final(tree).wf(),
        final(tree).root_ids() == old(tree).root_ids(),
        hover_applied(
            old(tree).nodes(),
            final(tree).nodes(),
            cursor,
            bars@,
            bars@.len() as int,
        ),
        r == exists|k: int|
            0 <= k < bars@.len() && #[trigger] hover_changes(
                old(tree).nodes(),
                cursor,
                bars@,
                k,
            ),
        final(tree).dirty_mask() == dirty::marked_if(old(tree).dirty_mask(), r, dirty::VISUAL),
{
    let ghost before = tree.nodes();
    let mut changed: bool = false;
    let mut i: usize = 0;
    while i < bars.len()
        invariant
            i <= bars@.len(),
            tree.wf(),
            tree.root_ids() == old(tree).root_ids(),
            hover_applied(before, tree.nodes(), cursor, bars@, i as int),
            changed == exists|k: int|
                0 <= k < i && #[trigger] hover_changes(before, cursor, bars@, k),
            tree.dirty_mask() == dirty::marked_if(old(tree).dirty_mask(), changed, dirty::VISUAL),
        decreases bars@.len() - i,
    {
        let id: NodeId = bars[i].node_id;
        let flags: [bool; 2] = flags_for(cursor, bars, id);
        let ghost mid = tree.nodes();
        proof {
            assert(live(before, id) ==> live(mid, id));
            assert(live(mid, id) ==> live(before, id));
        }
        let here: bool = tree.set_bar_hover(id, flags);
        proof {
            let after = tree.nodes();
            assert forall|d: NodeId| #[trigger] live(before, d) implies live(after, d) && node_at(
                after,
                d,
            ) == if has_bar(bars@, d, i + 1) {
                bars_hovered(node_at(before, d), hover_flags(cursor, bars@, d))
            } else {
                node_at(before, d)
            } by {
                assert(live(mid, d));
                if d == id {
                    assert(bars@[i as int].node_id == d);
                    assert(has_bar(bars@, d, i + 1));
                } else {
                    assert(has_bar(bars@, d, i + 1) == has_bar(bars@, d, i as int)) by {
                        if has_bar(bars@, d, i + 1) {
                            let k = choose|k: int|
                                0 <= k < i + 1 && (#[trigger] bars@[k]).node_id == d;
                            assert(k < i);
                        }
                        if has_bar(bars@, d, i as int) {
                            let k = choose|k: int|
                                0 <= k < i && (#[trigger] bars@[k]).node_id == d;
                            assert(bars@[k].node_id == d);
                        }
                    }
                }
            }
            assert forall|d: NodeId| #[trigger] live(after, d) implies live(before, d) by {
                assert(live(mid, d));
            }
            if has_bar(bars@, id, i as int) {
                let k = choose|k: int| 0 <= k < i && (#[trigger] bars@[k]).node_id == id;
                assert(!here);
                assert(hover_changes(before, cursor, bars@, i as int) == hover_changes(
                    before,
                    cursor,
                    bars@,
                    k,
                ));
            } else {
                assert(here == hover_changes(before, cursor, bars@, i as int));
            }
        }
        if here {
            proof {
                dirty::marks_stick(old(tree).dirty_mask(), dirty::VISUAL);
            }
            changed = true;
        }
        i += 1;
    }
    changed
}

/// The last of the first `n` containers that the point hits: the innermost
/// one.
pub open spec fn last_container<N: Num>(
    hits: Seq<ScrollHit<N>>,
    x: N,
    y: N,
    n: nat,
) -> Option<int>
    decreases n,
{
    if n == 0 {
        None
    } else if hits[n - 1].holds(x, y) {
        Some(n - 1)
    } else {
        last_container(hits, x, y, (n - 1) as nat)
    }
}

fn container_at<N: Num>(hits: &Vec<ScrollHit<N>>, x: N, y: N) -> (r: Option<usize>)
    ensures
        match r {
            Some(k) => last_container(hits@, x, y, hits@.len()) == Some(k as int) && k
                < hits@.len(),
            None => last_container(hits@, x, y, hits@.len()) is None,
        },
{
    let mut i: usize = hits.len();
    while i > 0
        invariant
            i <= hits@.len(),
            last_container(hits@, x, y, i as nat) == last_container(hits@, x, y, hits@.len()),
        decreases i,
    {
        if hits[i - 1].contains(x, y) {
            return Some(i - 1);
        }
        i -= 1;
    }
    None
}

/// A movement too small to count.
pub open spec fn negligible<N: Num>(d: [N; 2]) -> bool {
    d[0].magnitude().below(epsilon()) && d[1].magnitude().below(epsilon())
}

fn is_negligible<N: Num>(d: [N; 2]) -> (r: bool)
    ensures
        r == negligible(d),
{
    let e: N = N::of_ratio(1, 8_388_608);
    d[0].abs().lt(e) && d[1].abs().lt(e)
}

/// What a chain of containers makes of a movement.
#[verifier::ext_equal]
pub struct Bubble<N> {
    pub nodes: Seq<Option<Node<N>>>,
    pub moved: bool,
    /// Whether any was asked to.
    pub asked: bool,
}

/// The part of a movement that a node makes, none where it is gone.
pub open spec fn taken<N: Num>(
    nodes: Seq<Option<Node<N>>>,
    id: NodeId,
    request: [N; 2],
    snap: bool,
) -> [N; 2] {
    if live(nodes, id) {
        absorbed(node_at(nodes, id), request, snap)
    } else {
        [zero(), zero()]
    }
}

/// A movement handed along a chain from position `i` on: each container
/// takes what it can and the next one gets the rest, until nothing that
/// counts is left. With `snap` each goes to where its content may rest.
pub open spec fn bubbled<N: Num>(
    nodes: Seq<Option<Node<N>>>,
    chain: Seq<NodeId>,
    request: [N; 2],
    snap: bool,
    moved: bool,
    asked: bool,
    i: nat,
) -> Bubble<N>
    decreases chain.len() - i,
{
    if i >= chain.len() {
        Bubble { nodes, moved, asked }
    } else {
        let id = chain[i as int];
        let part = taken(nodes, id, request, snap);
        let after = with_node(nodes, id, nudged(node_at(nodes, id), request, snap));
        let rest = [request[0].difference(part[0]), request[1].difference(part[1])];
        let now = moved || !equals2(part, [zero(), zero()]);
        let marks = asked || scrolls_at(nodes, id);
        if negligible(rest) {
            Bubble { nodes: after, moved: now, asked: marks }
        } else {
            bubbled(after, chain, rest, snap, now, marks, i + 1)
        }
    }
}

/// Nothing is scrolled.
pub open spec fn unscrolled<N: Num>(nodes: Seq<Option<Node<N>>>) -> Bubble<N> {
    Bubble { nodes, moved: false, asked: false }
}

/// The tree was scrolled as `b` says, and `r` tells whether anything moved.
pub open spec fn scrolled_by<N: Num>(
    before: NodeTree<N>,
    after: NodeTree<N>,
    r: bool,
    b: Bubble<N>,
) -> bool {
    &&& after.nodes() == b.nodes
    &&& r == b.moved
    &&& after.dirty_mask() == dirty::marked_if(before.dirty_mask(), b.asked, dirty::SCROLL)
}

/// Hands a movement along a chain of containers. Returns whether any moved.
fn bubble<N: Num>(
    tree: &mut NodeTree<N>,
    chain: &Vec<NodeId>,
    delta: [N; 2],
    snap: bool,
) -> (r: bool)
    requires
        old(tree).wf(),
    ensures
        final(tree).wf(),
        final(tree).root_ids() == old(tree).root_ids(),
        scrolled_by(
            *old(tree),
            *final(tree),
            r,
            bubbled(old(tree).nodes(), chain@, delta, snap, false, false, 0),
        ),
{
    let z: N = N::of_ratio(0, 1);
    let ghost goal = bubbled(tree.nodes(), chain@, delta, snap, false, false, 0);
    let ghost mut asked = false;
    let mut request: [N; 2] = delta;
    let mut moved: bool = false;
    let mut i: usize = 0;
    while i < chain.len()
        invariant
            i <= chain@.len(),
            tree.wf(),
            tree.root_ids() == old(tree).root_ids(),
            z == zero::<N>(),
            bubbled(tree.nodes(), chain@, request, snap, moved, asked, i as nat) == goal,
            goal == bubbled(old(tree).nodes(), chain@, delta, snap, false, false, 0),
            tree.dirty_mask() == dirty::marked_if(old(tree).dirty_mask(), asked, dirty::SCROLL),
        decreases chain@.len() - i,
    {
        proof {
            dirty::marks_stick(old(tree).dirty_mask(), dirty::SCROLL);
            asked = asked || scrolls_at(tree.nodes(), chain@[i as int]);
        }
        let part: [N; 2] = tree.shift_scroll(chain[i], request, snap);
        if !eq2(part, [z, z]) {
            moved = true;
        }
        request = [request[0].minus(part[0]), request[1].minus(part[1])];
        i += 1;
        if is_negligible(request) {
            return moved;
        }
    }
    moved
}

/// The movement that a wheel asks for; Shift turns it sideways.
pub open spec fn wheel_delta<N: Num>(delta: [N; 2], shift: bool) -> [N; 2] {
    if shift {
        [delta[0].sum(delta[1]), zero()]
    } else {
        delta
    }
}

/// Routes a wheel movement in pixels to the innermost container under the
/// pointer, and what that leaves to the containers around it. Returns
/// whether any moved.
pub fn on_wheel<N: Num>(
    cursor: [N; 2],
    delta: [N; 2],
    scroll_hits: &Vec<ScrollHit<N>>,
    tree: &mut NodeTree<N>,
    shift: bool,
) -> (r: bool)
    requires
        old(tree).wf(),
    ensures
        final(tree).wf(),
        final(tree).root_ids() == old(tree).root_ids(),
        ({
            let d = wheel_delta(delta, shift);
            match last_container(scroll_hits@, cursor[0], cursor[1], scroll_hits@.len()) {
                Some(k) if !negligible(d) => scrolled_by(
                    *old(tree),
                    *final(tree),
                    r,
                    bubbled(
                        old(tree).nodes(),
                        scroll_hits@[k].ancestor_chain@,
                        d,
                        true,
                        false,
                        false,
                        0,
                    ),
                ),
                _ => scrolled_by(*old(tree), *final(tree), r, unscrolled(old(tree).nodes())),
            }
        }),
{
    let d: [N; 2] = if shift {
        [delta[0].plus(delta[1]), N::of_ratio(0, 1)]
    } else {
        delta
    };
    if is_negligible(d) {
        return false;
    }
    match container_at(scroll_hits, cursor[0], cursor[1]) {
        Some(k) => bubble(tree, &scroll_hits[k].ancestor_chain, d, true),
        None => false,
    }
}

/// A key, as far as the library tells keys apart.
#[derive(Debug, Clone, Copy, PartialEq, Eq, Structural)]
pub enum KeyCode {
    ArrowUp,
    ArrowDown,
    ArrowLeft,
    ArrowRight,
    PageUp,
    PageDown,
    Home,
    End,
    Escape,
    Tab,
    F1,
    F2,
    F4,
    F5,
    Other(u32),
}

/// Logical pixels that an arrow key scrolls.
pub const ARROW_KEY_STEP_LOGICAL: i32 = 40;

/// Logical pixels per second that a held arrow key scrolls.
pub const HOLD_SCROLL_VELOCITY_LOGICAL: i32 = 600;

/// What a key asks of a scroll container.
#[derive(Debug, Clone, Copy)]
pub enum ScrollRequest<N> {
    /// Move by this much.
    By([N; 2]),
    /// Go to the start.
    ToStart,
    /// Go to the end.
    ToEnd,
}

/// What a key asks of a scroll container: arrows move a line, the page keys
/// a viewport less a line (and at least a line), Home and End go to the
/// ends. Other keys ask for nothing.
pub open spec fn key_request<N: Num>(
    code: KeyCode,
    viewport: [N; 2],
    scale: N,
) -> Option<ScrollRequest<N>> {
    let line = N::fraction(ARROW_KEY_STEP_LOGICAL, 1).product(scale);
    let page = viewport[1].difference(line).larger(line);
    let z = zero::<N>();
    match code {
        KeyCode::ArrowUp => Some(ScrollRequest::By([z, line.negation()])),
        KeyCode::ArrowDown => Some(ScrollRequest::By([z, line])),
        KeyCode::ArrowLeft => Some(ScrollRequest::By([line.negation(), z])),
        KeyCode::ArrowRight => Some(ScrollRequest::By([line, z])),
        KeyCode::PageUp => Some(ScrollRequest::By([z, page.negation()])),
        KeyCode::PageDown => Some(ScrollRequest::By([z, page])),
        KeyCode::Home => Some(ScrollRequest::ToStart),
        KeyCode::End => Some(ScrollRequest::ToEnd),
        _ => None,
    }
}

/// The containers that a key movement goes to: those under the pointer from
/// the inside out, or else the first that scrolls.
pub open spec fn key_chain<N: Num>(
    cursor: Option<[N; 2]>,
    scroll_hits: Seq<ScrollHit<N>>,
    nodes: Seq<Option<Node<N>>>,
) -> Seq<NodeId> {
    let under = match cursor {
        Some(c) => last_container(scroll_hits, c[0], c[1], scroll_hits.len()),
        None => None,
    };
    match under {
        Some(k) => scroll_hits[k].ancestor_chain@,
        None => {
            let all = scrollable_ids(nodes, nodes.len());
            if all.len() > 0 {
                seq![all[0]]
            } else {
                Seq::empty()
            }
        },
    }
}

fn chain_for<N: Num>(
    cursor: Option<[N; 2]>,
    scroll_hits: &Vec<ScrollHit<N>>,
    tree: &NodeTree<N>,
) -> (r: Vec<NodeId>)
    requires
        tree.wf(),
    ensures
        r@ == key_chain(cursor, scroll_hits@, tree.nodes()),
{
    let under: Option<usize> = match cursor {
        Some(c) => container_at(scroll_hits, c[0], c[1]),
        None => None,
    };
    let mut out: Vec<NodeId> = Vec::new();
    match under {
        Some(k) => {
            let chain: &Vec<NodeId> = &scroll_hits[k].ancestor_chain;
            let mut i: usize = 0;
            while i < chain.len()
                invariant
                    i <= chain@.len(),
                    out@ == chain@.take(i as int),
                decreases chain@.len() - i,
            {
                out.push(chain[i]);
                i += 1;
                assert(out@ =~= chain@.take(i as int));
            }
            assert(out@ =~= chain@);
        },
        None => {
            let all: Vec<NodeId> = tree.scrollables();
            if all.len() > 0 {
                out.push(all[0]);
            }
            assert(out@ =~= key_chain(cursor, scroll_hits@, tree.nodes()));
        },
    }
    out
}

/// Where a jump to an end takes a node: along the vertical axis if it
/// scrolls there, else along the horizontal one. A node that scrolls on
/// neither goes nowhere.
pub open spec fn edge_target<N: Num>(n: Node<N>, to_end: bool) -> Option<[N; 2]> {
    let max = scroll_range(n);
    if n.layout.overflow_y is Scroll {
        Some(
            [
                zero(),
                if to_end {
                    max[1]
                } else {
                    zero()
                },
            ],
        )
    } else if n.layout.overflow_x is Scroll {
        Some(
            [
                if to_end {
                    max[0]
                } else {
                    zero()
                },
                zero(),
            ],
        )
    } else {
        None
    }
}

/// What a key does to a chain of containers: the tree, and whether anything
/// moved.
pub open spec fn key_scrolled<N: Num>(
    nodes: Seq<Option<Node<N>>>,
    chain: Seq<NodeId>,
    request: Option<ScrollRequest<N>>,
) -> Bubble<N> {
    match request {
        None => unscrolled(nodes),
        Some(ScrollRequest::By(d)) => bubbled(nodes, chain, d, true, false, false, 0),
        Some(edge) => if chain.len() > 0 && live(nodes, chain[0]) {
            match edge_target(node_at(nodes, chain[0]), edge is ToEnd) {
                Some(to) => {
                    let n = node_at(nodes, chain[0]);
                    Bubble {
                        nodes: with_node(nodes, chain[0], retargeted(n, to)),
                        moved: n.scroll is Some && !equals2(
                            retargeted(n, to).scroll->0.target,
                            n.scroll->0.target,
                        ),
                        asked: true,
                    }
                },
                None => unscrolled(nodes),
            }
        } else {
            unscrolled(nodes)
        },
    }
}

/// The scroll target of a node that scrolls.
fn aim_of<N: Num>(tree: &NodeTree<N>, id: NodeId) -> (r: Option<[N; 2]>)
    ensures
        r == if scrolls_at(tree.nodes(), id) {
            Some(node_at(tree.nodes(), id).scroll->0.target)
        } else {
            None
        },
{
    match tree.get(id) {
        Some(n) => match n.scroll {
            Some(s) => Some(s.target),
            None => None,
        },
        None => None,
    }
}

/// Routes a navigation key to a scroll container. Returns whether any moved;
/// keys that do not navigate return false.
pub fn on_scroll_key<N: Num>(
    code: KeyCode,
    cursor: Option<[N; 2]>,
    viewport: [N; 2],
    scale: N,
    scroll_hits: &Vec<ScrollHit<N>>,
    tree: &mut NodeTree<N>,
) -> (r: bool)
    requires
        old(tree).wf(),
    ensures
        final(tree).wf(),
        final(tree).root_ids() == old(tree).root_ids(),
        scrolled_by(
            *old(tree),
            *final(tree),
            r,
            key_scrolled(
                old(tree).nodes(),
                key_chain(cursor, scroll_hits@, old(tree).nodes()),
                key_request(code, viewport, scale),
            ),
        ),
{
    let z: N = N::of_ratio(0, 1);
    let line: N = N::of_ratio(ARROW_KEY_STEP_LOGICAL, 1).times(scale);
    let page: N = viewport[1].minus(line).max(line);
    let request: ScrollRequest<N> = match code {
        KeyCode::ArrowUp => ScrollRequest::By([z, line.negated()]),
        KeyCode::ArrowDown => ScrollRequest::By([z, line]),
        KeyCode::ArrowLeft => ScrollRequest::By([line.negated(), z]),
        KeyCode::ArrowRight => ScrollRequest::By([line, z]),
        KeyCode::PageUp => ScrollRequest::By([z, page.negated()]),
        KeyCode::PageDown => ScrollRequest::By([z, page]),
        KeyCode::Home => ScrollRequest::ToStart,
        KeyCode::End => ScrollRequest::ToEnd,
        _ => {
            return false;
        },
    };
    assert(Some(request) == key_request(code, viewport, scale));
    let chain: Vec<NodeId> = chain_for(cursor, scroll_hits, tree);
    let to_end: bool = match request {
        ScrollRequest::By(d) => {
            return bubble(tree, &chain, d, true);
        },
        ScrollRequest::ToStart => false,
        ScrollRequest::ToEnd => true,
    };
    if chain.len() == 0 {
        return false;
    }
    let id: NodeId = chain[0];
    let to: [N; 2] = match tree.get(id) {
        Some(n) => {
            let max: [N; 2] = [
                n.content_size[0].minus(n.rect[2]).max(z),
                n.content_size[1].minus(n.rect[3]).max(z),
            ];
            if n.layout.overflow_y.scrolls() {
                [
                    z,
                    if to_end {
                        max[1]
                    } else {
                        z
                    },
                ]
            } else if n.layout.overflow_x.scrolls() {
                [
                    if to_end {
                        max[0]
                    } else {
                        z
                    },
                    z,
                ]
            } else {
                return false;
            }
        },
        None => {
            return false;
        },
    };
    let was: Option<[N; 2]> = aim_of(tree, id);
    tree.set_scroll_target(id, to);
    match (was, aim_of(tree, id)) {
        (Some(a), Some(b)) => !eq2(b, a),
        _ => false,
    }
}

/// The navigation keys that are held down.
#[derive(Debug, Clone, Copy, PartialEq, Eq, Structural)]
pub struct HeldKeys {
    pub up: bool,
    pub down: bool,
    pub left: bool,
    pub right: bool,
    pub page_up: bool,
    pub page_down: bool,
    pub home: bool,
    pub end: bool,
}

/// The held keys with one pressed or released. Keys that do not navigate
/// are not followed.
pub open spec fn keys_with(k: HeldKeys, code: KeyCode, down: bool) -> HeldKeys {
    match code {
        KeyCode::ArrowUp => HeldKeys { up: down, ..k },
        KeyCode::ArrowDown => HeldKeys { down, ..k },
        KeyCode::ArrowLeft => HeldKeys { left: down, ..k },
        KeyCode::ArrowRight => HeldKeys { right: down, ..k },
        KeyCode::PageUp => HeldKeys { page_up: down, ..k },
        KeyCode::PageDown => HeldKeys { page_down: down, ..k },
        KeyCode::Home => HeldKeys { home: down, ..k },
        KeyCode::End => HeldKeys { end: down, ..k },
        _ => k,
    }
}

impl HeldKeys {
    /// No key is held.
    pub fn none() -> (r: HeldKeys)
        ensures
            !r.some_held(),
    {
        HeldKeys {
            up: false,
            down: false,
            left: false,
            right: false,
            page_up: false,
            page_down: false,
            home: false,
            end: false,
        }
    }

    /// A key is held.
    pub open spec fn some_held(&self) -> bool {
        self.up || self.down || self.left || self.right || self.page_up || self.page_down
            || self.home || self.end
    }

    /// Whether no key is held.
    pub fn is_empty(&self) -> (r: bool)
        ensures
            r == !self.some_held(),
    {
        !(self.up || self.down || self.left || self.right || self.page_up || self.page_down
            || self.home || self.end)
    }

    /// Notes that a key went down or up.
    pub fn set(&mut self, code: KeyCode, down: bool)
        ensures
            *final(self) == keys_with(*old(self), code, down),
    {
        match code {
            KeyCode::ArrowUp => {
                self.up = down;
            },
            KeyCode::ArrowDown => {
                self.down = down;
            },
            KeyCode::ArrowLeft => {
                self.left = down;
            },
            KeyCode::ArrowRight => {
                self.right = down;
            },
            KeyCode::PageUp => {
                self.page_up = down;
            },
            KeyCode::PageDown => {
                self.page_down = down;
            },
            KeyCode::Home => {
                self.home = down;
            },
            KeyCode::End => {
                self.end = down;
            },
            _ => {},
        }
    }
}

/// One component of the movement of held arrows: back, then forth.
pub open spec fn held_component<N: Num>(back: bool, forth: bool, step: N) -> N {
    let a = if back {
        zero::<N>().difference(step)
    } else {
        zero()
    };
    if forth {
        a.sum(step)
    } else {
        a
    }
}

/// The movement of the held arrows in `dt` seconds.
pub open spec fn held_delta<N: Num>(held: HeldKeys, scale: N, dt: N) -> [N; 2] {
    let step = N::fraction(HOLD_SCROLL_VELOCITY_LOGICAL, 1).product(scale).product(dt);
    [held_component(held.left, held.right, step), held_component(held.up, held.down, step)]
}

fn held_step<N: Num>(back: bool, forth: bool, step: N) -> (r: N)
    ensures
        r == held_component(back, forth, step),
{
    let z: N = N::of_ratio(0, 1);
    let a: N = if back {
        z.minus(step)
    } else {
        z
    };
    if forth {
        a.plus(step)
    } else {
        a
    }
}

/// Scrolls on while arrow keys are held: the container under the pointer, or
/// else the first that scrolls. The content goes smoothly past the places
/// where it may rest. Returns whether any moved.
pub fn pump_held_scroll<N: Num>(
    held: HeldKeys,
    cursor: Option<[N; 2]>,
    scroll_hits: &Vec<ScrollHit<N>>,
    tree: &mut NodeTree<N>,
    scale: N,
    dt: N,
) -> (r: bool)
    requires
        old(tree).wf(),
    ensures
        final(tree).wf(),
        final(tree).root_ids() == old(tree).root_ids(),
        scrolled_by(
            *old(tree),
            *final(tree),
            r,
            if !held.some_held() || dt.at_most(zero()) || negligible(held_delta(held, scale, dt)) {
                unscrolled(old(tree).nodes())
            } else {
                bubbled(
                    old(tree).nodes(),
                    key_chain(cursor, scroll_hits@, old(tree).nodes()),
                    held_delta(held, scale, dt),
                    false,
                    false,
                    false,
                    0,
                )
            },
        ),
{
    if held.is_empty() || dt.le(N::of_ratio(0, 1)) {
        return false;
    }
    let step: N = N::of_ratio(HOLD_SCROLL_VELOCITY_LOGICAL, 1).times(scale).times(dt);
    let delta: [N; 2] = [
        held_step(held.left, held.right, step),
        held_step(held.up, held.down, step),
    ];
    if is_negligible(delta) {
        return false;
    }
    let chain: Vec<NodeId> = chain_for(cursor, scroll_hits, tree);
    bubble(tree, &chain, delta, false)
}

} // verus!
