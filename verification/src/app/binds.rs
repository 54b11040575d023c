//! Binds: nodes that show the value of a cell.
//!
//! When a source has changed, a plain bind shows the new value at once; an
//! animated one starts a tween of its displayed cell, whose value is shown
//! as it moves.
use vstd::prelude::*;

use crate::anim::{distinct_keys, tween_restarted, within_store, without_key, Curve, Timeline, Tween};
use crate::gpu::ImageHandle;
use crate::layout::{LayoutStyle, Len};
use crate::node::dirty;
use crate::node::tree::{equals4, live, node_at, same_len, Node, NodeTree, TextContent};
use crate::node::NodeId;
use crate::num::{computes_exactly, equals2, Num};
use crate::signal::{Cell, SignalId, Signals, Value};

verus! {

/// The tween keys of the binds: each kind has a window of keys, one for each
/// slot.
pub const BIND_TWEEN_KEY_COLOR: u32 = 0xC000_0000;

pub const BIND_TWEEN_KEY_POSITION: u32 = 0xC100_0000;

pub const BIND_TWEEN_KEY_SIZE: u32 = 0xC200_0000;

pub const BIND_TWEEN_KEY_OPACITY: u32 = 0xC300_0000;

/// Slots in the window of a kind.
pub const BIND_WINDOW: u32 = 0x100_0000;

/// What a bind sets.
#[derive(Copy, Clone, Debug, PartialEq, Eq, Structural)]
pub enum BindKind {
    Color,
    Position,
    Size,
    Opacity,
    WidthPct,
    WidthPx,
    HeightPx,
}

/// A node bound to a cell.
#[derive(Copy, Clone, Debug)]
pub struct BindSlot<N> {
    pub node_id: NodeId,
    pub source: SignalId,
    /// The version of the source that was seen last.
    pub last_version: u64,
    /// The cell that moves toward the source's value.
    pub displayed: Option<SignalId>,
    /// How it moves, and for how many nanoseconds.
    pub animation: Option<(Curve<N>, u64)>,
}

/// The first tween key of a kind. Kinds that never move share a key of none.
pub open spec fn key_base(kind: BindKind) -> u32 {
    match kind {
        BindKind::Color => BIND_TWEEN_KEY_COLOR,
        BindKind::Position => BIND_TWEEN_KEY_POSITION,
        BindKind::Size => BIND_TWEEN_KEY_SIZE,
        _ => BIND_TWEEN_KEY_OPACITY,
    }
}

fn first_key(kind: BindKind) -> (r: u32)
    ensures
        r == key_base(kind),
{
    match kind {
        BindKind::Color => BIND_TWEEN_KEY_COLOR,
        BindKind::Position => BIND_TWEEN_KEY_POSITION,
        BindKind::Size => BIND_TWEEN_KEY_SIZE,
        _ => BIND_TWEEN_KEY_OPACITY,
    }
}

/// Whether binds of a kind can move.
pub open spec fn movable(kind: BindKind) -> bool {
    kind is Color || kind is Position || kind is Size || kind is Opacity
}

/// A value of the right shape for a kind.
pub open spec fn fits<N>(kind: BindKind, v: Value<N>) -> bool {
    match kind {
        BindKind::Color => v is Quad,
        BindKind::Position => v is Pair,
        BindKind::Size => v is Pair,
        _ => v is Scalar,
    }
}

/// The parts of a tree that a bind can touch.
pub struct Look<N> {
    pub nodes: Seq<Option<Node<N>>>,
    pub dirty: u32,
}

/// What binds can touch of a tree.
pub open spec fn look_of<N: Num>(tree: NodeTree<N>) -> Look<N> {
    Look { nodes: tree.nodes(), dirty: tree.dirty_mask() }
}

/// A tree after node `id` became `n` and `bits` were marked, if `changes`.
pub open spec fn relooked<N>(l: Look<N>, id: NodeId, changes: bool, n: Node<N>, bits: u32) -> Look<N> {
    if live(l.nodes, id) && changes {
        Look { nodes: l.nodes.update(id.index as int, Some(n)), dirty: l.dirty | bits }
    } else {
        l
    }
}

/// The opacity from which a node is there at all.
pub open spec fn seen<N: Num>(opacity: N) -> bool {
    N::fraction(1, 1000).below(opacity)
}

/// A tree after a value was shown. A node whose opacity goes to nothing is
/// hidden, so that it takes no input.
pub open spec fn shown<N: Num>(kind: BindKind, l: Look<N>, id: NodeId, v: Value<N>) -> Look<N> {
    let n = node_at(l.nodes, id);
    match kind {
        BindKind::Color => relooked(
            l,
            id,
            !equals4(n.color, v->Quad_0),
            Node { color: v->Quad_0, ..n },
            dirty::VISUAL | dirty::BACKDROP,
        ),
        BindKind::Position => relooked(
            l,
            id,
            !(n.layout.abs is Some && equals2(n.layout.abs->0, v->Pair_0)),
            Node { layout: LayoutStyle { abs: Some(v->Pair_0), ..n.layout }, ..n },
            dirty::TRANSFORM,
        ),
        BindKind::Size => {
            let w = Len::Px(v->Pair_0[0]);
            let h = Len::Px(v->Pair_0[1]);
            relooked(
                l,
                id,
                !(same_len(n.layout.width, w) && same_len(n.layout.height, h)),
                Node { layout: LayoutStyle { width: w, height: h, ..n.layout }, ..n },
                dirty::TRANSFORM,
            )
        },
        BindKind::Opacity => {
            let o = v->Scalar_0;
            let faded = relooked(
                l,
                id,
                !n.opacity.equals(o),
                Node { opacity: o, ..n },
                dirty::VISUAL | dirty::BACKDROP,
            );
            let m = node_at(faded.nodes, id);
            relooked(
                faded,
                id,
                m.visible != seen(o),
                Node { visible: seen(o), ..m },
                dirty::VISUAL | dirty::TRANSFORM,
            )
        },
        BindKind::WidthPct => relooked(
            l,
            id,
            !same_len(n.layout.width, Len::Pct(v->Scalar_0)),
            Node { layout: LayoutStyle { width: Len::Pct(v->Scalar_0), ..n.layout }, ..n },
            dirty::TRANSFORM,
        ),
        BindKind::WidthPx => relooked(
            l,
            id,
            !same_len(n.layout.width, Len::Px(v->Scalar_0)),
            Node { layout: LayoutStyle { width: Len::Px(v->Scalar_0), ..n.layout }, ..n },
            dirty::TRANSFORM,
        ),
        BindKind::HeightPx => relooked(
            l,
            id,
            !same_len(n.layout.height, Len::Px(v->Scalar_0)),
            Node { layout: LayoutStyle { height: Len::Px(v->Scalar_0), ..n.layout }, ..n },
            dirty::TRANSFORM,
        ),
    }
}

fn show<N: Num>(kind: BindKind, tree: &mut NodeTree<N>, id: NodeId, v: Value<N>)
    requires
        old(tree).wf(),
        fits(kind, v),
    ensures
        final(tree).wf(),
        final(tree).root_ids() == old(tree).root_ids(),
        look_of(*final(tree)) == shown(
            kind,
            look_of(*old(tree)),
            id,
            v,
        ),
{
    match (kind, v) {
        (BindKind::Color, Value::Quad(c)) => {
            tree.set_color(id, c);
        },
        (BindKind::Position, Value::Pair(p)) => {
            tree.set_layout_pos_abs(id, p);
        },
        (BindKind::Size, Value::Pair(p)) => {
            tree.set_layout_size_px(id, p);
        },
        (BindKind::Opacity, Value::Scalar(o)) => {
            tree.set_opacity(id, o);
            let visible: bool = N::of_ratio(1, 1000).lt(o);
            tree.set_visible(id, visible);
        },
        (BindKind::WidthPct, Value::Scalar(w)) => {
            tree.set_layout_width(id, Len::Pct(w));
        },
        (BindKind::WidthPx, Value::Scalar(w)) => {
            tree.set_layout_width(id, Len::Px(w));
        },
        (BindKind::HeightPx, Value::Scalar(h)) => {
            tree.set_layout_height(id, Len::Px(h));
        },
        _ => {},
    }
}

/// The source of a slot has changed since it was last seen.
pub open spec fn moved_on<N>(slot: Option<BindSlot<N>>, store: Seq<Cell<N>>) -> bool {
    slot matches Some(s) && store[s.source.index as int].version != s.last_version
}

/// The slot moves toward its source's value.
pub open spec fn animated<N>(kind: BindKind, s: BindSlot<N>) -> bool {
    movable(kind) && s.displayed is Some && s.animation is Some
}

/// The slot after its source was seen.
pub open spec fn seen_slot<N>(slot: Option<BindSlot<N>>, store: Seq<Cell<N>>) -> Option<BindSlot<N>> {
    match slot {
        Some(s) => Some(
            BindSlot { last_version: store[s.source.index as int].version, ..s },
        ),
        None => None,
    }
}

/// The tree and the tweens.
pub struct BindState<N> {
    pub look: Look<N>,
    pub tweens: Seq<Tween<N>>,
}

/// The state after slot `i` was looked at.
pub open spec fn slot_processed<N: Num>(
    kind: BindKind,
    b: BindState<N>,
    slot: Option<BindSlot<N>>,
    store: Seq<Cell<N>>,
    now: u64,
    i: int,
) -> BindState<N> {
    if !moved_on(slot, store) {
        b
    } else {
        let s = slot->0;
        let target = store[s.source.index as int].value;
        if animated(kind, s) {
            BindState {
                tweens: tween_restarted(
                    b.tweens,
                    store,
                    (key_base(kind) + i) as u32,
                    s.displayed->0,
                    target,
                    s.animation->0,
                    now,
                ),
                ..b
            }
        } else {
            BindState { look: shown(kind, b.look, s.node_id, target), ..b }
        }
    }
}

/// The state after the first `n` slots were looked at.
pub open spec fn slots_processed<N: Num>(
    kind: BindKind,
    b: BindState<N>,
    slots: Seq<Option<BindSlot<N>>>,
    store: Seq<Cell<N>>,
    now: u64,
    n: nat,
) -> BindState<N>
    decreases n,
{
    if n == 0 {
        b
    } else {
        slot_processed(
            kind,
            slots_processed(kind, b, slots, store, now, (n - 1) as nat),
            slots[n - 1],
            store,
            now,
            n - 1,
        )
    }
}

/// The cells of a slot are in the store and hold values of the right shape.
pub open spec fn slot_ok<N>(kind: BindKind, slot: Option<BindSlot<N>>, store: Seq<Cell<N>>) -> bool {
    slot matches Some(s) ==> {
        &&& s.source.index < store.len()
        &&& fits(kind, store[s.source.index as int].value)
        &&& s.displayed matches Some(d) ==> d.index < store.len() && fits(
            kind,
            store[d.index as int].value,
        )
    }
}

/// All slots are such, and their keys stay in the window of their kind.
pub open spec fn slots_ok<N>(
    kind: BindKind,
    slots: Seq<Option<BindSlot<N>>>,
    store: Seq<Cell<N>>,
) -> bool {
    &&& slots.len() <= BIND_WINDOW
    &&& forall|i: int| 0 <= i < slots.len() ==> slot_ok(kind, #[trigger] slots[i], store)
}

/// Looks at the sources of all slots of a kind.
pub fn process_binds<N: Num>(
    kind: BindKind,
    slots: &mut Vec<Option<BindSlot<N>>>,
    tree: &mut NodeTree<N>,
    timeline: &mut Timeline<N>,
    signals: &Signals<N>,
    now: u64,
)
    requires
        old(tree).wf(),
        slots_ok(kind, old(slots)@, signals@),
    ensures
        final(tree).wf(),
        final(tree).root_ids() == old(tree).root_ids(),
        final(slots)@.len() == old(slots)@.len(),
        forall|i: int|
            0 <= i < old(slots)@.len() ==> #[trigger] final(slots)@[i] == seen_slot(
                old(slots)@[i],
                signals@,
            ),
        slots_ok(kind, final(slots)@, signals@),
        (BindState {
            look: look_of(*final(tree)),
            tweens: final(timeline)@,
        }) == slots_processed(
            kind,
            BindState {
                look: look_of(*old(tree)),
                tweens: old(timeline)@,
            },
            old(slots)@,
            signals@,
            now,
            old(slots)@.len(),
        ),
        final(timeline).interval() == old(timeline).interval(),
        distinct_keys(old(timeline)@) ==> distinct_keys(final(timeline)@),
        within_store(old(timeline)@, signals@.len()) ==> within_store(
            final(timeline)@,
            signals@.len(),
        ),
{
    let ghost b = BindState {
        look: look_of(*tree),
        tweens: timeline@,
    };
    let ghost all = slots@;
    let base: u32 = first_key(kind);
    let moves: bool = match kind {
        BindKind::Color | BindKind::Position | BindKind::Size | BindKind::Opacity => true,
        _ => false,
    };
    let mut i: usize = 0;
    while i < slots.len()
        invariant
            i <= slots@.len(),
            slots@.len() == all.len(),
            base == key_base(kind),
            moves == movable(kind),
            slots_ok(kind, all, signals@),
            tree.wf(),
            tree.root_ids() == old(tree).root_ids(),
            timeline.interval() == old(timeline).interval(),
            distinct_keys(old(timeline)@) ==> distinct_keys(timeline@),
            within_store(old(timeline)@, signals@.len()) ==> within_store(
                timeline@,
                signals@.len(),
            ),
            forall|j: int| 0 <= j < i ==> #[trigger] slots@[j] == seen_slot(all[j], signals@),
            forall|j: int| i <= j < all.len() ==> #[trigger] slots@[j] == all[j],
            (BindState {
                look: look_of(*tree),
                tweens: timeline@,
            }) == slots_processed(kind, b, all, signals@, now, i as nat),
        decreases slots.len() - i,
    {
        assert(slot_ok(kind, all[i as int], signals@));
        if let Some(s) = slots[i] {
            let v: u64 = signals.version(s.source);
            if v != s.last_version {
                let mut next = s;
                next.last_version = v;
                slots[i] = Some(next);
                let target: Value<N> = signals.get(s.source);
                let mut started: bool = false;
                if moves {
                    if let Some(d) = s.displayed {
                        if let Some(a) = s.animation {
                            timeline.restart(signals, base + i as u32, d, target, a.0, a.1, now);
                            started = true;
                        }
                    }
                }
                if !started {
                    show(kind, tree, s.node_id, target);
                }
            }
        }
        i = i + 1;
    }
    assert forall|j: int| 0 <= j < slots@.len() implies slot_ok(
        kind,
        #[trigger] slots@[j],
        signals@,
    ) by {
        assert(slot_ok(kind, all[j], signals@));
    }
}

pub fn process_color_binds<N: Num>(
    slots: &mut Vec<Option<BindSlot<N>>>,
    tree: &mut NodeTree<N>,
    timeline: &mut Timeline<N>,
    signals: &Signals<N>,
    now: u64,
)
    requires
        old(tree).wf(),
        slots_ok(BindKind::Color, old(slots)@, signals@),
    ensures
        final(tree).wf(),
        bound(
            BindKind::Color,
            *old(tree),
            *final(tree),
            old(timeline)@,
            final(timeline)@,
            old(slots)@,
            final(slots)@,
            signals@,
            now,
        ),
{
    process_binds(BindKind::Color, slots, tree, timeline, signals, now)
}

pub fn process_position_binds<N: Num>(
    slots: &mut Vec<Option<BindSlot<N>>>,
    tree: &mut NodeTree<N>,
    timeline: &mut Timeline<N>,
    signals: &Signals<N>,
    now: u64,
)
    requires
        old(tree).wf(),
        slots_ok(BindKind::Position, old(slots)@, signals@),
    ensures
        final(tree).wf(),
        bound(
            BindKind::Position,
            *old(tree),
            *final(tree),
            old(timeline)@,
            final(timeline)@,
            old(slots)@,
            final(slots)@,
            signals@,
            now,
        ),
{
    process_binds(BindKind::Position, slots, tree, timeline, signals, now)
}

pub fn process_size_binds<N: Num>(
    slots: &mut Vec<Option<BindSlot<N>>>,
    tree: &mut NodeTree<N>,
    timeline: &mut Timeline<N>,
    signals: &Signals<N>,
    now: u64,
)
    requires
        old(tree).wf(),
        slots_ok(BindKind::Size, old(slots)@, signals@),
    ensures
        final(tree).wf(),
        bound(
            BindKind::Size,
            *old(tree),
            *final(tree),
            old(timeline)@,
            final(timeline)@,
            old(slots)@,
            final(slots)@,
            signals@,
            now,
        ),
{
    process_binds(BindKind::Size, slots, tree, timeline, signals, now)
}

pub fn process_opacity_binds<N: Num>(
    slots: &mut Vec<Option<BindSlot<N>>>,
    tree: &mut NodeTree<N>,
    timeline: &mut Timeline<N>,
    signals: &Signals<N>,
    now: u64,
)
    requires
        old(tree).wf(),
        slots_ok(BindKind::Opacity, old(slots)@, signals@),
    ensures
        final(tree).wf(),
        bound(
            BindKind::Opacity,
            *old(tree),
            *final(tree),
            old(timeline)@,
            final(timeline)@,
            old(slots)@,
            final(slots)@,
            signals@,
            now,
        ),
{
    process_binds(BindKind::Opacity, slots, tree, timeline, signals, now)
}

/// The outcome of looking at all slots of a kind.
pub open spec fn bound<N: Num>(
    kind: BindKind,
    before: NodeTree<N>,
    after: NodeTree<N>,
    tweens: Seq<Tween<N>>,
    tweens_after: Seq<Tween<N>>,
    slots: Seq<Option<BindSlot<N>>>,
    slots_after: Seq<Option<BindSlot<N>>>,
    store: Seq<Cell<N>>,
    now: u64,
) -> bool {
    &&& after.root_ids() == before.root_ids()
    &&& slots_after.len() == slots.len()
    &&& forall|i: int|
        0 <= i < slots.len() ==> #[trigger] slots_after[i] == seen_slot(slots[i], store)
    &&& (BindState {
        look: look_of(after),
        tweens: tweens_after,
    }) == slots_processed(
        kind,
        BindState {
            look: look_of(before),
            tweens,
        },
        slots,
        store,
        now,
        slots.len(),
    )
}

/// The tree after the first `n` slots of a kind that never moves were looked
/// at.
pub open spec fn snapped<N: Num>(
    kind: BindKind,
    l: Look<N>,
    slots: Seq<Option<BindSlot<N>>>,
    store: Seq<Cell<N>>,
    n: nat,
) -> Look<N>
    decreases n,
{
    if n == 0 {
        l
    } else {
        let before = snapped(kind, l, slots, store, (n - 1) as nat);
        if moved_on(slots[n - 1], store) {
            let s = slots[n - 1]->0;
            shown(kind, before, s.node_id, store[s.source.index as int].value)
        } else {
            before
        }
    }
}

/// The outcome of looking at all slots of a kind that never moves.
pub open spec fn snap_bound<N: Num>(
    kind: BindKind,
    before: NodeTree<N>,
    after: NodeTree<N>,
    slots: Seq<Option<BindSlot<N>>>,
    slots_after: Seq<Option<BindSlot<N>>>,
    store: Seq<Cell<N>>,
) -> bool {
    &&& after.root_ids() == before.root_ids()
    &&& slots_after.len() == slots.len()
    &&& forall|i: int|
        0 <= i < slots.len() ==> #[trigger] slots_after[i] == seen_slot(slots[i], store)
    &&& look_of(after) == snapped(
        kind,
        look_of(before),
        slots,
        store,
        slots.len(),
    )
}

fn snap_binds<N: Num>(
    kind: BindKind,
    slots: &mut Vec<Option<BindSlot<N>>>,
    tree: &mut NodeTree<N>,
    signals: &Signals<N>,
)
    requires
        old(tree).wf(),
        slots_ok(kind, old(slots)@, signals@),
    ensures
        final(tree).wf(),
        snap_bound(
            kind,
            *old(tree),
            *final(tree),
            old(slots)@,
            final(slots)@,
            signals@,
        ),
{
    let ghost l = look_of(*tree);
    let ghost all = slots@;
    let mut i: usize = 0;
    while i < slots.len()
        invariant
            i <= slots@.len(),
            slots@.len() == all.len(),
            slots_ok(kind, all, signals@),
            tree.wf(),
            tree.root_ids() == old(tree).root_ids(),
            forall|j: int| 0 <= j < i ==> #[trigger] slots@[j] == seen_slot(all[j], signals@),
            forall|j: int| i <= j < all.len() ==> #[trigger] slots@[j] == all[j],
            look_of(*tree) == snapped(
                kind,
                l,
                all,
                signals@,
                i as nat,
            ),
        decreases slots.len() - i,
    {
        assert(slot_ok(kind, all[i as int], signals@));
        if let Some(s) = slots[i] {
            let v: u64 = signals.version(s.source);
            if v != s.last_version {
                let mut next = s;
                next.last_version = v;
                slots[i] = Some(next);
                show(kind, tree, s.node_id, signals.get(s.source));
            }
        }
        i = i + 1;
    }
}

pub fn process_width_pct_binds<N: Num>(
    slots: &mut Vec<Option<BindSlot<N>>>,
    tree: &mut NodeTree<N>,
    signals: &Signals<N>,
)
    requires
        old(tree).wf(),
        slots_ok(BindKind::WidthPct, old(slots)@, signals@),
    ensures
        final(tree).wf(),
        snap_bound(
            BindKind::WidthPct,
            *old(tree),
            *final(tree),
            old(slots)@,
            final(slots)@,
            signals@,
        ),
{
    snap_binds(BindKind::WidthPct, slots, tree, signals)
}

pub fn process_width_px_binds<N: Num>(
    slots: &mut Vec<Option<BindSlot<N>>>,
    tree: &mut NodeTree<N>,
    signals: &Signals<N>,
)
    requires
        old(tree).wf(),
        slots_ok(BindKind::WidthPx, old(slots)@, signals@),
    ensures
        final(tree).wf(),
        snap_bound(
            BindKind::WidthPx,
            *old(tree),
            *final(tree),
            old(slots)@,
            final(slots)@,
            signals@,
        ),
{
    snap_binds(BindKind::WidthPx, slots, tree, signals)
}

pub fn process_height_px_binds<N: Num>(
    slots: &mut Vec<Option<BindSlot<N>>>,
    tree: &mut NodeTree<N>,
    signals: &Signals<N>,
)
    requires
        old(tree).wf(),
        slots_ok(BindKind::HeightPx, old(slots)@, signals@),
    ensures
        final(tree).wf(),
        snap_bound(
            BindKind::HeightPx,
            *old(tree),
            *final(tree),
            old(slots)@,
            final(slots)@,
            signals@,
        ),
{
    snap_binds(BindKind::HeightPx, slots, tree, signals)
}

/// The tree after the displayed values of the first `n` slots were shown.
pub open spec fn displays_shown<N: Num>(
    kind: BindKind,
    l: Look<N>,
    slots: Seq<Option<BindSlot<N>>>,
    store: Seq<Cell<N>>,
    n: nat,
) -> Look<N>
    decreases n,
{
    if n == 0 {
        l
    } else {
        let before = displays_shown(kind, l, slots, store, (n - 1) as nat);
        if slots[n - 1] is Some && slots[n - 1]->0.displayed is Some {
            let s = slots[n - 1]->0;
            shown(kind, before, s.node_id, store[s.displayed->0.index as int].value)
        } else {
            before
        }
    }
}

/// Shows the displayed values of all animated slots of a kind.
pub fn pump_displays<N: Num>(
    kind: BindKind,
    slots: &Vec<Option<BindSlot<N>>>,
    tree: &mut NodeTree<N>,
    signals: &Signals<N>,
)
    requires
        old(tree).wf(),
        slots_ok(kind, slots@, signals@),
    ensures
        final(tree).wf(),
        final(tree).root_ids() == old(tree).root_ids(),
        look_of(*final(tree)) == displays_shown(
            kind,
            look_of(*old(tree)),
            slots@,
            signals@,
            slots@.len(),
        ),
{
    let ghost l = look_of(*tree);
    let mut i: usize = 0;
    while i < slots.len()
        invariant
            i <= slots@.len(),
            slots_ok(kind, slots@, signals@),
            tree.wf(),
            tree.root_ids() == old(tree).root_ids(),
            look_of(*tree) == displays_shown(
                kind,
                l,
                slots@,
                signals@,
                i as nat,
            ),
        decreases slots.len() - i,
    {
        assert(slot_ok(kind, slots@[i as int], signals@));
        if let Some(s) = slots[i] {
            if let Some(d) = s.displayed {
                show(kind, tree, s.node_id, signals.get(d));
            }
        }
        i = i + 1;
    }
}

/// A text and the number of times it has changed.
#[derive(Clone, Debug)]
pub struct TextCell {
    pub value: String,
    pub version: u64,
}

/// A picture and the number of times it has changed.
#[derive(Copy, Clone, Debug)]
pub struct ImageCell {
    pub value: Option<ImageHandle>,
    pub version: u64,
}

/// A node bound to a text or a picture, by the position of its cell.
#[derive(Copy, Clone, Debug, PartialEq, Eq, Structural)]
pub struct SnapSlot {
    pub node_id: NodeId,
    pub source: usize,
    pub last_version: u64,
}

/// The tree after a text was shown.
pub open spec fn text_shown<N: Num>(l: Look<N>, id: NodeId, content: String) -> Look<N> {
    let n = node_at(l.nodes, id);
    relooked(
        l,
        id,
        n.text is Some && n.text->0.content@ != content@,
        Node { text: Some(TextContent { content, ..n.text->0 }), ..n },
        dirty::VISUAL | dirty::TRANSFORM,
    )
}

/// The tree after the first `n` text slots were looked at.
pub open spec fn texts_shown<N: Num>(
    l: Look<N>,
    slots: Seq<Option<SnapSlot>>,
    texts: Seq<TextCell>,
    n: nat,
) -> Look<N>
    decreases n,
{
    if n == 0 {
        l
    } else {
        let before = texts_shown(l, slots, texts, (n - 1) as nat);
        match slots[n - 1] {
            Some(s) if texts[s.source as int].version != s.last_version => text_shown(
                before,
                s.node_id,
                texts[s.source as int].value,
            ),
            _ => before,
        }
    }
}

/// Shows the texts that have changed.
pub fn process_text_binds<N: Num>(
    slots: &mut Vec<Option<SnapSlot>>,
    tree: &mut NodeTree<N>,
    texts: &Vec<TextCell>,
)
    requires
        old(tree).wf(),
        forall|i: int|
            0 <= i < old(slots)@.len() ==> (#[trigger] old(slots)@[i] matches Some(s) ==> s.source
                < texts@.len()),
    ensures
        final(tree).wf(),
        final(tree).root_ids() == old(tree).root_ids(),
        final(slots)@.len() == old(slots)@.len(),
        forall|i: int|
            0 <= i < old(slots)@.len() ==> #[trigger] final(slots)@[i] == (match old(slots)@[i] {
                Some(s) => Some(
                    SnapSlot { last_version: texts@[s.source as int].version, ..s },
                ),
                None => None,
            }),
        look_of(*final(tree)) == texts_shown(
            look_of(*old(tree)),
            old(slots)@,
            texts@,
            old(slots)@.len(),
        ),
{
    let ghost l = look_of(*tree);
    let ghost all = slots@;
    let mut i: usize = 0;
    while i < slots.len()
        invariant
            i <= slots@.len(),
            slots@.len() == all.len(),
            forall|j: int|
                0 <= j < all.len() ==> (#[trigger] all[j] matches Some(s) ==> s.source
                    < texts@.len()),
            tree.wf(),
            tree.root_ids() == old(tree).root_ids(),
            forall|j: int|
                0 <= j < i ==> #[trigger] slots@[j] == (match all[j] {
                    Some(s) => Some(
                        SnapSlot { last_version: texts@[s.source as int].version, ..s },
                    ),
                    None => None,
                }),
            forall|j: int| i <= j < all.len() ==> #[trigger] slots@[j] == all[j],
            look_of(*tree) == texts_shown(
                l,
                all,
                texts@,
                i as nat,
            ),
        decreases slots.len() - i,
    {
        assert(all[i as int] == slots@[i as int]);
        if let Some(s) = slots[i] {
            let v: u64 = texts[s.source].version;
            if v != s.last_version {
                slots[i] = Some(
                    SnapSlot { node_id: s.node_id, source: s.source, last_version: v },
                );
                tree.set_text(s.node_id, texts[s.source].value.clone());
            }
        }
        i = i + 1;
    }
}

/// The tree after a picture was shown.
pub open spec fn image_shown<N: Num>(l: Look<N>, id: NodeId, image: Option<ImageHandle>) -> Look<N> {
    let n = node_at(l.nodes, id);
    relooked(l, id, n.image != image, Node { image, ..n }, dirty::VISUAL | dirty::BACKDROP)
}

/// The tree after the first `n` picture slots were looked at.
pub open spec fn images_shown<N: Num>(
    l: Look<N>,
    slots: Seq<Option<SnapSlot>>,
    images: Seq<ImageCell>,
    n: nat,
) -> Look<N>
    decreases n,
{
    if n == 0 {
        l
    } else {
        let before = images_shown(l, slots, images, (n - 1) as nat);
        match slots[n - 1] {
            Some(s) if images[s.source as int].version != s.last_version => image_shown(
                before,
                s.node_id,
                images[s.source as int].value,
            ),
            _ => before,
        }
    }
}

/// Shows the pictures that have changed.
pub fn process_image_binds<N: Num>(
    slots: &mut Vec<Option<SnapSlot>>,
    tree: &mut NodeTree<N>,
    images: &Vec<ImageCell>,
)
    requires
        old(tree).wf(),
        forall|i: int|
            0 <= i < old(slots)@.len() ==> (#[trigger] old(slots)@[i] matches Some(s) ==> s.source
                < images@.len()),
    ensures
        final(tree).wf(),
        final(tree).root_ids() == old(tree).root_ids(),
        final(slots)@.len() == old(slots)@.len(),
        forall|i: int|
            0 <= i < old(slots)@.len() ==> #[trigger] final(slots)@[i] == (match old(slots)@[i] {
                Some(s) => Some(
                    SnapSlot { last_version: images@[s.source as int].version, ..s },
                ),
                None => None,
            }),
        look_of(*final(tree)) == images_shown(
            look_of(*old(tree)),
            old(slots)@,
            images@,
            old(slots)@.len(),
        ),
{
    let ghost l = look_of(*tree);
    let ghost all = slots@;
    let mut i: usize = 0;
    while i < slots.len()
        invariant
            i <= slots@.len(),
            slots@.len() == all.len(),
            forall|j: int|
                0 <= j < all.len() ==> (#[trigger] all[j] matches Some(s) ==> s.source
                    < images@.len()),
            tree.wf(),
            tree.root_ids() == old(tree).root_ids(),
            forall|j: int|
                0 <= j < i ==> #[trigger] slots@[j] == (match all[j] {
                    Some(s) => Some(
                        SnapSlot { last_version: images@[s.source as int].version, ..s },
                    ),
                    None => None,
                }),
            forall|j: int| i <= j < all.len() ==> #[trigger] slots@[j] == all[j],
            look_of(*tree) == images_shown(
                l,
                all,
                images@,
                i as nat,
            ),
        decreases slots.len() - i,
    {
        assert(all[i as int] == slots@[i as int]);
        if let Some(s) = slots[i] {
            let v: u64 = images[s.source].version;
            if v != s.last_version {
                slots[i] = Some(
                    SnapSlot { node_id: s.node_id, source: s.source, last_version: v },
                );
                tree.set_image(s.node_id, images[s.source].value);
            }
        }
        i = i + 1;
    }
}

/// Puts a slot into the first free place, or behind the others. The result
/// is its place.
pub fn add_slot<N: Num>(slots: &mut Vec<Option<BindSlot<N>>>, slot: BindSlot<N>) -> (r: usize)
    ensures
        forall|j: int| 0 <= j < r ==> (#[trigger] old(slots)@[j]) is Some,
        r <= old(slots)@.len(),
        r < old(slots)@.len() ==> old(slots)@[r as int] is None && final(slots)@ == old(
            slots,
        )@.update(r as int, Some(slot)),
        r == old(slots)@.len() ==> final(slots)@ == old(slots)@.push(Some(slot)),
{
    let mut i: usize = 0;
    while i < slots.len()
        invariant
            i <= slots@.len(),
            slots@ == old(slots)@,
            forall|j: int| 0 <= j < i ==> (#[trigger] slots@[j]) is Some,
        decreases slots.len() - i,
    {
        if slots[i].is_none() {
            slots[i] = Some(slot);
            return i;
        }
        i = i + 1;
    }
    slots.push(Some(slot));
    i
}

/// The slot belongs to one of the nodes.
pub open spec fn slot_gone<N>(slot: Option<BindSlot<N>>, gone: Seq<NodeId>) -> bool {
    slot is Some && gone.contains(slot->0.node_id)
}

/// The places among the first `n` whose slots belong to one of the nodes.
pub open spec fn gone_places<N>(slots: Seq<Option<BindSlot<N>>>, gone: Seq<NodeId>, n: nat) -> Seq<u32>
    decreases n,
{
    if n == 0 {
        Seq::empty()
    } else {
        let before = gone_places(slots, gone, (n - 1) as nat);
        if slot_gone(slots[n - 1], gone) {
            before.push((n - 1) as u32)
        } else {
            before
        }
    }
}

fn listed(ids: &Vec<NodeId>, id: NodeId) -> (r: bool)
    ensures
        r == ids@.contains(id),
{
    let mut i: usize = 0;
    while i < ids.len()
        invariant
            i <= ids@.len(),
            forall|j: int| 0 <= j < i ==> ids@[j] != id,
        decreases ids.len() - i,
    {
        if ids[i] == id {
            return true;
        }
        i = i + 1;
    }
    false
}

/// Frees the slots of nodes that are gone. The result are their places.
pub fn drop_slots<N: Num>(slots: &mut Vec<Option<BindSlot<N>>>, gone: &Vec<NodeId>) -> (r: Vec<u32>)
    requires
        old(slots)@.len() <= BIND_WINDOW,
    ensures
        final(slots)@.len() == old(slots)@.len(),
        forall|i: int|
            0 <= i < old(slots)@.len() ==> #[trigger] final(slots)@[i] == (if slot_gone(
                old(slots)@[i],
                gone@,
            ) {
                None
            } else {
                old(slots)@[i]
            }),
        r@ == gone_places(old(slots)@, gone@, old(slots)@.len()),
        in_window(r@),
{
    let ghost all = slots@;
    let mut places: Vec<u32> = Vec::new();
    let mut i: usize = 0;
    while i < slots.len()
        invariant
            i <= slots@.len(),
            slots@.len() == all.len(),
            all.len() <= BIND_WINDOW,
            forall|j: int|
                0 <= j < i ==> #[trigger] slots@[j] == (if slot_gone(all[j], gone@) {
                    None
                } else {
                    all[j]
                }),
            forall|j: int| i <= j < all.len() ==> #[trigger] slots@[j] == all[j],
            places@ == gone_places(all, gone@, i as nat),
            in_window(places@),
        decreases slots.len() - i,
    {
        let mut drops: bool = false;
        if let Some(s) = slots[i] {
            drops = listed(gone, s.node_id);
        }
        assert(drops == slot_gone(all[i as int], gone@));
        if drops {
            slots[i] = None;
            places.push(i as u32);
        }
        i = i + 1;
    }
    places
}

/// The slots that went with removed nodes, by kind.
#[derive(Clone, Debug)]
pub struct SubtreeRemoval {
    pub dropped_color_slots: Vec<u32>,
    pub dropped_position_slots: Vec<u32>,
    pub dropped_size_slots: Vec<u32>,
}

/// The slots are in the window of their kind.
pub open spec fn in_window(slots: Seq<u32>) -> bool {
    forall|i: int| 0 <= i < slots.len() ==> #[trigger] slots[i] < BIND_WINDOW
}

/// The tweens without those of the first `n` slots of a kind.
pub open spec fn stopped<N: Num>(tweens: Seq<Tween<N>>, base: u32, slots: Seq<u32>, n: nat) -> Seq<
    Tween<N>,
>
    decreases n,
{
    if n == 0 {
        tweens
    } else {
        without_key(
            stopped(tweens, base, slots, (n - 1) as nat),
            (base + slots[n - 1]) as u32,
        )
    }
}

fn stop_slots<N: Num>(timeline: &mut Timeline<N>, base: u32, slots: &Vec<u32>)
    requires
        base <= 0xD000_0000,
        in_window(slots@),
    ensures
        final(timeline)@ == stopped(old(timeline)@, base, slots@, slots@.len()),
        final(timeline).interval() == old(timeline).interval(),
        distinct_keys(old(timeline)@) ==> distinct_keys(final(timeline)@),
        forall|m: nat|
            within_store(old(timeline)@, m) ==> #[trigger] within_store(final(timeline)@, m),
{
    let mut i: usize = 0;
    while i < slots.len()
        invariant
            i <= slots@.len(),
            base <= 0xD000_0000,
            in_window(slots@),
            timeline@ == stopped(old(timeline)@, base, slots@, i as nat),
            timeline.interval() == old(timeline).interval(),
            distinct_keys(old(timeline)@) ==> distinct_keys(timeline@),
            forall|m: nat|
                within_store(old(timeline)@, m) ==> #[trigger] within_store(timeline@, m),
        decreases slots.len() - i,
    {
        timeline.stop(base + slots[i]);
        i = i + 1;
    }
}

/// Stops the tweens of slots that went with removed nodes.
pub fn stop_tweens_for_removal<N: Num>(timeline: &mut Timeline<N>, r: &SubtreeRemoval)
    requires
        in_window(r.dropped_color_slots@),
        in_window(r.dropped_position_slots@),
        in_window(r.dropped_size_slots@),
    ensures
        ({
            let c = stopped(
                old(timeline)@,
                BIND_TWEEN_KEY_COLOR,
                r.dropped_color_slots@,
                r.dropped_color_slots@.len(),
            );
            let p = stopped(
                c,
                BIND_TWEEN_KEY_POSITION,
                r.dropped_position_slots@,
                r.dropped_position_slots@.len(),
            );
            final(timeline)@ == stopped(
                p,
                BIND_TWEEN_KEY_SIZE,
                r.dropped_size_slots@,
                r.dropped_size_slots@.len(),
            )
        }),
        final(timeline).interval() == old(timeline).interval(),
        distinct_keys(old(timeline)@) ==> distinct_keys(final(timeline)@),
        forall|m: nat|
            within_store(old(timeline)@, m) ==> #[trigger] within_store(final(timeline)@, m),
{
    stop_slots(timeline, BIND_TWEEN_KEY_COLOR, &r.dropped_color_slots);
    stop_slots(timeline, BIND_TWEEN_KEY_POSITION, &r.dropped_position_slots);
    stop_slots(timeline, BIND_TWEEN_KEY_SIZE, &r.dropped_size_slots);
}

/// No tween of a dropped slot goes on.
pub proof fn dropped_slots_have_no_tween<N: Num>(
    tweens: Seq<Tween<N>>,
    base: u32,
    slots: Seq<u32>,
    n: nat,
    k: int,
    t: int,
)
    requires
        n <= slots.len(),
        0 <= k < n,
        0 <= t < stopped(tweens, base, slots, n).len(),
    ensures
        stopped(tweens, base, slots, n)[t].key != (base + slots[k]) as u32,
    decreases n,
{
    let m = (n - 1) as nat;
    let before = stopped(tweens, base, slots, m);
    let key = (base + slots[n - 1]) as u32;
    let after = without_key(before, key);
    let p = |x: Tween<N>| x.key != key;
    before.lemma_filter_pred(p, t);
    if k < m {
        assert(after.contains(after[t]));
        before.lemma_filter_contains_rev(p, after[t]);
        let j = choose|j: int| 0 <= j < before.len() && before[j] == after[t];
        dropped_slots_have_no_tween(tweens, base, slots, m, k, j);
    }
}

/// A second look with nothing changed in between does nothing.
pub proof fn unchanged_sources_do_nothing<N: Num>(
    kind: BindKind,
    b: BindState<N>,
    slots: Seq<Option<BindSlot<N>>>,
    store: Seq<Cell<N>>,
    now: u64,
    n: nat,
)
    requires
        n <= slots.len(),
        forall|i: int|
            0 <= i < slots.len() ==> #[trigger] slots[i] == seen_slot(slots[i], store),
    ensures
        slots_processed(kind, b, slots, store, now, n) == b,
    decreases n,
{
    if n > 0 {
        unchanged_sources_do_nothing(kind, b, slots, store, now, (n - 1) as nat);
        assert(slots[n - 1] == seen_slot(slots[n - 1], store));
    }
}

/// Tweens of different kinds or slots never share a key.
pub proof fn bind_keys_are_distinct(a: BindKind, i: u32, b: BindKind, j: u32)
    requires
        movable(a),
        movable(b),
        i < BIND_WINDOW,
        j < BIND_WINDOW,
        key_base(a) + i == key_base(b) + j,
    ensures
        a == b,
        i == j,
{
}

/// The tweens of the shell itself have keys that no bind has.
pub proof fn shell_tweens_are_no_binds(kind: BindKind, i: u32)
    requires
        movable(kind),
        i < BIND_WINDOW,
    ensures
        key_base(kind) + i < crate::app::drag::DRAG_RETURN_TWEEN_KEY,
        key_base(kind) + i < crate::app::shell::HINT_TWEEN_KEY,
{
}

/// A slot that was freed is used again before the list grows.
pub proof fn freed_slots_are_reused<N: Num>(
    before: Seq<Option<BindSlot<N>>>,
    after: Seq<Option<BindSlot<N>>>,
    place: usize,
    free: int,
    slot: BindSlot<N>,
)
    requires
        0 <= free < before.len(),
        before[free] is None,
        place <= before.len(),
        forall|j: int| 0 <= j < place ==> (#[trigger] before[j]) is Some,
        place < before.len() ==> after == before.update(place as int, Some(slot)),
    ensures
        place <= free,
        after.len() == before.len(),
{
    if free < place {
        assert(before[free] is Some);
    }
}

/// In exact numbers, the node shows the value: it has the colour, the offset,
/// the lengths or the opacity, and it is visible if its opacity is more than a
/// thousandth.
pub open spec fn shows<N>(value: spec_fn(N) -> real, kind: BindKind, n: Node<N>, v: Value<N>) -> bool {
    match kind {
        BindKind::Color => {
            let c = v->Quad_0;
            &&& value(n.color[0]) == value(c[0])
            &&& value(n.color[1]) == value(c[1])
            &&& value(n.color[2]) == value(c[2])
            &&& value(n.color[3]) == value(c[3])
        },
        BindKind::Position => {
            &&& n.layout.abs matches Some(a)
            &&& value(a[0]) == value(v->Pair_0[0])
            &&& value(a[1]) == value(v->Pair_0[1])
        },
        BindKind::Size => {
            &&& n.layout.width matches Len::Px(w)
            &&& n.layout.height matches Len::Px(h)
            &&& value(w) == value(v->Pair_0[0])
            &&& value(h) == value(v->Pair_0[1])
        },
        BindKind::Opacity => {
            &&& value(n.opacity) == value(v->Scalar_0)
            &&& n.visible <==> 1real < 1000real * value(v->Scalar_0)
        },
        BindKind::WidthPct => n.layout.width matches Len::Pct(w) && value(w) == value(v->Scalar_0),
        BindKind::WidthPx => n.layout.width matches Len::Px(w) && value(w) == value(v->Scalar_0),
        BindKind::HeightPx => n.layout.height matches Len::Px(h) && value(h) == value(v->Scalar_0),
    }
}

/// A value that is shown is what the node shows from then on, and no other node
/// changes. Where the node shows it already, nothing is touched or marked.
pub proof fn shown_values_are_seen<N: Num>(
    value: spec_fn(N) -> real,
    kind: BindKind,
    l: Look<N>,
    id: NodeId,
    v: Value<N>,
)
    requires
        computes_exactly(value),
        fits(kind, v),
        live(l.nodes, id),
    ensures
        ({
            let after = shown(kind, l, id, v);
            &&& live(after.nodes, id)
            &&& after.nodes.len() == l.nodes.len()
            &&& shows(value, kind, node_at(after.nodes, id), v)
            &&& forall|j: int|
                0 <= j < l.nodes.len() && j != id.index ==> #[trigger] after.nodes[j] == l.nodes[j]
            &&& shows(value, kind, node_at(l.nodes, id), v) ==> after == l
        }),
{
    let e = value(N::fraction(1, 1000));
    assert(e * (1000i32 as real) == 1i32 as real);
    assert((1000i32 as real) == 1000real);
    if kind is Opacity {
        let o = value(v->Scalar_0);
        assert(e < o <==> 1real < 1000real * o) by (nonlinear_arith)
            requires
                e * 1000real == 1real,
        ;
    }
    shown_once_is_seen(value, kind, l, id, v);
}

proof fn shown_once_is_seen<N: Num>(
    value: spec_fn(N) -> real,
    kind: BindKind,
    l: Look<N>,
    id: NodeId,
    v: Value<N>,
)
    requires
        forall|a: N, b: N| #[trigger] a.equals(b) <==> value(a) == value(b),
        kind is Opacity ==> (seen(v->Scalar_0) <==> 1real < 1000real * value(v->Scalar_0)),
        fits(kind, v),
        live(l.nodes, id),
    ensures
        ({
            let after = shown(kind, l, id, v);
            &&& live(after.nodes, id)
            &&& after.nodes.len() == l.nodes.len()
            &&& shows(value, kind, node_at(after.nodes, id), v)
            &&& forall|j: int|
                0 <= j < l.nodes.len() && j != id.index ==> #[trigger] after.nodes[j] == l.nodes[j]
            &&& shows(value, kind, node_at(l.nodes, id), v) ==> after == l
        }),
{
    let after = shown(kind, l, id, v);
    let n = node_at(l.nodes, id);
    match kind {
        BindKind::Color => {
            let c = v->Quad_0;
            assert(equals4(n.color, c) <==> shows(value, kind, n, v));
        },
        BindKind::Position => {
            let a = n.layout.abs;
            assert((a is Some && equals2(a->0, v->Pair_0)) <==> shows(value, kind, n, v));
        },
        BindKind::Size => {
            let w = Len::Px(v->Pair_0[0]);
            let h = Len::Px(v->Pair_0[1]);
            assert(same_len(n.layout.width, w) && same_len(n.layout.height, h) <==> shows(
                value,
                kind,
                n,
                v,
            ));
        },
        BindKind::Opacity => {},
        BindKind::WidthPct => {},
        BindKind::WidthPx => {},
        BindKind::HeightPx => {},
    }
}

/// A slot whose source has changed and that does not move makes its node show
/// the new value of the source, unless another slot is bound to the same node.
pub proof fn bound_nodes_show_their_sources<N: Num>(
    value: spec_fn(N) -> real,
    kind: BindKind,
    b: BindState<N>,
    slots: Seq<Option<BindSlot<N>>>,
    store: Seq<Cell<N>>,
    now: u64,
    n: nat,
    k: int,
)
    requires
        computes_exactly(value),
        slots_ok(kind, slots, store),
        n <= slots.len(),
        0 <= k < n,
        slots[k] is Some,
        store[slots[k]->0.source.index as int].version != slots[k]->0.last_version,
        slots[k]->0.displayed is None || slots[k]->0.animation is None || !movable(kind),
        live(b.look.nodes, slots[k]->0.node_id),
        forall|j: int|
            0 <= j < slots.len() && j != k && (#[trigger] slots[j]) is Some
                ==> slots[j]->0.node_id != slots[k]->0.node_id,
    ensures
        ({
            let s = slots[k]->0;
            let after = slots_processed(kind, b, slots, store, now, n);
            &&& live(after.look.nodes, s.node_id)
            &&& shows(
                value,
                kind,
                node_at(after.look.nodes, s.node_id),
                store[s.source.index as int].value,
            )
        }),
    decreases n,
{
    let s = slots[k]->0;
    let before = slots_processed(kind, b, slots, store, now, (n - 1) as nat);
    processing_keeps_nodes(value, kind, b, slots, store, now, (n - 1) as nat, s.node_id);
    assert(slot_ok(kind, slots[n - 1], store));
    if k == n - 1 {
        shown_values_are_seen(
            value,
            kind,
            before.look,
            s.node_id,
            store[s.source.index as int].value,
        );
    } else {
        bound_nodes_show_their_sources(value, kind, b, slots, store, now, (n - 1) as nat, k);
        let t = slots[n - 1];
        if t is Some && live(before.look.nodes, t->0.node_id) {
            assert(t->0.node_id != s.node_id);
            shown_values_are_seen(
                value,
                kind,
                before.look,
                t->0.node_id,
                store[t->0.source.index as int].value,
            );
        }
    }
}

proof fn processing_keeps_nodes<N: Num>(
    value: spec_fn(N) -> real,
    kind: BindKind,
    b: BindState<N>,
    slots: Seq<Option<BindSlot<N>>>,
    store: Seq<Cell<N>>,
    now: u64,
    n: nat,
    id: NodeId,
)
    requires
        computes_exactly(value),
        slots_ok(kind, slots, store),
        n <= slots.len(),
        live(b.look.nodes, id),
    ensures
        live(slots_processed(kind, b, slots, store, now, n).look.nodes, id),
    decreases n,
{
    if n > 0 {
        processing_keeps_nodes(value, kind, b, slots, store, now, (n - 1) as nat, id);
        let before = slots_processed(kind, b, slots, store, now, (n - 1) as nat);
        let t = slots[n - 1];
        assert(slot_ok(kind, t, store));
        if t is Some && live(before.look.nodes, t->0.node_id) {
            shown_values_are_seen(
                value,
                kind,
                before.look,
                t->0.node_id,
                store[t->0.source.index as int].value,
            );
            let after = shown(
                kind,
                before.look,
                t->0.node_id,
                store[t->0.source.index as int].value,
            );
            if id.index != t->0.node_id.index {
                assert(after.nodes[id.index as int] == before.look.nodes[id.index as int]);
            } else {
                assert(id == t->0.node_id);
            }
        }
    }
}

/// A slot with a displayed cell makes its node show that cell's value, unless
/// another slot is bound to the same node.
pub proof fn moving_nodes_show_their_displays<N: Num>(
    value: spec_fn(N) -> real,
    kind: BindKind,
    l: Look<N>,
    slots: Seq<Option<BindSlot<N>>>,
    store: Seq<Cell<N>>,
    n: nat,
    k: int,
)
    requires
        computes_exactly(value),
        slots_ok(kind, slots, store),
        n <= slots.len(),
        0 <= k < n,
        slots[k] is Some,
        slots[k]->0.displayed is Some,
        live(l.nodes, slots[k]->0.node_id),
        forall|j: int|
            0 <= j < slots.len() && j != k && (#[trigger] slots[j]) is Some
                ==> slots[j]->0.node_id != slots[k]->0.node_id,
    ensures
        ({
            let s = slots[k]->0;
            let after = displays_shown(kind, l, slots, store, n);
            &&& live(after.nodes, s.node_id)
            &&& shows(
                value,
                kind,
                node_at(after.nodes, s.node_id),
                store[s.displayed->0.index as int].value,
            )
        }),
    decreases n,
{
    let s = slots[k]->0;
    let before = displays_shown(kind, l, slots, store, (n - 1) as nat);
    assert(slot_ok(kind, slots[n - 1], store));
    if k == n - 1 {
        displaying_keeps_nodes(value, kind, l, slots, store, (n - 1) as nat, s.node_id);
        shown_values_are_seen(
            value,
            kind,
            before,
            s.node_id,
            store[s.displayed->0.index as int].value,
        );
    } else {
        moving_nodes_show_their_displays(value, kind, l, slots, store, (n - 1) as nat, k);
        let t = slots[n - 1];
        if t is Some && t->0.displayed is Some && live(before.nodes, t->0.node_id) {
            assert(t->0.node_id != s.node_id);
            shown_values_are_seen(
                value,
                kind,
                before,
                t->0.node_id,
                store[t->0.displayed->0.index as int].value,
            );
        }
    }
}

proof fn displaying_keeps_nodes<N: Num>(
    value: spec_fn(N) -> real,
    kind: BindKind,
    l: Look<N>,
    slots: Seq<Option<BindSlot<N>>>,
    store: Seq<Cell<N>>,
    n: nat,
    id: NodeId,
)
    requires
        computes_exactly(value),
        slots_ok(kind, slots, store),
        n <= slots.len(),
        live(l.nodes, id),
    ensures
        live(displays_shown(kind, l, slots, store, n).nodes, id),
    decreases n,
{
    if n > 0 {
        displaying_keeps_nodes(value, kind, l, slots, store, (n - 1) as nat, id);
        let before = displays_shown(kind, l, slots, store, (n - 1) as nat);
        let t = slots[n - 1];
        assert(slot_ok(kind, t, store));
        if t is Some && t->0.displayed is Some && live(before.nodes, t->0.node_id) {
            let v = store[t->0.displayed->0.index as int].value;
            shown_values_are_seen(value, kind, before, t->0.node_id, v);
            let after = shown(kind, before, t->0.node_id, v);
            if id.index != t->0.node_id.index {
                assert(after.nodes[id.index as int] == before.nodes[id.index as int]);
            } else {
                assert(id == t->0.node_id);
            }
        }
    }
}

/// A slot that moves starts a tween to the value of its source, under a key of
/// its own, and its node is left as it is until the tween has moved.
pub proof fn moving_slots_start_a_tween<N: Num>(
    kind: BindKind,
    b: BindState<N>,
    slot: BindSlot<N>,
    store: Seq<Cell<N>>,
    now: u64,
    i: int,
)
    requires
        slot.displayed is Some,
        slot.animation is Some,
        kind is Color || kind is Position || kind is Size || kind is Opacity,
        store[slot.source.index as int].version != slot.last_version,
    ensures
        ({
            let after = slot_processed(kind, b, Some(slot), store, now, i);
            &&& after.look == b.look
            &&& after.tweens == tween_restarted(
                b.tweens,
                store,
                (key_base(kind) + i) as u32,
                slot.displayed->0,
                store[slot.source.index as int].value,
                slot.animation->0,
                now,
            )
        }),
{
}

/// A text that is shown is what the node shows from then on, and a picture
/// likewise; the rest of the node stays, and so do all other nodes.
pub proof fn shown_texts_and_pictures_are_seen<N: Num>(
    l: Look<N>,
    id: NodeId,
    content: String,
    image: Option<ImageHandle>,
)
    requires
        live(l.nodes, id),
    ensures
        ({
            let after = text_shown(l, id, content);
            let (n, m) = (node_at(l.nodes, id), node_at(after.nodes, id));
            &&& n.text is Some ==> m.text is Some && m.text->0.content@ == content@
            &&& n.text is Some ==> m.text->0.font_size == n.text->0.font_size
                && m.text->0.line_height == n.text->0.line_height && m.text->0.max_width
                == n.text->0.max_width
            &&& n.text is None ==> after == l
            &&& n.text is Some && n.text->0.content@ == content@ ==> after == l
            &&& forall|j: int|
                0 <= j < l.nodes.len() && j != id.index ==> #[trigger] after.nodes[j] == l.nodes[j]
        }),
        ({
            let after = image_shown(l, id, image);
            &&& node_at(after.nodes, id).image == image
            &&& node_at(l.nodes, id).image == image ==> after == l
            &&& forall|j: int|
                0 <= j < l.nodes.len() && j != id.index ==> #[trigger] after.nodes[j] == l.nodes[j]
        }),
{
}

/// A text slot whose source has changed makes its node show the text of the
/// source, unless another slot is bound to the same node.
pub proof fn bound_nodes_show_their_texts<N: Num>(
    l: Look<N>,
    slots: Seq<Option<SnapSlot>>,
    texts: Seq<TextCell>,
    n: nat,
    k: int,
)
    requires
        n <= slots.len(),
        0 <= k < n,
        slots[k] is Some,
        texts[slots[k]->0.source as int].version != slots[k]->0.last_version,
        live(l.nodes, slots[k]->0.node_id),
        node_at(l.nodes, slots[k]->0.node_id).text is Some,
        forall|j: int|
            0 <= j < slots.len() && j != k && (#[trigger] slots[j]) is Some
                ==> slots[j]->0.node_id != slots[k]->0.node_id,
    ensures
        ({
            let s = slots[k]->0;
            let m = node_at(texts_shown(l, slots, texts, n).nodes, s.node_id);
            m.text is Some && m.text->0.content@ == texts[s.source as int].value@
        }),
    decreases n,
{
    let id = slots[k]->0.node_id;
    texts_leave_other_nodes(l, slots, texts, (n - 1) as nat, k, id);
    if k < n - 1 {
        bound_nodes_show_their_texts(l, slots, texts, (n - 1) as nat, k);
        let t = slots[n - 1];
        assert(t is Some ==> t->0.node_id != id);
    }
}

proof fn texts_leave_other_nodes<N: Num>(
    l: Look<N>,
    slots: Seq<Option<SnapSlot>>,
    texts: Seq<TextCell>,
    n: nat,
    k: int,
    id: NodeId,
)
    requires
        n <= slots.len(),
        live(l.nodes, id),
        forall|j: int|
            0 <= j < slots.len() && j != k && (#[trigger] slots[j]) is Some ==> slots[j]->0.node_id
                != id,
    ensures
        live(texts_shown(l, slots, texts, n).nodes, id),
        n <= k ==> texts_shown(l, slots, texts, n).nodes[id.index as int]
            == l.nodes[id.index as int],
    decreases n,
{
    if n > 0 {
        texts_leave_other_nodes(l, slots, texts, (n - 1) as nat, k, id);
        let t = slots[n - 1];
        assert(n - 1 != k && t is Some ==> t->0.node_id != id);
    }
}

/// A picture slot whose source has changed makes its node show the picture of
/// the source, unless another slot is bound to the same node.
pub proof fn bound_nodes_show_their_pictures<N: Num>(
    l: Look<N>,
    slots: Seq<Option<SnapSlot>>,
    images: Seq<ImageCell>,
    n: nat,
    k: int,
)
    requires
        n <= slots.len(),
        0 <= k < n,
        slots[k] is Some,
        images[slots[k]->0.source as int].version != slots[k]->0.last_version,
        live(l.nodes, slots[k]->0.node_id),
        forall|j: int|
            0 <= j < slots.len() && j != k && (#[trigger] slots[j]) is Some
                ==> slots[j]->0.node_id != slots[k]->0.node_id,
    ensures
        ({
            let s = slots[k]->0;
            let after = images_shown(l, slots, images, n);
            live(after.nodes, s.node_id) && node_at(after.nodes, s.node_id).image
                == images[s.source as int].value
        }),
    decreases n,
{
    let id = slots[k]->0.node_id;
    pictures_keep_nodes(l, slots, images, (n - 1) as nat, id);
    if k < n - 1 {
        bound_nodes_show_their_pictures(l, slots, images, (n - 1) as nat, k);
        let t = slots[n - 1];
        assert(t is Some ==> t->0.node_id != id);
    }
}

proof fn pictures_keep_nodes<N: Num>(
    l: Look<N>,
    slots: Seq<Option<SnapSlot>>,
    images: Seq<ImageCell>,
    n: nat,
    id: NodeId,
)
    requires
        n <= slots.len(),
        live(l.nodes, id),
    ensures
        live(images_shown(l, slots, images, n).nodes, id),
    decreases n,
{
    if n > 0 {
        pictures_keep_nodes(l, slots, images, (n - 1) as nat, id);
    }
}

/// A slot of a kind that never moves, whose source has changed, makes its node
/// show the new value, unless another slot is bound to the same node.
pub proof fn still_nodes_show_their_sources<N: Num>(
    value: spec_fn(N) -> real,
    kind: BindKind,
    l: Look<N>,
    slots: Seq<Option<BindSlot<N>>>,
    store: Seq<Cell<N>>,
    n: nat,
    k: int,
)
    requires
        computes_exactly(value),
        slots_ok(kind, slots, store),
        n <= slots.len(),
        0 <= k < n,
        slots[k] is Some,
        store[slots[k]->0.source.index as int].version != slots[k]->0.last_version,
        live(l.nodes, slots[k]->0.node_id),
        forall|j: int|
            0 <= j < slots.len() && j != k && (#[trigger] slots[j]) is Some
                ==> slots[j]->0.node_id != slots[k]->0.node_id,
    ensures
        ({
            let s = slots[k]->0;
            let after = snapped(kind, l, slots, store, n);
            &&& live(after.nodes, s.node_id)
            &&& shows(
                value,
                kind,
                node_at(after.nodes, s.node_id),
                store[s.source.index as int].value,
            )
        }),
    decreases n,
{
    let s = slots[k]->0;
    let before = snapped(kind, l, slots, store, (n - 1) as nat);
    let t = slots[n - 1];
    assert(slot_ok(kind, t, store));
    if k == n - 1 {
        snapping_keeps_nodes(value, kind, l, slots, store, (n - 1) as nat, s.node_id);
        shown_values_are_seen(
            value,
            kind,
            before,
            s.node_id,
            store[s.source.index as int].value,
        );
    } else {
        still_nodes_show_their_sources(value, kind, l, slots, store, (n - 1) as nat, k);
        if t is Some && live(before.nodes, t->0.node_id) {
            assert(t->0.node_id != s.node_id);
            shown_values_are_seen(
                value,
                kind,
                before,
                t->0.node_id,
                store[t->0.source.index as int].value,
            );
        }
    }
}

proof fn snapping_keeps_nodes<N: Num>(
    value: spec_fn(N) -> real,
    kind: BindKind,
    l: Look<N>,
    slots: Seq<Option<BindSlot<N>>>,
    store: Seq<Cell<N>>,
    n: nat,
    id: NodeId,
)
    requires
        computes_exactly(value),
        slots_ok(kind, slots, store),
        n <= slots.len(),
        live(l.nodes, id),
    ensures
        live(snapped(kind, l, slots, store, n).nodes, id),
    decreases n,
{
    if n > 0 {
        snapping_keeps_nodes(value, kind, l, slots, store, (n - 1) as nat, id);
        let before = snapped(kind, l, slots, store, (n - 1) as nat);
        let t = slots[n - 1];
        assert(slot_ok(kind, t, store));
        if t is Some && live(before.nodes, t->0.node_id) {
            let v = store[t->0.source.index as int].value;
            shown_values_are_seen(value, kind, before, t->0.node_id, v);
            let after = shown(kind, before, t->0.node_id, v);
            if id.index != t->0.node_id.index {
                assert(after.nodes[id.index as int] == before.nodes[id.index as int]);
            } else {
                assert(id == t->0.node_id);
            }
        }
    }
}

/// The slots that are dropped with some nodes are those bound to one of them.
pub proof fn slots_go_with_their_nodes<N>(
    slots: Seq<Option<BindSlot<N>>>,
    gone: Seq<NodeId>,
    n: nat,
    i: u32,
)
    requires
        n <= slots.len() <= u32::MAX,
    ensures
        gone_places(slots, gone, n).contains(i) <==> i < n && slots[i as int] is Some
            && gone.contains(slots[i as int]->0.node_id),
    decreases n,
{
    if n > 0 {
        slots_go_with_their_nodes(slots, gone, (n - 1) as nat, i);
        let before = gone_places(slots, gone, (n - 1) as nat);
        let after = gone_places(slots, gone, n);
        if slot_gone(slots[n - 1], gone) {
            assert(after.last() == (n - 1) as u32);
            if before.contains(i) {
                let j = choose|j: int| 0 <= j < before.len() && before[j] == i;
                assert(after[j] == i);
            }
            if after.contains(i) && i != n - 1 {
                let j = choose|j: int| 0 <= j < after.len() && after[j] == i;
                assert(before[j] == i);
            }
        }
    }
}

} // verus!
