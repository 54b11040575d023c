//! The events of the window.
//!
//! [`Shell`] holds what events change. A method takes an event as far as the
//! shell itself goes and says what is left to do: a handler to run, a pointer
//! shape to set, a redraw to ask for.
use vstd::prelude::*;

use crate::anim::{tween_restarted, Curve, Timeline};
use crate::app::caret::{editor_at, CaretBlink};
use crate::app::drag::{drag_told, grabbed, wheel_entry, wheel_target, DragState};
use crate::app::hover::{
    can_wait, dwell_target, fades_out, hover_recheck_due, redwelled, refresh_dwell, DwellTracker,
    Hint, HINT_FADE, HOVER_RECHECK,
};
use crate::app::keys::Modifiers;
use crate::app::window::{
    action_of, entry_shape, hovered_window_action, refresh_cursor, shape_at, wheel_amounts,
    wheel_in_lines, wheel_in_pixels, Edge, WheelDelta,
};
use crate::event::{DragCtx, WheelCtx};
use crate::input::{
    bubbled, cells_exist, drag_ended, drag_position, drag_to, end_drag, entry_cell, hover_applied,
    hover_changes, last_bar, last_container, negligible, on_wheel, over_entry, pointer_left,
    pointer_moved, position_of, component, press_ended, press_scrollbar, press_taken, scrolled_by,
    unscrolled, update_scrollbar_hover, wheel_delta, bar_marked, bar_pressed, drag_end_marked,
    Aspect, HeldKeys, InputChange, InputState, ScrollbarPress,
};
use crate::node::dirty;
use crate::node::scroll::jumped;
use crate::node::tree::{live, node_at, with_node, CursorShape, Node, NodeTree, WindowAction};
use crate::node::{HitEntry, NodeId, ScrollAxis, ScrollHit, ScrollbarHit};
use crate::num::{computes_exactly, fractions_are_exact, zero, Num};
use crate::signal::{store_written, Cell, SignalId, Signals, Value};

verus! {

/// The tween of the opacity of the hint.
pub const HINT_TWEEN_KEY: u32 = 0xD000_0001;

/// A scrollbar that is held.
#[derive(Copy, Clone, Debug)]
pub struct BarDrag<N> {
    pub node_id: NodeId,
    pub axis: ScrollAxis,
    /// Where the press landed.
    pub pointer_origin: N,
    /// Where the content was then.
    pub scroll_origin: N,
    /// Pixels that the thumb can travel.
    pub track_travel: N,
    /// Pixels that the content can scroll.
    pub max_offset: N,
}

/// What the events of the window change.
pub struct Shell<N> {
    pub tree: NodeTree<N>,
    pub signals: Signals<N>,
    pub timeline: Timeline<N>,
    pub input: InputState<N>,
    /// The node that holds a press of the right button.
    pub right_captured: Option<NodeId>,
    pub hits: Vec<HitEntry<N>>,
    pub scroll_hits: Vec<ScrollHit<N>>,
    pub scroll_bars: Vec<ScrollbarHit<N>>,
    pub bar_drag: Option<BarDrag<N>>,
    /// Where the pointer has moved to during a drag, to be followed once a
    /// frame.
    pub pending_drag: Option<[N; 2]>,
    /// Where the pointer has moved to over a node that follows it.
    pub pending_hover: Option<[N; 2]>,
    pub drag: DragState<N>,
    /// The cell by which a node glides back.
    pub drag_offset: SignalId,
    pub dwell: Option<DwellTracker>,
    pub hint: Hint,
    /// The cell of the hint's opacity.
    pub hint_fade: SignalId,
    /// Whether the pointer has moved under a hint.
    pub hint_moved: bool,
    pub next_recheck: Option<u64>,
    pub shape: CursorShape,
    pub blink: CaretBlink,
    pub held: HeldKeys,
    pub mods: Modifiers,
    pub scale: N,
}

/// Nodes whose cells that follow the pointer are the same.
pub open spec fn same_interact<N>(before: Seq<Option<Node<N>>>, after: Seq<Option<Node<N>>>) -> bool {
    forall|id: NodeId| #[trigger]
        live(after, id) ==> live(before, id) && node_at(after, id).interact == node_at(
            before,
            id,
        ).interact
}

/// The cells that follow the pointer are in a store of `cells` cells.
#[verifier::opaque]
pub open spec fn cells_fit<N: Num>(
    hits: Seq<HitEntry<N>>,
    nodes: Seq<Option<Node<N>>>,
    cells: nat,
) -> bool {
    cells_exist(hits, nodes, cells)
}

pub(crate) proof fn cells_still_fit<N: Num>(
    hits: Seq<HitEntry<N>>,
    before: Seq<Option<Node<N>>>,
    after: Seq<Option<Node<N>>>,
    cells: nat,
)
    requires
        cells_fit(hits, before, cells),
        same_interact(before, after),
    ensures
        cells_fit(hits, after, cells),
{
    reveal(cells_fit);
    assert forall|k: int, aspect: Aspect| 0 <= k < hits.len() implies (#[trigger] entry_cell(
        hits,
        after,
        aspect,
        k,
    ) matches Some(id) ==> id.index < cells) by {
        if live(after, hits[k].node_id) {
            assert(entry_cell(hits, before, aspect, k) == entry_cell(hits, after, aspect, k));
        }
    }
}

/// Scrolling touches no cells.
pub(crate) proof fn bubbling_keeps_interact<N: Num>(
    nodes: Seq<Option<Node<N>>>,
    chain: Seq<NodeId>,
    request: [N; 2],
    snap: bool,
    moved: bool,
    asked: bool,
    i: nat,
)
    ensures
        same_interact(nodes, bubbled(nodes, chain, request, snap, moved, asked, i).nodes),
    decreases chain.len() - i,
{
    if i < chain.len() {
        let id = chain[i as int];
        let part = crate::input::taken(nodes, id, request, snap);
        let after = with_node(
            nodes,
            id,
            crate::node::scroll::nudged(node_at(nodes, id), request, snap),
        );
        let rest = [request[0].difference(part[0]), request[1].difference(part[1])];
        assert(same_interact(nodes, after));
        if !negligible(rest) {
            let now = moved || !crate::num::equals2(part, [zero(), zero()]);
            let marks = asked || crate::node::scroll::scrolls_at(nodes, id);
            bubbling_keeps_interact(after, chain, rest, snap, now, marks, i + 1);
            let end = bubbled(after, chain, rest, snap, now, marks, i + 1).nodes;
            assert forall|d: NodeId| #[trigger] live(end, d) implies live(nodes, d) && node_at(
                end,
                d,
            ).interact == node_at(nodes, d).interact by {
                assert(live(after, d));
            }
        }
    }
}

/// The tweens after the hint started to fade.
pub open spec fn hint_fading<N: Num>(s: Shell<N>, to: N, now: u64) -> Seq<crate::anim::Tween<N>> {
    tween_restarted(
        s.timeline@,
        s.signals@,
        HINT_TWEEN_KEY,
        s.hint_fade,
        Value::Scalar(to),
        (Curve::EaseInOut, HINT_FADE),
        now,
    )
}

/// The shell after the hovered node may have changed: a hint of another node
/// fades out, and the dwell tracker is armed or dropped.
#[verifier::opaque]
pub open spec fn hover_followed<N: Num>(before: Shell<N>, after: Shell<N>, now: u64) -> bool {
    let out = fades_out(before.hint, before.input.hovered);
    &&& after == (Shell {
        dwell: redwelled(
            before.dwell,
            dwell_target(before.tree.nodes(), before.input.hovered),
            now,
        ),
        hint: if out {
            Hint { visible: false, ..before.hint }
        } else {
            before.hint
        },
        timeline: after.timeline,
        ..before
    })
    &&& after.timeline@ == (if out {
        hint_fading(before, zero(), now)
    } else {
        before.timeline@
    })
    &&& after.timeline.interval() == before.timeline.interval()
}

/// What is left to do after the pointer moved.
#[derive(Copy, Clone, Debug, PartialEq, Eq, Structural)]
pub struct MoveOutcome {
    /// Ask for a redraw.
    pub redraw: bool,
    /// Look at the binds and flush the tree.
    pub react: bool,
    /// Set this pointer shape.
    pub shape: Option<CursorShape>,
}

/// What is left to do after the wheel turned.
#[derive(Copy, Clone, Debug)]
pub enum WheelOutcome<N> {
    /// Nothing.
    Ignored,
    /// Run the wheel handler of a node.
    Handler(WheelCtx<N>),
    /// Containers were scrolled, if so.
    Scrolled(bool),
}

/// What is left to do after the left button went down.
#[derive(Copy, Clone, Debug)]
pub enum PressOutcome<N> {
    /// Resize the window by an edge.
    Resize(Edge),
    /// A scrollbar took the press.
    Scrollbar,
    /// Do what a window control stands for.
    Window(WindowAction),
    /// The scene took the press.
    Pressed {
        change: InputChange,
        /// Run the drag handler at the place of the press.
        drag: Option<DragCtx<N>>,
        /// The press counts as one outside of all floating layers.
        outside: bool,
        /// The text field that was pressed.
        field: Option<NodeId>,
    },
}

/// What is left to do after the left button went up.
#[derive(Copy, Clone, Debug)]
pub struct ReleaseOutcome {
    pub change: InputChange,
    /// The node that was clicked: the press began and ended on it.
    pub click: Option<NodeId>,
}

/// The press was captured by a text field.
pub open spec fn field_captured<N: Num>(s: Shell<N>) -> bool {
    s.input.captured is Some && editor_at(s.tree.nodes(), s.input.captured->0) is Some
}

/// The pointer's movements are kept for the next frame.
pub open spec fn drags<N: Num>(s: Shell<N>) -> bool {
    s.bar_drag is Some || s.drag.origin is Some || field_captured(s)
}

/// The hovered node follows the pointer.
pub open spec fn follows_pointer<N>(nodes: Seq<Option<Node<N>>>, hovered: Option<NodeId>) -> bool {
    hovered is Some && live(nodes, hovered->0) && node_at(nodes, hovered->0).handlers.hover_move
}

/// Some bar is marked otherwise.
pub open spec fn bars_change<N: Num>(
    nodes: Seq<Option<Node<N>>>,
    cursor: Option<[N; 2]>,
    bars: Seq<ScrollbarHit<N>>,
) -> bool {
    exists|k: int| 0 <= k < bars.len() && #[trigger] hover_changes(nodes, cursor, bars, k)
}

/// The shell after bars and cells were set for a pointer at a point.
#[verifier::opaque]
pub open spec fn pointed<N: Num>(
    before: Shell<N>,
    after: Shell<N>,
    x: N,
    y: N,
    change: InputChange,
) -> bool {
    &&& hover_applied(
        before.tree.nodes(),
        after.tree.nodes(),
        Some([x, y]),
        before.scroll_bars@,
        before.scroll_bars@.len() as int,
    )
    &&& after.tree.root_ids() == before.tree.root_ids()
    &&& after.tree.dirty_mask() == dirty::marked_if(
        before.tree.dirty_mask(),
        bars_change(before.tree.nodes(), Some([x, y]), before.scroll_bars@),
        dirty::VISUAL,
    )
    &&& pointer_moved(
        before.input,
        after.input,
        before.hits@,
        after.tree.nodes(),
        before.signals@,
        after.signals@,
        x,
        y,
        change,
    )
    &&& after == (Shell {
        tree: after.tree,
        input: after.input,
        signals: after.signals,
        ..before
    })
}

/// The shell after the pointer shape, the hovered node and the hint followed
/// the pointer, and whether a redraw is to be asked for.
#[verifier::opaque]
pub open spec fn settled<N: Num>(
    before: Shell<N>,
    after: Shell<N>,
    x: N,
    y: N,
    edge: Option<Edge>,
    r: (Option<CursorShape>, bool),
) -> bool {
    let nodes = before.tree.nodes();
    let shape = shape_at::<N>(
        edge,
        action_of(nodes, before.input.hovered),
        entry_shape(before.hits@, nodes, x, y, 0),
    );
    let follows = follows_pointer(nodes, before.input.hovered);
    &&& after == (Shell {
        shape,
        pending_hover: if follows {
            Some([x, y])
        } else {
            before.pending_hover
        },
        hint_moved: before.hint_moved || before.hint.node is Some,
        ..before
    })
    &&& r.0 == (if shape == before.shape {
        None
    } else {
        Some(shape)
    })
    &&& r.1 == (follows || before.hint.node is Some)
}

/// The outcome of a movement of the pointer while nothing is dragged. `mid`
/// is the shell after bars and cells were set, `quiet` after the hovered node
/// was followed.
pub open spec fn moved_freely<N: Num>(
    before: Shell<N>,
    mid: Shell<N>,
    quiet: Shell<N>,
    after: Shell<N>,
    x: N,
    y: N,
    edge: Option<Edge>,
    now: u64,
    change: InputChange,
    r: MoveOutcome,
) -> bool {
    &&& pointed(before, mid, x, y, change)
    &&& if change.hovered_changed {
        hover_followed(mid, quiet, now)
    } else {
        quiet == mid
    }
    &&& settled(quiet, after, x, y, edge, (r.shape, r.redraw))
    &&& r.react == (change.hovered_changed || change.pressed_changed || bars_change(
        before.tree.nodes(),
        Some([x, y]),
        before.scroll_bars@,
    ))
}

impl<N: Num> Shell<N> {
    pub open spec fn wf(self) -> bool {
        &&& self.tree.wf()
        &&& cells_fit(self.hits@, self.tree.nodes(), self.signals@.len())
        &&& self.hint_fade.index < self.signals@.len()
        &&& self.drag_offset.index < self.signals@.len()
    }

    /// A shell without a scene.
    pub fn new(scale: N) -> (r: Self)
        ensures
            r.wf(),
            r.tree.nodes().len() == 0,
            r.tree.root_ids().len() == 0,
            r.tree.dirty_mask() == dirty::NONE,
            r.timeline@.len() == 0,
            r.timeline.interval() == crate::anim::DEFAULT_TICK_INTERVAL,
            r.signals@ == seq![
                Cell { value: Value::Pair([zero::<N>(), zero()]), version: 0 },
                Cell { value: Value::Scalar(zero()), version: 0 },
            ],
            r.drag_offset.index == 0,
            r.hint_fade.index == 1,
            r.right_captured is None,
            r.input.cursor is None,
            r.input.hovered is None,
            r.input.captured is None,
            r.input.focused is None,
            r.hits@.len() == 0,
            r.scroll_hits@.len() == 0,
            r.scroll_bars@.len() == 0,
            r.bar_drag is None,
            r.pending_drag is None,
            r.pending_hover is None,
            r.drag == crate::app::drag::no_drag::<N>(),
            r.dwell is None,
            r.hint == (Hint { node: None, visible: false }),
            !r.hint_moved,
            r.next_recheck is None,
            r.shape == CursorShape::Default,
            r.blink == (CaretBlink { anchor: 0, on: true }),
            !r.held.some_held(),
            r.mods == (Modifiers { shift: false, control: false, command: false }),
            r.scale == scale,
    {
        let z: N = N::of_ratio(0, 1);
        let mut signals: Signals<N> = Signals::new();
        let drag_offset: SignalId = signals.create(Value::Pair([z, z]));
        let hint_fade: SignalId = signals.create(Value::Scalar(z));
        proof {
            reveal(cells_fit);
            assert(signals@ =~= seq![
                Cell { value: Value::Pair([zero::<N>(), zero()]), version: 0 },
                Cell { value: Value::Scalar(zero()), version: 0 },
            ]);
        }
        Shell {
            tree: NodeTree::new(),
            signals,
            timeline: Timeline::new(),
            input: InputState::new(),
            right_captured: None,
            hits: Vec::new(),
            scroll_hits: Vec::new(),
            scroll_bars: Vec::new(),
            bar_drag: None,
            pending_drag: None,
            pending_hover: None,
            drag: DragState::none(),
            drag_offset,
            dwell: None,
            hint: Hint::none(),
            hint_fade,
            hint_moved: false,
            next_recheck: None,
            shape: CursorShape::Default,
            blink: CaretBlink { anchor: 0, on: true },
            held: HeldKeys::none(),
            mods: Modifiers { shift: false, control: false, command: false },
            scale,
        }
    }

    /// The hovered node may have changed.
    pub fn follow_hover(&mut self, now: u64)
        requires
            old(self).wf(),
            can_wait(dwell_target(old(self).tree.nodes(), old(self).input.hovered), now),
        ensures
            final(self).wf(),
            hover_followed(*old(self), *final(self), now),
    {
        proof {
            reveal(hover_followed);
        }
        if self.hint.follow(self.input.hovered) {
            self.timeline.restart(
                &self.signals,
                HINT_TWEEN_KEY,
                self.hint_fade,
                Value::Scalar(N::of_ratio(0, 1)),
                Curve::EaseInOut,
                HINT_FADE,
                now,
            );
        }
        self.dwell = refresh_dwell(self.dwell, &self.tree, self.input.hovered, now);
    }

    /// Shows the hint of a node: it starts to fade in.
    pub fn show_hint(&mut self, node: NodeId, now: u64)
        requires
            old(self).wf(),
        ensures
            final(self).wf(),
            *final(self) == (Shell {
                hint: Hint { node: Some(node), visible: true },
                timeline: final(self).timeline,
                ..*old(self)
            }),
            final(self).timeline@ == hint_fading(*old(self), N::fraction(1, 1), now),
            final(self).timeline.interval() == old(self).timeline.interval(),
    {
        self.hint.show(node);
        self.timeline.restart(
            &self.signals,
            HINT_TWEEN_KEY,
            self.hint_fade,
            Value::Scalar(N::of_ratio(1, 1)),
            Curve::EaseInOut,
            HINT_FADE,
            now,
        );
    }

    /// Removes the hint at once. The result says whether there was one.
    pub fn clear_hint(&mut self) -> (r: bool)
        requires
            old(self).wf(),
        ensures
            final(self).wf(),
            r == (old(self).hint.node is Some),
            *final(self) == (Shell {
                hint: Hint { node: None, visible: false },
                timeline: final(self).timeline,
                signals: final(self).signals,
                ..*old(self)
            }),
            final(self).timeline@ == crate::anim::without_key(
                old(self).timeline@,
                HINT_TWEEN_KEY,
            ),
            final(self).timeline.interval() == old(self).timeline.interval(),
            final(self).signals@ == store_written(
                old(self).signals@,
                old(self).hint_fade.index as int,
                Value::Scalar(zero()),
            ),
            final(self).signals@.len() == old(self).signals@.len(),
    {
        let was: bool = self.hint.clear();
        self.timeline.stop(HINT_TWEEN_KEY);
        self.signals.set(self.hint_fade, Value::Scalar(N::of_ratio(0, 1)));
        was
    }

    /// Whether a press was captured by a text field.
    fn has_field(&self) -> (r: bool)
        ensures
            r == field_captured(*self),
    {
        match self.input.captured {
            Some(id) => match self.tree.get(id) {
                Some(n) => n.editor.is_some(),
                None => false,
            },
            None => false,
        }
    }

    /// Sets bars and cells for a pointer at a point.
    pub(crate) fn point_at(&mut self, x: N, y: N) -> (r: (InputChange, bool))
        requires
            old(self).wf(),
        ensures
            final(self).wf(),
            pointed(*old(self), *final(self), x, y, r.0),
            !r.0.focused_changed,
            r.1 == bars_change(old(self).tree.nodes(), Some([x, y]), old(self).scroll_bars@),
            forall|id: Option<NodeId>| #[trigger]
                dwell_target(final(self).tree.nodes(), id) == dwell_target(
                    old(self).tree.nodes(),
                    id,
                ),
    {
        proof {
            reveal(pointed);
        }
        let ghost before = *self;
        let bars: bool = update_scrollbar_hover(
            Some([x, y]),
            &self.scroll_bars,
            &mut self.tree,
        );
        proof {
            assert(same_interact(before.tree.nodes(), self.tree.nodes()));
            cells_still_fit(
                self.hits@,
                before.tree.nodes(),
                self.tree.nodes(),
                self.signals@.len(),
            );
            assert forall|id: Option<NodeId>| #[trigger]
                dwell_target(self.tree.nodes(), id) == dwell_target(before.tree.nodes(), id) by {
                same_dwell(
                    before.tree.nodes(),
                    self.tree.nodes(),
                    id,
                    Some([x, y]),
                    self.scroll_bars@,
                );
            }
        }
        proof {
            reveal(cells_fit);
        }
        let change: InputChange = self.input.on_cursor_moved(
            x,
            y,
            &self.hits,
            &self.tree,
            &mut self.signals,
        );
        (change, bars)
    }

    /// Moves a scrollbar that is held.
    fn drag_bar(&mut self, c: [N; 2]) -> (r: bool)
        requires
            old(self).wf(),
        ensures
            final(self).wf(),
            *final(self) == (Shell { tree: final(self).tree, ..*old(self) }),
            final(self).tree.root_ids() == old(self).tree.root_ids(),
            final(self).tree.nodes() == (match old(self).bar_drag {
                Some(d) => bar_dragged(old(self).tree.nodes(), d, c),
                None => old(self).tree.nodes(),
            }),
            final(self).tree.dirty_mask() == dirty::marked_if(
                old(self).tree.dirty_mask(),
                bar_marks(old(self).tree.nodes(), old(self).bar_drag),
                dirty::SCROLL,
            ),
            r == (old(self).bar_drag matches Some(d) && bar_moves(old(self).tree.nodes(), d, c)),
    {
        let ghost before = *self;
        let mut moved: bool = false;
        if let Some(d) = self.bar_drag {
            moved = drag_to(
                c,
                d.node_id,
                d.axis,
                d.pointer_origin,
                d.scroll_origin,
                d.track_travel,
                d.max_offset,
                &mut self.tree,
            );
        }
        proof {
            assert(same_interact(before.tree.nodes(), self.tree.nodes()));
            cells_still_fit(
                self.hits@,
                before.tree.nodes(),
                self.tree.nodes(),
                self.signals@.len(),
            );
        }
        moved
    }

    /// The pointer moved. During a drag the place is only kept; otherwise
    /// hover, the bars and the pointer shape follow it. `edge` is the edge of
    /// the window that it is at.
    pub fn on_cursor_moved(&mut self, x: N, y: N, edge: Option<Edge>, now: u64) -> (r: MoveOutcome)
        requires
            old(self).wf(),
            forall|id: Option<NodeId>|
                can_wait(#[trigger] dwell_target(old(self).tree.nodes(), id), now),
        ensures
            final(self).wf(),
            drags(*old(self)) ==> {
                &&& *final(self) == (Shell {
                    input: InputState { cursor: Some([x, y]), ..old(self).input },
                    pending_drag: Some([x, y]),
                    ..*old(self)
                })
                &&& r == (MoveOutcome { redraw: true, react: false, shape: None })
            },
            !drags(*old(self)) ==> exists|mid: Shell<N>, quiet: Shell<N>, change: InputChange|
                #[trigger]
                moved_freely(*old(self), mid, quiet, *final(self), x, y, edge, now, change, r),
    {
        if self.bar_drag.is_some() || self.drag.origin.is_some() || self.has_field() {
            self.input.cursor = Some([x, y]);
            self.pending_drag = Some([x, y]);
            return MoveOutcome { redraw: true, react: false, shape: None };
        }
        self.move_freely(x, y, edge, now)
    }

    /// Hover, bars, hint and pointer shape follow the pointer.
    fn move_freely(&mut self, x: N, y: N, edge: Option<Edge>, now: u64) -> (r: MoveOutcome)
        requires
            old(self).wf(),
            forall|id: Option<NodeId>|
                can_wait(#[trigger] dwell_target(old(self).tree.nodes(), id), now),
        ensures
            final(self).wf(),
            exists|mid: Shell<N>, quiet: Shell<N>, change: InputChange| #[trigger]
                moved_freely(*old(self), mid, quiet, *final(self), x, y, edge, now, change, r),
    {
        let (change, bars): (InputChange, bool) = self.point_at(x, y);
        let ghost mid = *self;
        if change.hovered_changed {
            assert(can_wait(dwell_target(self.tree.nodes(), self.input.hovered), now));
            self.follow_hover(now);
        }
        let ghost quiet = *self;
        let (shape, redraw): (Option<CursorShape>, bool) = self.settle(x, y, edge);
        let react: bool = change.any() || bars;
        let r = MoveOutcome { redraw, react, shape };
        assert(moved_freely(*old(self), mid, quiet, *self, x, y, edge, now, change, r));
        r
    }

    /// Pointer shape, hovered node and hint follow the pointer.
    fn settle(&mut self, x: N, y: N, edge: Option<Edge>) -> (r: (Option<CursorShape>, bool))
        requires
            old(self).wf(),
        ensures
            final(self).wf(),
            settled(*old(self), *final(self), x, y, edge, r),
    {
        proof {
            reveal(settled);
        }
        let shape: Option<CursorShape> = refresh_cursor(
            &mut self.shape,
            edge,
            &self.tree,
            &self.hits,
            self.input.hovered,
            x,
            y,
        );
        let follows: bool = self.hovered_follows();
        if follows {
            self.pending_hover = Some([x, y]);
        }
        let hint: bool = self.hint.node.is_some();
        if hint {
            self.hint_moved = true;
        }
        (shape, follows || hint)
    }

    /// Whether the hovered node follows the pointer.
    fn hovered_follows(&self) -> (r: bool)
        ensures
            r == follows_pointer(self.tree.nodes(), self.input.hovered),
    {
        match self.input.hovered {
            Some(id) => match self.tree.get(id) {
                Some(n) => n.handlers.hover_move,
                None => false,
            },
            None => false,
        }
    }

    /// Hover is found anew where the scene has moved under a pointer at rest.
    /// The result says whether anything changed.
    pub fn tick_hover_recheck(&mut self, now: u64) -> (r: bool)
        requires
            old(self).wf(),
            now + HOVER_RECHECK <= u64::MAX,
            forall|id: Option<NodeId>|
                can_wait(#[trigger] dwell_target(old(self).tree.nodes(), id), now),
        ensures
            final(self).wf(),
            ({
                let owned = old(self).input.captured is Some || old(self).bar_drag is Some
                    || old(self).drag.origin is Some;
                let due = old(self).next_recheck matches Some(d) && now >= d;
                &&& !due ==> !r && *final(self) == *old(self)
                &&& due && owned ==> !r && *final(self) == (Shell {
                    next_recheck: Some((now + HOVER_RECHECK) as u64),
                    ..*old(self)
                })
                &&& due && !owned && old(self).input.cursor is None ==> !r && *final(self) == (
                Shell { next_recheck: None, ..*old(self) })
                &&& due && !owned && old(self).input.cursor is Some ==> exists|
                    mid: Shell<N>,
                    change: InputChange,
                | #[trigger]
                    rechecked(*old(self), mid, *final(self), now, change) && r == (
                    change.hovered_changed || change.pressed_changed)
            }),
    {
        let owned: bool = self.input.captured.is_some() || self.bar_drag.is_some()
            || self.drag.origin.is_some();
        let (next, run): (Option<u64>, bool) = hover_recheck_due(self.next_recheck, owned, now);
        self.next_recheck = next;
        if !run {
            return false;
        }
        let c: [N; 2] = match self.input.cursor {
            Some(c) => c,
            None => return false,
        };
        let (change, _bars): (InputChange, bool) = self.point_at(c[0], c[1]);
        let ghost mid = *self;
        if change.hovered_changed {
            self.follow_hover(now);
        }
        assert(rechecked(*old(self), mid, *self, now, change));
        change.any()
    }

    /// The wheel turned. A node under the pointer that handles it comes
    /// first, then the containers.
    pub fn on_mouse_wheel(&mut self, delta: WheelDelta<N>, now: u64) -> (r: WheelOutcome<N>)
        requires
            old(self).wf(),
        ensures
            final(self).wf(),
            match old(self).input.cursor {
                None => r is Ignored && *final(self) == *old(self),
                Some(c) => match wheel_entry(old(self).hits@, old(self).tree.nodes(), c[0], c[1], 0) {
                    Some(e) => {
                        &&& *final(self) == *old(self)
                        &&& r == WheelOutcome::Handler(
                            WheelCtx {
                                node: e.0,
                                now,
                                delta: wheel_in_lines(delta, old(self).scale),
                                rect: e.1,
                                scale: old(self).scale,
                            },
                        )
                    },
                    None => {
                        let d = wheel_delta(
                            wheel_in_pixels(delta, old(self).scale),
                            old(self).mods.shift,
                        );
                        &&& *final(self) == (Shell { tree: final(self).tree, ..*old(self) })
                        &&& final(self).tree.root_ids() == old(self).tree.root_ids()
                        &&& r is Scrolled
                        &&& match last_container(
                            old(self).scroll_hits@,
                            c[0],
                            c[1],
                            old(self).scroll_hits@.len(),
                        ) {
                            Some(k) if !negligible(d) => scrolled_by(
                                old(self).tree,
                                final(self).tree,
                                r->Scrolled_0,
                                bubbled(
                                    old(self).tree.nodes(),
                                    old(self).scroll_hits@[k].ancestor_chain@,
                                    d,
                                    true,
                                    false,
                                    false,
                                    0,
                                ),
                            ),
                            _ => scrolled_by(
                                old(self).tree,
                                final(self).tree,
                                r->Scrolled_0,
                                unscrolled(old(self).tree.nodes()),
                            ),
                        }
                    },
                },
            },
    {
        let c: [N; 2] = match self.input.cursor {
            Some(c) => c,
            None => return WheelOutcome::Ignored,
        };
        let (lines, pixels): ([N; 2], [N; 2]) = wheel_amounts(delta, self.scale);
        if let Some((node, rect)) = wheel_target(&self.tree, &self.hits, c[0], c[1]) {
            return WheelOutcome::Handler(
                WheelCtx { node, now, delta: lines, rect, scale: self.scale },
            );
        }
        let ghost before = self.tree.nodes();
        let moved: bool = on_wheel(
            c,
            pixels,
            &self.scroll_hits,
            &mut self.tree,
            self.mods.shift,
        );
        proof {
            let d = wheel_delta(wheel_in_pixels(delta, self.scale), self.mods.shift);
            if let Some(k) = last_container(
                self.scroll_hits@,
                c[0],
                c[1],
                self.scroll_hits@.len(),
            ) {
                bubbling_keeps_interact(
                    before,
                    self.scroll_hits@[k].ancestor_chain@,
                    d,
                    true,
                    false,
                    false,
                    0,
                );
            }
            cells_still_fit(self.hits@, before, self.tree.nodes(), self.signals@.len());
        }
        WheelOutcome::Scrolled(moved)
    }

    /// The left button went down. An edge of the window takes the press
    /// first, then a scrollbar, then a window control, then the scene.
    pub fn on_left_pressed(&mut self, edge: Option<Edge>) -> (r: PressOutcome<N>)
        requires
            old(self).wf(),
        ensures
            final(self).wf(),
            ({
                let s = *old(self);
                let at = s.input.cursor;
                let bar = match at {
                    Some(c) => last_bar(s.scroll_bars@, c[0], c[1], s.scroll_bars@.len()),
                    None => None,
                };
                if at is Some && edge is Some {
                    r == PressOutcome::<N>::Resize(edge->0) && *final(self) == s
                } else if bar is Some {
                    &&& r is Scrollbar
                    &&& *final(self) == (Shell {
                        tree: final(self).tree,
                        bar_drag: final(self).bar_drag,
                        ..s
                    })
                    &&& final(self).tree.root_ids() == s.tree.root_ids()
                    &&& final(self).tree.dirty_mask() == bar_marked(
                        s.scroll_bars@[bar->0],
                        s.tree.nodes(),
                        at->0,
                        s.tree.dirty_mask(),
                    )
                    &&& bar_taken(
                        bar_pressed(s.scroll_bars@[bar->0], s.tree.nodes(), at->0),
                        s.bar_drag,
                        final(self).tree.nodes(),
                        final(self).bar_drag,
                    )
                } else if action_of(s.tree.nodes(), s.input.hovered) is Some {
                    &&& r == PressOutcome::<N>::Window(
                        action_of(s.tree.nodes(), s.input.hovered)->0,
                    )
                    &&& *final(self) == (Shell { tree: final(self).tree, ..s })
                    &&& final(self).tree.looks_like(s.tree)
                } else {
                    &&& r is Pressed
                    &&& scene_pressed(s, *final(self), r)
                }
            }),
    {
        if let Some(c) = self.input.cursor {
            if let Some(e) = edge {
                return PressOutcome::Resize(e);
            }
            let press = press_scrollbar(c, &self.scroll_bars, &mut self.tree);
            proof {
                assert(same_interact(old(self).tree.nodes(), self.tree.nodes()));
                cells_still_fit(
                    self.hits@,
                    old(self).tree.nodes(),
                    self.tree.nodes(),
                    self.signals@.len(),
                );
            }
            match press {
                ScrollbarPress::StartDrag {
                    node_id,
                    axis,
                    pointer_origin,
                    scroll_origin,
                    track_travel,
                    max_offset,
                } => {
                    self.bar_drag = Some(
                        BarDrag {
                            node_id,
                            axis,
                            pointer_origin,
                            scroll_origin,
                            track_travel,
                            max_offset,
                        },
                    );
                    return PressOutcome::Scrollbar;
                },
                ScrollbarPress::JumpedToPosition => return PressOutcome::Scrollbar,
                ScrollbarPress::Miss => {},
            }
        }
        if let Some(action) = hovered_window_action(&self.tree, self.input.hovered) {
            return PressOutcome::Window(action);
        }
        self.press_scene()
    }

    /// The scene takes a press where the pointer is: the hovered node captures
    /// it and takes the focus, and a drag starts if it can be dragged.
    pub fn press_scene(&mut self) -> (r: PressOutcome<N>)
        requires
            old(self).wf(),
        ensures
            final(self).wf(),
            r is Pressed,
            scene_pressed(*old(self), *final(self), r),
    {
        proof {
            reveal(cells_fit);
        }
        let change: InputChange = self.input.on_left_pressed(
            &self.hits,
            &self.tree,
            &mut self.signals,
        );
        let ghost s1 = *self;
        let fires: bool = self.drag.begin(
            &mut self.tree,
            self.input.captured,
            self.input.cursor,
            &mut self.timeline,
        );
        let mut drag: Option<DragCtx<N>> = None;
        if fires {
            if let Some(c) = self.input.cursor {
                drag = self.drag.fire(
                    &self.tree,
                    &self.hits,
                    self.input.captured,
                    c[0],
                    c[1],
                    self.scale,
                );
            }
        }
        let outside: bool = crate::app::window::press_is_outside(&self.tree, self.input.captured);
        let field: Option<NodeId> = if self.input.cursor.is_some() && self.has_field() {
            self.input.captured
        } else {
            None
        };
        PressOutcome::Pressed { change, drag, outside, field }
    }

    /// The left button went up. A scrollbar that is held is let go where the
    /// pointer was last. What the end of a drag sets off is told by
    /// [`DragState::take_end`], [`DragState::take_drop`] and
    /// [`DragState::release`].
    pub fn on_left_released(&mut self) -> (r: ReleaseOutcome)
        requires
            old(self).wf(),
        ensures
            final(self).wf(),
            exists|mid: Shell<N>| #[trigger]
                bar_let_go(*old(self), mid) && press_ended(
                    mid.input,
                    final(self).input,
                    mid.hits@,
                    mid.tree.nodes(),
                    mid.signals@,
                    final(self).signals@,
                    r.change,
                ) && *final(self) == (Shell {
                    input: final(self).input,
                    signals: final(self).signals,
                    ..mid
                }),
            r.click == clicked(old(self).input, old(self).hits@),
    {
        let click: Option<NodeId> = self.click_of(self.input.captured);
        self.let_go_of_bar();
        let ghost mid = *self;
        proof {
            reveal(cells_fit);
        }
        let change: InputChange = self.input.on_left_released(
            &self.hits,
            &self.tree,
            &mut self.signals,
        );
        assert(bar_let_go(*old(self), mid));
        ReleaseOutcome { change, click }
    }

    /// The right button went down.
    pub fn on_right_pressed(&mut self)
        requires
            old(self).wf(),
        ensures
            final(self).wf(),
            *final(self) == (Shell { right_captured: old(self).input.hovered, ..*old(self) }),
    {
        self.right_captured = self.input.hovered;
    }

    /// The right button went up. The result is the node that was clicked.
    pub fn on_right_released(&mut self) -> (r: Option<NodeId>)
        requires
            old(self).wf(),
        ensures
            final(self).wf(),
            *final(self) == (Shell { right_captured: None, ..*old(self) }),
            r == clicked(
                InputState { captured: old(self).right_captured, ..old(self).input },
                old(self).hits@,
            ),
    {
        let captured: Option<NodeId> = self.right_captured;
        self.right_captured = None;
        self.click_of(captured)
    }

    fn click_of(&self, captured: Option<NodeId>) -> (r: Option<NodeId>)
        ensures
            r == clicked(InputState { captured, ..self.input }, self.hits@),
    {
        match captured {
            Some(cap) => match self.input.cursor {
                Some(c) => if crate::input::point_over(&self.hits, cap, c[0], c[1]) {
                    Some(cap)
                } else {
                    None
                },
                None => None,
            },
            None => None,
        }
    }

    /// Lets go of a scrollbar that is held, where the pointer was last. The
    /// result says whether one was.
    pub fn let_go_of_bar(&mut self) -> (r: bool)
        requires
            old(self).wf(),
        ensures
            final(self).wf(),
            bar_let_go(*old(self), *final(self)),
            r == (old(self).bar_drag is Some),
    {
        let d: BarDrag<N> = match self.bar_drag {
            Some(d) => d,
            None => return false,
        };
        let ghost before = *self;
        self.bar_drag = None;
        if let Some(c) = self.pending_drag {
            self.pending_drag = None;
            drag_to(
                c,
                d.node_id,
                d.axis,
                d.pointer_origin,
                d.scroll_origin,
                d.track_travel,
                d.max_offset,
                &mut self.tree,
            );
        }
        end_drag(d.node_id, d.axis, &mut self.tree);
        proof {
            assert(same_interact(before.tree.nodes(), self.tree.nodes()));
            cells_still_fit(
                self.hits@,
                before.tree.nodes(),
                self.tree.nodes(),
                self.signals@.len(),
            );
        }
        true
    }

    /// The rest of giving up a press whose end will not be seen, after the
    /// handler for the end of the drag ran: drags, bars, hover, hint and
    /// pointer shape go back to rest. The result says whether anything is to
    /// be drawn, whether the hint went, and whether the pointer shape is to be
    /// set.
    pub fn cancel_pointer(&mut self) -> (r: (bool, bool, bool))
        requires
            old(self).wf(),
        ensures
            final(self).wf(),
            exists|
                a: Shell<N>,
                b: Shell<N>,
                c: Shell<N>,
                store: Seq<Cell<N>>,
                left: InputChange,
                ended: InputChange,
            | #[trigger]
                cancelled(*old(self), a, b, c, *final(self), store, left, ended) && r.0 == (
                left.hovered_changed || ended.pressed_changed || ended.hovered_changed
                    || bars_change(a.tree.nodes(), None, a.scroll_bars@)),
            final(self).input == (InputState {
                cursor: None,
                hovered: None,
                captured: None,
                ..old(self).input
            }),
            r.1 == (old(self).hint.node is Some),
            r.2 == (old(self).shape != CursorShape::Default),
    {
        self.let_go_of_bar();
        let ghost a = *self;
        let bars: bool = self.drop_drag();
        let ghost b = *self;
        proof {
            reveal(cells_fit);
        }
        let left: InputChange = self.input.on_cursor_left(
            &self.hits,
            &self.tree,
            &mut self.signals,
        );
        let ghost store = self.signals@;
        let ended: InputChange = self.input.on_left_released(
            &self.hits,
            &self.tree,
            &mut self.signals,
        );
        let ghost c = *self;
        self.right_captured = None;
        self.dwell = None;
        let hint: bool = self.clear_hint();
        let reset: bool = self.shape != CursorShape::Default;
        self.shape = CursorShape::Default;
        assert(cancelled(*old(self), a, b, c, *self, store, left, ended));
        (left.any() || ended.any() || bars, hint, reset)
    }

    /// Drops a drag and the marks of all bars.
    fn drop_drag(&mut self) -> (r: bool)
        requires
            old(self).wf(),
        ensures
            final(self).wf(),
            drag_dropped(*old(self), *final(self)),
            r == bars_change(old(self).tree.nodes(), None, old(self).scroll_bars@),
    {
        let ghost before = *self;
        self.drag.clear(&mut self.tree, &mut self.timeline);
        let bars: bool = update_scrollbar_hover(None, &self.scroll_bars, &mut self.tree);
        proof {
            dirty::marks_stick(before.tree.dirty_mask(), dirty::VISUAL);
            assert(same_interact(before.tree.nodes(), self.tree.nodes()));
            cells_still_fit(
                self.hits@,
                before.tree.nodes(),
                self.tree.nodes(),
                self.signals@.len(),
            );
        }
        bars
    }

    /// Follows a drag to where the pointer was last: a scrollbar that is held
    /// and a node that follows the pointer move. The result is what the drag
    /// handler is told, and whether anything moved.
    pub fn follow_drag(&mut self) -> (r: (Option<DragCtx<N>>, bool))
        requires
            old(self).wf(),
        ensures
            final(self).wf(),
            old(self).pending_drag is None ==> r.0 is None && !r.1 && *final(self) == *old(self),
            old(self).pending_drag is Some ==> {
                let s = *old(self);
                let c = s.pending_drag->0;
                let nodes = final(self).tree.nodes();
                &&& final(self).pending_drag is None
                &&& *final(self) == (Shell {
                    tree: final(self).tree,
                    drag: final(self).drag,
                    pending_drag: None,
                    ..s
                })
                &&& final(self).tree.root_ids() == s.tree.root_ids()
                &&& final(self).tree.dirty_mask() == dirty::marked_if(
                    dirty::marked_if(
                        s.tree.dirty_mask(),
                        bar_marks(s.tree.nodes(), s.bar_drag),
                        dirty::SCROLL,
                    ),
                    lifted_follows(nodes, s.drag, s.input.captured),
                    dirty::VISUAL,
                )
                &&& nodes == (match s.bar_drag {
                    Some(d) => bar_dragged(s.tree.nodes(), d, c),
                    None => s.tree.nodes(),
                })
                &&& r.0 == drag_told(
                    s.drag,
                    nodes,
                    s.hits@,
                    s.input.captured,
                    c[0],
                    c[1],
                    s.scale,
                )
                &&& final(self).drag == drag_followed(
                    nodes,
                    s.drag,
                    s.input.captured,
                    r.0 is Some,
                    c,
                )
                &&& r.1 == ((s.bar_drag matches Some(d) && bar_moves(s.tree.nodes(), d, c))
                    || r.0 is Some || lifted_follows(nodes, s.drag, s.input.captured))
            },
    {
        let c: [N; 2] = match self.pending_drag {
            Some(c) => c,
            None => return (None, false),
        };
        self.pending_drag = None;
        let moved: bool = self.drag_bar(c);
        let told: Option<DragCtx<N>> = self.drag.fire(
            &self.tree,
            &self.hits,
            self.input.captured,
            c[0],
            c[1],
            self.scale,
        );
        let follows: bool = self.drag.update_follow(
            &mut self.tree,
            self.input.captured,
            c[0],
            c[1],
        );
        let any: bool = moved || told.is_some() || follows;
        (told, any)
    }
}

/// The shell after a drag and the marks of all bars were dropped.
pub open spec fn drag_dropped<N: Num>(before: Shell<N>, after: Shell<N>) -> bool {
    &&& after == (Shell {
        drag: crate::app::drag::no_drag(),
        timeline: after.timeline,
        tree: after.tree,
        ..before
    })
    &&& after.timeline@ == crate::anim::without_key(
        before.timeline@,
        crate::app::drag::DRAG_RETURN_TWEEN_KEY,
    )
    &&& hover_applied(
        before.tree.nodes(),
        after.tree.nodes(),
        None,
        before.scroll_bars@,
        before.scroll_bars@.len() as int,
    )
    &&& after.tree.root_ids() == before.tree.root_ids()
    &&& after.tree.dirty_mask() == dirty::marked_if(
        before.tree.dirty_mask(),
        before.drag.follow is Some || bars_change(
            before.tree.nodes(),
            None,
            before.scroll_bars@,
        ),
        dirty::VISUAL,
    )
}

/// The steps of giving up a press: `a` after a bar was let go, `b` after the
/// drag was dropped, `c` after hover and press were dropped.
pub open spec fn cancelled<N: Num>(
    before: Shell<N>,
    a: Shell<N>,
    b: Shell<N>,
    c: Shell<N>,
    after: Shell<N>,
    store: Seq<Cell<N>>,
    left: InputChange,
    ended: InputChange,
) -> bool {
    let gone = InputState { cursor: None, hovered: None, ..b.input };
    &&& bar_let_go(before, a)
    &&& drag_dropped(a, b)
    &&& pointer_left(b.input, gone, b.hits@, b.tree.nodes(), b.signals@, store, left)
    &&& press_ended(gone, c.input, b.hits@, b.tree.nodes(), store, c.signals@, ended)
    &&& c == (Shell { input: c.input, signals: c.signals, ..b })
    &&& after == (Shell {
        right_captured: None,
        dwell: None,
        hint: Hint { node: None, visible: false },
        shape: CursorShape::Default,
        timeline: after.timeline,
        signals: after.signals,
        ..c
    })
    &&& after.timeline@ == crate::anim::without_key(c.timeline@, HINT_TWEEN_KEY)
    &&& after.signals@ == store_written(
        c.signals@,
        c.hint_fade.index as int,
        Value::Scalar(zero()),
    )
}

/// The nodes after a held scrollbar followed the pointer.
pub open spec fn bar_dragged<N: Num>(nodes: Seq<Option<Node<N>>>, d: BarDrag<N>, cursor: [N; 2]) -> Seq<
    Option<Node<N>>,
> {
    if d.track_travel.at_most(zero()) || d.max_offset.at_most(zero()) {
        nodes
    } else {
        with_node(
            nodes,
            d.node_id,
            jumped(
                node_at(nodes, d.node_id),
                d.axis,
                drag_position(
                    component(d.axis, cursor),
                    d.pointer_origin,
                    d.scroll_origin,
                    d.track_travel,
                    d.max_offset,
                ),
            ),
        )
    }
}

/// A held scrollbar puts its content somewhere when it follows the pointer.
pub open spec fn bar_marks<N: Num>(nodes: Seq<Option<Node<N>>>, held: Option<BarDrag<N>>) -> bool {
    held matches Some(d) && live(nodes, d.node_id) && !d.track_travel.at_most(zero())
        && !d.max_offset.at_most(zero())
}

/// A held scrollbar moves its content when it follows the pointer.
pub open spec fn bar_moves<N: Num>(nodes: Seq<Option<Node<N>>>, d: BarDrag<N>, cursor: [N; 2]) -> bool {
    &&& !d.track_travel.at_most(zero())
    &&& !d.max_offset.at_most(zero())
    &&& crate::input::epsilon::<N>().below(
        component(d.axis, position_of(bar_dragged(nodes, d, cursor), d.node_id)).difference(
            component(d.axis, position_of(nodes, d.node_id)),
        ).magnitude(),
    )
}

/// The captured node follows the pointer.
pub open spec fn lifted_follows<N: Num>(
    nodes: Seq<Option<Node<N>>>,
    drag: DragState<N>,
    captured: Option<NodeId>,
) -> bool {
    captured is Some && drag.origin is Some && live(nodes, captured->0) && node_at(
        nodes,
        captured->0,
    ).drag_follow
}

/// The drag after it followed the pointer.
pub open spec fn drag_followed<N: Num>(
    nodes: Seq<Option<Node<N>>>,
    drag: DragState<N>,
    captured: Option<NodeId>,
    told: bool,
    c: [N; 2],
) -> DragState<N> {
    let after = if told {
        DragState { last: Some([c[0], c[1]]), ..drag }
    } else {
        drag
    };
    if lifted_follows(nodes, drag, captured) {
        let o = drag.origin->0;
        DragState {
            follow: Some(
                crate::app::drag::Lifted {
                    node: captured->0,
                    offset: [c[0].difference(o[0]), c[1].difference(o[1])],
                },
            ),
            ..after
        }
    } else {
        after
    }
}

/// The shell after a scrollbar was let go.
pub open spec fn bar_let_go<N: Num>(before: Shell<N>, after: Shell<N>) -> bool {
    match before.bar_drag {
        None => after == before,
        Some(d) => {
            let dragged = match before.pending_drag {
                Some(c) => bar_dragged(before.tree.nodes(), d, c),
                None => before.tree.nodes(),
            };
            &&& after == (Shell { tree: after.tree, bar_drag: None, pending_drag: None, ..before })
            &&& after.tree.wf()
            &&& after.tree.root_ids() == before.tree.root_ids()
            &&& after.tree.nodes() == drag_ended(dragged, d.node_id, d.axis)
            &&& after.tree.dirty_mask() == drag_end_marked(
                dirty::marked_if(
                    before.tree.dirty_mask(),
                    before.pending_drag is Some && bar_marks(before.tree.nodes(), Some(d)),
                    dirty::SCROLL,
                ),
                live(before.tree.nodes(), d.node_id),
            )
        },
    }
}

/// A scrollbar took a press.
pub open spec fn bar_taken<N: Num>(
    press: (ScrollbarPress<N>, Seq<Option<Node<N>>>),
    held_before: Option<BarDrag<N>>,
    nodes: Seq<Option<Node<N>>>,
    held: Option<BarDrag<N>>,
) -> bool {
    &&& nodes == press.1
    &&& held == (match press.0 {
        ScrollbarPress::StartDrag {
            node_id,
            axis,
            pointer_origin,
            scroll_origin,
            track_travel,
            max_offset,
        } => Some(
            BarDrag { node_id, axis, pointer_origin, scroll_origin, track_travel, max_offset },
        ),
        _ => held_before,
    })
}

/// The scene took a press: the hovered node captures it and takes the focus,
/// and a drag starts if it can be dragged.
pub open spec fn scene_pressed<N: Num>(before: Shell<N>, after: Shell<N>, r: PressOutcome<N>) -> bool {
    let nodes = before.tree.nodes();
    let captured = before.input.hovered;
    let begins = grabbed(nodes, captured, before.input.cursor);
    let change = r->Pressed_change;
    &&& press_taken(
        before.input,
        after.input,
        before.hits@,
        nodes,
        before.signals@,
        after.signals@,
        change,
    )
    &&& crate::app::drag::lift_marked(
        before.tree,
        after.tree,
        begins && node_at(nodes, captured->0).drag_follow,
    )
    &&& after.timeline@ == (if begins && before.drag.returning is Some {
        crate::anim::without_key(before.timeline@, crate::app::drag::DRAG_RETURN_TWEEN_KEY)
    } else {
        before.timeline@
    })
    &&& after.timeline.interval() == before.timeline.interval()
    &&& after == (Shell {
        tree: after.tree,
        input: after.input,
        signals: after.signals,
        drag: after.drag,
        timeline: after.timeline,
        ..before
    })
    &&& if begins {
        let n = node_at(nodes, captured->0);
        let c = before.input.cursor->0;
        let started = crate::app::drag::begun(before.drag, n, captured->0, c);
        &&& r->Pressed_drag == (if n.handlers.drag {
            drag_told(started, nodes, before.hits@, captured, c[0], c[1], before.scale)
        } else {
            None
        })
        &&& after.drag == (if r->Pressed_drag is Some {
            DragState { last: Some([c[0], c[1]]), ..started }
        } else {
            started
        })
    } else {
        r->Pressed_drag is None && after.drag == before.drag
    }
    &&& r->Pressed_outside == (match captured {
        None => true,
        Some(id) => live(nodes, id) && node_at(nodes, id).dismiss_transparent,
    })
    &&& r->Pressed_field == (if before.input.cursor is Some && captured is Some && editor_at(
        nodes,
        captured->0,
    ) is Some {
        captured
    } else {
        None
    })
}

/// The outcome of finding hover anew. `mid` is the shell after bars and cells
/// were set.
pub open spec fn rechecked<N: Num>(
    before: Shell<N>,
    mid: Shell<N>,
    after: Shell<N>,
    now: u64,
    change: InputChange,
) -> bool {
    let c = before.input.cursor->0;
    &&& pointed(Shell { next_recheck: None, ..before }, mid, c[0], c[1], change)
    &&& if change.hovered_changed {
        hover_followed(mid, after, now)
    } else {
        after == mid
    }
}

/// Marking bars changes no dwell time.
proof fn same_dwell<N: Num>(
    before: Seq<Option<Node<N>>>,
    after: Seq<Option<Node<N>>>,
    id: Option<NodeId>,
    cursor: Option<[N; 2]>,
    bars: Seq<ScrollbarHit<N>>,
)
    requires
        hover_applied(before, after, cursor, bars, bars.len() as int),
    ensures
        dwell_target(after, id) == dwell_target(before, id),
{
    if let Some(i) = id {
        if live(before, i) {
            assert(live(after, i));
        }
        if live(after, i) {
            assert(live(before, i));
        }
    }
}

/// The node that is clicked when the left button goes up: the one that was
/// pressed, if the pointer is still on it.
pub open spec fn clicked<N: Num>(input: InputState<N>, hits: Seq<HitEntry<N>>) -> Option<NodeId> {
    match (input.captured, input.cursor) {
        (Some(cap), Some(c)) => if over_entry(hits, cap, c[0], c[1], 0) {
            Some(cap)
        } else {
            None
        },
        _ => None,
    }
}

/// A click is a press that ends where it began: what is clicked was pressed,
/// the pointer is on it, and after the pointer was dragged off nothing is
/// clicked.
pub proof fn press_dragged_off_is_no_click<N: Num>(input: InputState<N>, hits: Seq<HitEntry<N>>)
    ensures
        ({
            let over = |id: NodeId|
                input.cursor is Some && over_entry(
                    hits,
                    id,
                    input.cursor->0[0],
                    input.cursor->0[1],
                    0,
                );
            &&& clicked(input, hits) is Some ==> clicked(input, hits) == input.captured && over(
                input.captured->0,
            )
            &&& input.captured is Some && !over(input.captured->0) ==> clicked(input, hits) is None
        }),
{
}

/// A movement of the pointer while nothing is held is noted: the pointer is at
/// the point and over the topmost node there, or over the one that a press
/// began on. A hint of another node begins to go, and the pointer begins to
/// rest on the node that it came over.
pub proof fn free_movements_are_noted<N: Num>(
    before: Shell<N>,
    mid: Shell<N>,
    quiet: Shell<N>,
    after: Shell<N>,
    x: N,
    y: N,
    edge: Option<Edge>,
    now: u64,
    change: InputChange,
    r: MoveOutcome,
)
    requires
        moved_freely(before, mid, quiet, after, x, y, edge, now, change, r),
    ensures
        after.input.cursor == Some([x, y]),
        before.input.captured is None ==> after.input.hovered == crate::input::first_hit(
            before.hits@,
            x,
            y,
            0,
        ),
        before.input.captured is Some ==> after.input.hovered == before.input.captured,
        after.input.captured == before.input.captured,
        after.input.focused == before.input.focused,
        change.hovered_changed && after.dwell is Some ==> Some(after.dwell->0.node)
            == after.input.hovered,
        change.hovered_changed && before.hint.node is Some && before.hint.node
            != after.input.hovered ==> !after.hint.visible,
        !change.hovered_changed ==> after.hint == before.hint && after.dwell == before.dwell,
        r.shape is Some ==> after.shape == r.shape->0 && after.shape != before.shape,
        r.shape is None ==> after.shape == before.shape,
        edge is Some ==> after.shape == crate::app::window::edge_shape(edge->0),
        after.drag == before.drag,
        after.bar_drag == before.bar_drag,
{
    reveal(pointed);
    reveal(hover_followed);
    reveal(settled);
}

/// After a press was given up nothing is held, hovered, pressed or dragged, and
/// no hint is shown. The focus stays.
pub proof fn given_up_presses_leave_nothing<N: Num>(
    value: spec_fn(N) -> real,
    before: Shell<N>,
    a: Shell<N>,
    b: Shell<N>,
    c: Shell<N>,
    after: Shell<N>,
    store: Seq<Cell<N>>,
    left: InputChange,
    ended: InputChange,
)
    requires
        computes_exactly(value),
        cancelled(before, a, b, c, after, store, left, ended),
        c.hint_fade.index < c.signals@.len(),
    ensures
        after.bar_drag is None,
        after.right_captured is None,
        after.dwell is None,
        after.hint.node is None,
        !after.hint.visible,
        after.shape is Default,
        after.input.cursor is None,
        after.input.hovered is None,
        after.input.captured is None,
        after.input.focused == before.input.focused,
        after.drag.origin is None,
        after.drag.payload is None,
        after.drag.follow is None,
        after.drag.returning is None,
        after.signals@[after.hint_fade.index as int].value matches Value::Scalar(v) && value(v)
            == 0real || crate::signal::same_value(
            c.signals@[c.hint_fade.index as int].value,
            Value::Scalar(zero()),
        ),
        forall|i: int|
            0 <= i < after.timeline@.len() ==> (#[trigger] after.timeline@[i]).key
                != HINT_TWEEN_KEY,
{
    fractions_are_exact(value);
    crate::anim::dropped_keys_are_gone(c.timeline@, HINT_TWEEN_KEY);
}

/// In exact numbers, a lifted node is as far from its place as the pointer is
/// from where the press landed, and the handler's next movement is counted from
/// where it was told last.
pub proof fn lifted_nodes_follow_the_pointer<N: Num>(
    value: spec_fn(N) -> real,
    nodes: Seq<Option<Node<N>>>,
    drag: DragState<N>,
    captured: Option<NodeId>,
    told: bool,
    c: [N; 2],
)
    requires
        computes_exactly(value),
        captured is Some,
        drag.origin is Some,
        live(nodes, captured->0),
        node_at(nodes, captured->0).drag_follow,
    ensures
        ({
            let after = drag_followed(nodes, drag, captured, told, c);
            &&& after.follow matches Some(l)
            &&& l.node == captured->0
            &&& value(drag.origin->0[0]) + value(l.offset[0]) == value(c[0])
            &&& value(drag.origin->0[1]) + value(l.offset[1]) == value(c[1])
            &&& told ==> after.last == Some(c)
            &&& !told ==> after.last == drag.last
            &&& after.origin == drag.origin
        }),
{
    let after = drag_followed(nodes, drag, captured, told, c);
    if told {
        assert(after.last->0 =~= c);
    }
}

/// In exact numbers, content whose bar is held is where the thumb is, as far as
/// it reaches: it has moved as much farther along its way as the pointer along
/// the track. No other node moves.
pub proof fn held_bars_move_their_content<N: Num>(
    value: spec_fn(N) -> real,
    nodes: Seq<Option<Node<N>>>,
    d: BarDrag<N>,
    cursor: [N; 2],
    k: int,
)
    requires
        computes_exactly(value),
        live(nodes, d.node_id),
        node_at(nodes, d.node_id).scroll is Some,
        value(d.track_travel) > 0real,
        value(d.max_offset) > 0real,
        k == crate::pointing::axis_index(d.axis),
    ensures
        ({
            let n = node_at(nodes, d.node_id);
            let m = node_at(bar_dragged(nodes, d, cursor), d.node_id);
            let way = (value(cursor[k]) - value(d.pointer_origin)) * value(d.max_offset);
            let at = value(m.scroll->0.current[k]);
            let max = crate::scrolling::limit(value, n, k);
            &&& 0real <= at <= max
            &&& 0real < at < max ==> (at - value(d.scroll_origin)) * value(d.track_travel) == way
            &&& m.scroll->0.current[1 - k] == n.scroll->0.current[1 - k]
            &&& forall|j: int|
                0 <= j < nodes.len() && j != d.node_id.index ==> #[trigger] bar_dragged(
                    nodes,
                    d,
                    cursor,
                )[j] == nodes[j]
        }),
{
    fractions_are_exact(value);
    let n = node_at(nodes, d.node_id);
    let pos = drag_position(
        component(d.axis, cursor),
        d.pointer_origin,
        d.scroll_origin,
        d.track_travel,
        d.max_offset,
    );
    crate::pointing::thumbs_stay_under_the_pointer(
        value,
        component(d.axis, cursor),
        d.pointer_origin,
        d.scroll_origin,
        d.track_travel,
        d.max_offset,
    );
    crate::pointing::dragged_content_is_there_at_once(value, n, d.axis, pos);
}

/// A press that no bar takes goes to the node that is hovered: it holds the
/// press and has the focus. A drag begins if the node can be dragged.
pub proof fn pressed_nodes_hold_the_press<N: Num>(
    before: Shell<N>,
    after: Shell<N>,
    r: PressOutcome<N>,
)
    requires
        scene_pressed(before, after, r),
    ensures
        after.input.captured == before.input.hovered,
        after.input.focused == before.input.hovered,
        after.input.hovered == before.input.hovered,
        after.tree.nodes() == before.tree.nodes(),
        after.bar_drag == before.bar_drag,
        after.hint == before.hint,
        ({
            let nodes = before.tree.nodes();
            let hit = before.input.hovered;
            let n = node_at(nodes, hit->0);
            let begins = hit is Some && before.input.cursor is Some && live(nodes, hit->0) && (
            n.handlers.drag || n.drag_payload is Some || n.drag_follow);
            &&& begins ==> after.drag.origin == before.input.cursor && after.drag.payload
                == n.drag_payload
            &&& !begins ==> after.drag == before.drag
            &&& r->Pressed_outside <==> hit is None || (live(nodes, hit->0)
                && n.dismiss_transparent)
        }),
{
}

/// A bar that took a press on its thumb is held, for the node and the axis of
/// the bar, from where the pointer and the content are; a press beside the thumb
/// holds nothing new.
pub proof fn grabbed_bars_are_held<N: Num>(
    value: spec_fn(N) -> real,
    b: crate::node::ScrollbarHit<N>,
    nodes: Seq<Option<Node<N>>>,
    cursor: [N; 2],
    before: Option<BarDrag<N>>,
    after: Seq<Option<Node<N>>>,
    held: Option<BarDrag<N>>,
)
    requires
        computes_exactly(value),
        live(nodes, b.node_id),
        node_at(nodes, b.node_id).scroll is Some,
        bar_taken(bar_pressed(b, nodes, cursor), before, after, held),
    ensures
        crate::pointing::within(value, b.thumb, cursor[0], cursor[1]) ==> {
            let k = crate::pointing::axis_index(b.axis);
            &&& held matches Some(d)
            &&& d.node_id == b.node_id
            &&& d.axis == b.axis
            &&& d.pointer_origin == cursor[k]
            &&& d.scroll_origin == node_at(nodes, b.node_id).scroll->0.current[k]
            &&& d.track_travel == b.track_travel
            &&& d.max_offset == b.max_offset
        },
        !crate::pointing::within(value, b.thumb, cursor[0], cursor[1]) ==> held == before,
{
    if crate::pointing::within(value, b.thumb, cursor[0], cursor[1]) {
        crate::pointing::thumbs_are_grabbed(value, b, nodes, cursor);
    }
}

/// Finding hover anew hovers the topmost node where the pointer is, and leaves
/// the pointer, the press and the focus alone.
pub proof fn rechecked_hover_is_under_the_pointer<N: Num>(
    before: Shell<N>,
    mid: Shell<N>,
    after: Shell<N>,
    now: u64,
    change: InputChange,
)
    requires
        rechecked(before, mid, after, now, change),
        before.input.cursor is Some,
    ensures
        after.input.captured == before.input.captured,
        after.input.focused == before.input.focused,
        after.next_recheck is None,
        before.input.captured is None ==> after.input.hovered == crate::input::first_hit(
            before.hits@,
            before.input.cursor->0[0],
            before.input.cursor->0[1],
            0,
        ),
        before.input.captured is Some ==> after.input.hovered == before.input.captured,
{
    reveal(pointed);
    reveal(hover_followed);
}

/// Movements are kept for the next frame while a bar is held, a node is dragged,
/// or a text field holds the press; otherwise they count at once.
pub proof fn held_presses_keep_movements<N: Num>(s: Shell<N>)
    ensures
        s.bar_drag is Some ==> drags(s),
        s.drag.origin is Some ==> drags(s),
        s.bar_drag is None && s.drag.origin is None && s.input.captured is None ==> !drags(s),
        s.bar_drag is None && s.drag.origin is None && s.input.captured is Some && drags(s) ==> live(
            s.tree.nodes(),
            s.input.captured->0,
        ) && node_at(s.tree.nodes(), s.input.captured->0).editor is Some,
        s.input.captured is Some && live(s.tree.nodes(), s.input.captured->0) && node_at(
            s.tree.nodes(),
            s.input.captured->0,
        ).editor is Some ==> drags(s),
{
}

} // verus!
