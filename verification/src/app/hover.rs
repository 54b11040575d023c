//! What happens when the pointer rests on a node: dwell handlers, hover
//! hints, and finding hover anew when the scene moved under the pointer.
use vstd::prelude::*;

use crate::input::same_node;
use crate::node::tree::{live, node_at, Node, NodeTree};
use crate::node::NodeId;
use crate::num::Num;

verus! {

/// Nanoseconds of hovering before a hint is shown, where the node does not
/// say otherwise.
pub const HINT_DWELL: u64 = 110_000_000;

/// Nanoseconds that a hint takes to fade in or out.
pub const HINT_FADE: u64 = 120_000_000;

/// Nanoseconds from a change of the scene to finding hover anew.
pub const HOVER_RECHECK: u64 = 90_000_000;

/// Nanoseconds between two refreshes of the statistics overlay.
pub const HUD_INTERVAL: u64 = 100_000_000;

/// A node that the pointer rests on.
#[derive(Debug, Clone, Copy, PartialEq, Eq, Structural)]
pub struct DwellTracker {
    pub node: NodeId,
    pub deadline: u64,
    /// Whether the handler has run since the pointer came.
    pub fired: bool,
}

/// The node has a hint.
pub open spec fn has_hint<N>(n: Node<N>) -> bool {
    n.hover_hint is Some || n.hover_hint_text is Some
}

/// How long the pointer has to rest on a node: what its dwell handler says,
/// else the time for hints, if it has one.
pub open spec fn dwell_of<N>(n: Node<N>) -> Option<u64> {
    match n.handlers.dwell {
        Some(d) => Some(d),
        None => if has_hint(n) {
            Some(HINT_DWELL)
        } else {
            None
        },
    }
}

/// The hovered node and its dwell time, if it has one.
pub open spec fn dwell_target<N>(
    nodes: Seq<Option<Node<N>>>,
    hovered: Option<NodeId>,
) -> Option<(NodeId, u64)> {
    match hovered {
        Some(id) => if live(nodes, id) && dwell_of(node_at(nodes, id)) is Some {
            Some((id, dwell_of(node_at(nodes, id))->0))
        } else {
            None
        },
        None => None,
    }
}

/// The tracker after the hovered node may have changed: it stays armed on the
/// same node, is armed anew on another, and is dropped without one.
pub open spec fn redwelled(
    tracker: Option<DwellTracker>,
    target: Option<(NodeId, u64)>,
    now: u64,
) -> Option<DwellTracker> {
    match target {
        None => None,
        Some((id, d)) => if tracker is Some && tracker->0.node == id {
            tracker
        } else {
            Some(DwellTracker { node: id, deadline: (now + d) as u64, fired: false })
        },
    }
}

/// The time of the clock plus a span can be told.
pub open spec fn can_wait(target: Option<(NodeId, u64)>, now: u64) -> bool {
    target matches Some(t) ==> now + t.1 <= u64::MAX
}

fn find_dwell_target<N: Num>(tree: &NodeTree<N>, hovered: Option<NodeId>) -> (r: Option<
    (NodeId, u64),
>)
    ensures
        r == dwell_target(tree.nodes(), hovered),
{
    match hovered {
        None => None,
        Some(id) => match tree.get(id) {
            None => None,
            Some(n) => match n.handlers.dwell {
                Some(d) => Some((id, d)),
                None => if n.hover_hint.is_some() || n.hover_hint_text.is_some() {
                    Some((id, HINT_DWELL))
                } else {
                    None
                },
            },
        },
    }
}

/// Brings the tracker in step with the hovered node.
pub fn refresh_dwell<N: Num>(
    tracker: Option<DwellTracker>,
    tree: &NodeTree<N>,
    hovered: Option<NodeId>,
    now: u64,
) -> (r: Option<DwellTracker>)
    requires
        can_wait(dwell_target(tree.nodes(), hovered), now),
    ensures
        r == redwelled(tracker, dwell_target(tree.nodes(), hovered), now),
{
    match find_dwell_target(tree, hovered) {
        None => None,
        Some(t) => {
            if let Some(old) = tracker {
                if old.node == t.0 {
                    return tracker;
                }
            }
            Some(DwellTracker { node: t.0, deadline: now + t.1, fired: false })
        },
    }
}

/// What a rested pointer sets off.
#[derive(Debug, Clone, Copy, PartialEq, Eq, Structural)]
pub struct DwellFire {
    pub node: NodeId,
    /// Show the hint of the node.
    pub hint: bool,
    /// Run the dwell handler of the node.
    pub handler: bool,
}

/// The tracker is due.
pub open spec fn dwell_due(tracker: Option<DwellTracker>, now: u64) -> bool {
    tracker is Some && !tracker->0.fired && now >= tracker->0.deadline
}

/// What a due tracker sets off: nothing if the pointer has left the node, or
/// if the node has neither hint nor handler any more.
pub open spec fn dwell_fire<N>(
    tracker: Option<DwellTracker>,
    nodes: Seq<Option<Node<N>>>,
    hovered: Option<NodeId>,
    now: u64,
) -> Option<DwellFire> {
    if !dwell_due(tracker, now) || hovered != Some(tracker->0.node) {
        None
    } else {
        let id = tracker->0.node;
        if live(nodes, id) && dwell_of(node_at(nodes, id)) is Some {
            Some(
                DwellFire {
                    node: id,
                    hint: has_hint(node_at(nodes, id)),
                    handler: node_at(nodes, id).handlers.dwell is Some,
                },
            )
        } else {
            None
        }
    }
}

/// The tracker after it was looked at: fired, dropped, or as it was.
pub open spec fn dwell_after<N>(
    tracker: Option<DwellTracker>,
    nodes: Seq<Option<Node<N>>>,
    hovered: Option<NodeId>,
    now: u64,
) -> Option<DwellTracker> {
    if !dwell_due(tracker, now) {
        tracker
    } else if dwell_fire(tracker, nodes, hovered, now) is Some {
        Some(DwellTracker { fired: true, ..tracker->0 })
    } else {
        None
    }
}

/// Sets off what is due.
pub fn tick_dwell<N: Num>(
    tracker: &mut Option<DwellTracker>,
    tree: &NodeTree<N>,
    hovered: Option<NodeId>,
    now: u64,
) -> (r: Option<DwellFire>)
    ensures
        r == dwell_fire(*old(tracker), tree.nodes(), hovered, now),
        *final(tracker) == dwell_after(*old(tracker), tree.nodes(), hovered, now),
{
    let t: DwellTracker = match *tracker {
        None => return None,
        Some(t) => t,
    };
    if t.fired || now < t.deadline {
        return None;
    }
    if !same_node(hovered, Some(t.node)) {
        *tracker = None;
        return None;
    }
    let (handler, hint): (bool, bool) = match tree.get(t.node) {
        Some(n) => (
            n.handlers.dwell.is_some(),
            n.hover_hint.is_some() || n.hover_hint_text.is_some(),
        ),
        None => (false, false),
    };
    if !handler && !hint {
        *tracker = None;
        return None;
    }
    *tracker = Some(DwellTracker { node: t.node, deadline: t.deadline, fired: true });
    Some(DwellFire { node: t.node, hint, handler })
}

/// A pointer that rests on a node sets off its handler once: after that, as
/// long as the same node is hovered, neither waiting nor moving about on the
/// node sets it off again.
pub proof fn dwell_fires_once<N: Num>(
    tracker: Option<DwellTracker>,
    nodes: Seq<Option<Node<N>>>,
    hovered: Option<NodeId>,
    now: u64,
    later: u64,
    moved: u64,
)
    requires
        dwell_fire(tracker, nodes, hovered, now) is Some,
    ensures
        ({
            let fired = dwell_after(tracker, nodes, hovered, now);
            &&& dwell_fire(fired, nodes, hovered, later) is None
            &&& dwell_after(fired, nodes, hovered, later) == fired
            &&& redwelled(fired, dwell_target(nodes, hovered), moved) == fired
        }),
{
}

/// As long as the same node is hovered, bringing the tracker in step again
/// changes nothing: the time that the pointer has rested is not lost.
pub proof fn resting_time_is_kept(
    tracker: Option<DwellTracker>,
    target: Option<(NodeId, u64)>,
    now: u64,
    later: u64,
)
    ensures
        redwelled(redwelled(tracker, target, now), target, later) == redwelled(
            tracker,
            target,
            now,
        ),
{
}

/// The deadline at which hover is found anew, after the scene changed: one
/// that is set stays, so that steady change cannot put it off.
pub fn arm_hover_recheck(next: Option<u64>, pointer_inside: bool, now: u64) -> (r: Option<u64>)
    requires
        now + HOVER_RECHECK <= u64::MAX,
    ensures
        r == (if pointer_inside && next is None {
            Some((now + HOVER_RECHECK) as u64)
        } else {
            next
        }),
{
    if pointer_inside && next.is_none() {
        Some(now + HOVER_RECHECK)
    } else {
        next
    }
}

/// What becomes of the deadline, and whether hover is found anew now. While
/// a press or a drag owns the pointer the deadline is put off.
pub fn hover_recheck_due(next: Option<u64>, pointer_owned: bool, now: u64) -> (r: (
    Option<u64>,
    bool,
))
    requires
        now + HOVER_RECHECK <= u64::MAX,
    ensures
        r == (match next {
            None => (None::<u64>, false),
            Some(deadline) => if now < deadline {
                (next, false)
            } else if pointer_owned {
                (Some((now + HOVER_RECHECK) as u64), false)
            } else {
                (None, true)
            },
        }),
{
    match next {
        None => (None, false),
        Some(deadline) => {
            if now < deadline {
                (next, false)
            } else if pointer_owned {
                (Some(now + HOVER_RECHECK), false)
            } else {
                (None, true)
            }
        },
    }
}

/// The hint that is shown.
#[derive(Debug, Clone, Copy, PartialEq, Eq, Structural)]
pub struct Hint {
    pub node: Option<NodeId>,
    /// Whether it fades in or stays; otherwise it fades out.
    pub visible: bool,
}

/// The text of a node's hint: the one that changes with the scene, else the
/// fixed one.
pub open spec fn hint_text_of<N>(n: Node<N>) -> Option<Seq<char>> {
    match n.hover_hint_text {
        Some(s) => Some(s@),
        None => match n.hover_hint {
            Some(s) => Some(s@),
            None => None,
        },
    }
}

pub fn hint_text<N: Num>(n: &Node<N>) -> (r: Option<String>)
    ensures
        match r {
            Some(s) => hint_text_of(*n) == Some(s@),
            None => hint_text_of(*n) is None,
        },
{
    match &n.hover_hint_text {
        Some(s) => Some(s.clone()),
        None => match &n.hover_hint {
            Some(s) => Some(s.clone()),
            None => None,
        },
    }
}

/// A hint that is to fade out because the pointer left its node.
pub open spec fn fades_out(h: Hint, hovered: Option<NodeId>) -> bool {
    h.node is Some && hovered != h.node && h.visible
}

impl Hint {
    pub fn none() -> (r: Hint)
        ensures
            r == (Hint { node: None, visible: false }),
    {
        Hint { node: None, visible: false }
    }

    pub fn show(&mut self, node: NodeId)
        ensures
            *final(self) == (Hint { node: Some(node), visible: true }),
    {
        self.node = Some(node);
        self.visible = true;
    }

    /// The pointer left: starts to fade out, unless there is nothing to fade.
    pub fn fade_out(&mut self) -> (r: bool)
        ensures
            r == (old(self).node is Some && old(self).visible),
            *final(self) == (if r {
                Hint { visible: false, ..*old(self) }
            } else {
                *old(self)
            }),
    {
        if self.node.is_none() || !self.visible {
            return false;
        }
        self.visible = false;
        true
    }

    /// Hides the hint if the hovered node is another.
    pub fn follow(&mut self, hovered: Option<NodeId>) -> (r: bool)
        ensures
            r == fades_out(*old(self), hovered),
            *final(self) == (if r {
                Hint { visible: false, ..*old(self) }
            } else {
                *old(self)
            }),
    {
        if self.node.is_some() && !same_node(hovered, self.node) {
            self.fade_out()
        } else {
            false
        }
    }

    /// Removes the hint at once. The result says whether there was one.
    pub fn clear(&mut self) -> (r: bool)
        ensures
            r == (old(self).node is Some),
            *final(self) == (Hint { node: None, visible: false }),
    {
        let was: bool = self.node.is_some();
        self.node = None;
        self.visible = false;
        was
    }

    /// The text to paint. There is none to paint if the node is gone or its
    /// text is empty, and the hint is then to be removed.
    pub fn painted<N: Num>(&self, tree: &NodeTree<N>) -> (r: Option<String>)
        ensures
            ({
                let shown = match self.node {
                    Some(id) => if live(tree.nodes(), id) {
                        hint_text_of(node_at(tree.nodes(), id))
                    } else {
                        None
                    },
                    None => None,
                };
                match r {
                    Some(s) => shown == Some(s@) && s@.len() > 0,
                    None => shown is None || shown->0.len() == 0,
                }
            }),
    {
        let id: NodeId = match self.node {
            Some(id) => id,
            None => return None,
        };
        let text: Option<String> = match tree.get(id) {
            Some(n) => hint_text(n),
            None => None,
        };
        match text {
            Some(s) => {
                if s.as_str().is_empty() {
                    None
                } else {
                    Some(s)
                }
            },
            None => None,
        }
    }
}

/// What the hint needs in a frame.
#[derive(Debug, Clone, Copy, PartialEq, Eq, Structural)]
pub struct HintStep {
    pub repaint: bool,
    pub clear: bool,
}

/// The hint's opacity is on its way.
pub open spec fn hint_animating<N: Num>(visible: bool, fade: N) -> bool {
    if visible {
        fade.below(N::fraction(999, 1000))
    } else {
        N::fraction(1, 1000).below(fade)
    }
}

/// Paints a shown hint while its opacity is on its way or the pointer moved,
/// and removes one that has faded out.
pub fn step_hint<N: Num>(hint: Hint, fade: N, pointer_moved: bool) -> (r: HintStep)
    ensures
        r.repaint == (hint.node is Some && (pointer_moved || hint_animating(hint.visible, fade))),
        r.clear == (hint.node is Some && !hint.visible && fade.at_most(N::fraction(1, 100))),
{
    if hint.node.is_none() {
        return HintStep { repaint: false, clear: false };
    }
    let animating: bool = if hint.visible {
        fade.lt(N::of_ratio(999, 1000))
    } else {
        N::of_ratio(1, 1000).lt(fade)
    };
    HintStep {
        repaint: pointer_moved || animating,
        clear: !hint.visible && fade.le(N::of_ratio(1, 100)),
    }
}

/// Whether the statistics overlay is refreshed: at most ten times a second,
/// and not while a hint owns the overlay.
pub fn hud_due(hint: Hint, last: Option<u64>, now: u64) -> (r: bool)
    ensures
        r == (hint.node is None && (last is None || now >= last->0 && now - last->0
            >= HUD_INTERVAL)),
{
    if hint.node.is_some() {
        return false;
    }
    match last {
        None => true,
        Some(t) => now >= t && now - t >= HUD_INTERVAL,
    }
}

/// What a pointer sets off that came over a node at `came`: nothing before it
/// has rested there for the time of the node, and then it does, if it is still
/// there. The time is that of the dwell handler, else 110 milliseconds for a
/// hint.
pub proof fn handlers_wait_for_the_pointer_to_rest<N: Num>(
    nodes: Seq<Option<Node<N>>>,
    id: NodeId,
    came: u64,
    hovered: Option<NodeId>,
    now: u64,
)
    requires
        live(nodes, id),
        ({
            let n = node_at(nodes, id);
            let wait = if n.handlers.dwell is Some {
                n.handlers.dwell->0
            } else {
                110_000_000
            };
            came + wait <= u64::MAX
        }),
    ensures
        ({
            let n = node_at(nodes, id);
            let hint = n.hover_hint is Some || n.hover_hint_text is Some;
            let wait = if n.handlers.dwell is Some {
                n.handlers.dwell->0
            } else {
                110_000_000
            };
            let t = redwelled(None, dwell_target(nodes, Some(id)), came);
            let fire = dwell_fire(t, nodes, hovered, now);
            &&& fire is Some <==> (n.handlers.dwell is Some || hint) && came + wait <= now
                && hovered == Some(id)
            &&& fire matches Some(f) ==> f.node == id && f.hint == hint && f.handler
                == n.handlers.dwell is Some
        }),
{
}

/// A pointer that goes on to another node starts to rest anew; one that goes to
/// a node without handler or hint sets off nothing.
pub proof fn resting_starts_anew_on_another_node<N: Num>(
    tracker: Option<DwellTracker>,
    nodes: Seq<Option<Node<N>>>,
    hovered: Option<NodeId>,
    now: u64,
)
    requires
        tracker is Some,
        hovered != Some(tracker->0.node),
    ensures
        redwelled(tracker, dwell_target(nodes, hovered), now) == redwelled(
            None,
            dwell_target(nodes, hovered),
            now,
        ),
        hovered is None ==> redwelled(tracker, dwell_target(nodes, hovered), now) is None,
{
}

/// The text that changes with the scene comes before the fixed one; a node with
/// neither has no hint.
pub proof fn changing_hints_come_first<N>(n: Node<N>)
    ensures
        n.hover_hint_text is Some ==> hint_text_of(n) == Some(n.hover_hint_text->0@),
        n.hover_hint_text is None && n.hover_hint is Some ==> hint_text_of(n) == Some(
            n.hover_hint->0@,
        ),
        hint_text_of(n) is Some <==> n.hover_hint is Some || n.hover_hint_text is Some,
{
}

/// In exact numbers, a hint that fades in is on its way until it is all but
/// there, and one that fades out until it is all but gone: within a thousandth.
pub proof fn hints_fade_all_the_way<N: Num>(value: spec_fn(N) -> real, fade: N)
    requires
        crate::num::computes_exactly(value),
    ensures
        hint_animating(true, fade) <==> 1000real * (1real - value(fade)) > 1real,
        hint_animating(false, fade) <==> 1000real * value(fade) > 1real,
{
    let (a, b, f) = (
        value(N::fraction(999, 1000)),
        value(N::fraction(1, 1000)),
        value(fade),
    );
    assert(a * (1000i32 as real) == 999i32 as real);
    assert(b * (1000i32 as real) == 1i32 as real);
    assert((1000i32 as real) == 1000real && (999i32 as real) == 999real);
    assert(f < a <==> 1000real * (1real - f) > 1real) by (nonlinear_arith)
        requires
            a * 1000real == 999real,
    ;
    assert(b < f <==> 1000real * f > 1real) by (nonlinear_arith)
        requires
            b * 1000real == 1real,
    ;
}

} // verus!
