//! What the passing of time does to the pointer, the hint and the scrollers.
use vstd::prelude::*;

use crate::anim::{tween_restarted, without_key, Curve};
use crate::app::drag::{
    close_by, drop_offset, entry_rect, glided, glides, hover_move, lift_marked, released,
    DragState, DRAG_RETURN_TIME, DRAG_RETURN_TWEEN_KEY,
};
use crate::app::hover::{
    dwell_after, dwell_fire, hint_animating, step_hint, tick_dwell, DwellFire, Hint, HintStep,
};
use crate::app::layers::scalar_of;
use crate::app::shell::{
    bubbling_keeps_interact, cells_still_fit, hint_fading, same_interact, Shell, HINT_TWEEN_KEY,
};
use crate::app::turn::{hold_span, tick_span};
use crate::event::HoverCtx;
use crate::input::{
    bubbled, held_delta, key_chain, key_request, key_scrolled, negligible, on_scroll_key,
    pump_held_scroll, scrolled_by, unscrolled, KeyCode, ScrollRequest,
};
use crate::node::tree::{live, node_at};
use crate::num::{zero, Num};
use crate::signal::{store_written, Cell, SignalId, Signals, Value};

verus! {

/// The pair in a cell; the origin for a cell of another shape.
pub open spec fn pair_of<N: Num>(c: Cell<N>) -> [N; 2] {
    match c.value {
        Value::Pair(p) => p,
        _ => [zero(), zero()],
    }
}

fn pair<N: Num>(signals: &Signals<N>, cell: SignalId) -> (r: [N; 2])
    requires
        cell.index < signals@.len(),
    ensures
        r == pair_of(signals@[cell.index as int]),
{
    match signals.get(cell) {
        Value::Pair(p) => p,
        _ => [N::of_ratio(0, 1), N::of_ratio(0, 1)],
    }
}

/// What a hover handler is told of the place where the pointer was last.
pub open spec fn hover_told<N: Num>(s: Shell<N>) -> Option<HoverCtx<N>> {
    if s.pending_hover is Some && s.input.captured is None && s.input.hovered is Some && live(
        s.tree.nodes(),
        s.input.hovered->0,
    ) && node_at(s.tree.nodes(), s.input.hovered->0).handlers.hover_move {
        let c = s.pending_hover->0;
        Some(
            HoverCtx {
                node: s.input.hovered->0,
                pos: [c[0], c[1]],
                rect: entry_rect(s.hits@, s.input.hovered->0, 0),
                scale: s.scale,
            },
        )
    } else {
        None
    }
}

/// The hint's opacity.
pub open spec fn fade_of<N: Num>(s: Shell<N>) -> N {
    scalar_of(s.signals@[s.hint_fade.index as int])
}

impl<N: Num> Shell<N> {
    /// Sets off what a rested pointer sets off: a hint starts to fade in. The
    /// result says whether a handler is to run.
    pub fn tick_dwell(&mut self, now: u64) -> (r: Option<DwellFire>)
        requires
            old(self).wf(),
        ensures
            final(self).wf(),
            r == dwell_fire(
                old(self).dwell,
                old(self).tree.nodes(),
                old(self).input.hovered,
                now,
            ),
            *final(self) == (Shell {
                dwell: dwell_after(
                    old(self).dwell,
                    old(self).tree.nodes(),
                    old(self).input.hovered,
                    now,
                ),
                hint: if r is Some && r->0.hint {
                    Hint { node: Some(r->0.node), visible: true }
                } else {
                    old(self).hint
                },
                timeline: final(self).timeline,
                ..*old(self)
            }),
            final(self).timeline@ == (if r is Some && r->0.hint {
                hint_fading(*old(self), N::fraction(1, 1), now)
            } else {
                old(self).timeline@
            }),
            final(self).timeline.interval() == old(self).timeline.interval(),
    {
        let r: Option<DwellFire> = tick_dwell(
            &mut self.dwell,
            &self.tree,
            self.input.hovered,
            now,
        );
        if let Some(fire) = r {
            if fire.hint {
                self.show_hint(fire.node, now);
            }
        }
        r
    }

    /// Follows the pointer over a node that wants to be told of it.
    pub fn follow_hover_move(&mut self) -> (r: Option<HoverCtx<N>>)
        requires
            old(self).wf(),
        ensures
            final(self).wf(),
            r == hover_told(*old(self)),
            *final(self) == (Shell { pending_hover: None, ..*old(self) }),
    {
        let c: [N; 2] = match self.pending_hover {
            Some(c) => c,
            None => return None,
        };
        self.pending_hover = None;
        hover_move(
            &self.tree,
            &self.hits,
            self.input.captured,
            self.input.hovered,
            c[0],
            c[1],
            self.scale,
        )
    }

    /// Lets a drag go: a lifted node starts to glide back, or is put back at
    /// once.
    pub fn release_drag(&mut self, now: u64)
        requires
            old(self).wf(),
        ensures
            final(self).wf(),
            ({
                let s = *old(self);
                let cursor = s.input.cursor;
                let at = store_written(
                    s.signals@,
                    s.drag_offset.index as int,
                    Value::Pair(drop_offset(s.drag, cursor)->0.offset),
                );
                &&& lift_marked(s.tree, final(self).tree, drop_offset(s.drag, cursor) is Some)
                &&& *final(self) == (Shell {
                    tree: final(self).tree,
                    drag: released(s.drag, cursor),
                    timeline: final(self).timeline,
                    signals: final(self).signals,
                    ..s
                })
                &&& glides(s.drag, cursor) ==> {
                    &&& final(self).signals@ == at
                    &&& final(self).timeline@ == tween_restarted(
                        s.timeline@,
                        at,
                        DRAG_RETURN_TWEEN_KEY,
                        s.drag_offset,
                        Value::Pair([zero::<N>(), zero()]),
                        (Curve::EaseInOut, DRAG_RETURN_TIME),
                        now,
                    )
                }
                &&& !glides(s.drag, cursor) ==> final(self).signals@ == s.signals@
                    && final(self).timeline@ == s.timeline@
                &&& final(self).timeline.interval() == s.timeline.interval()
            }),
    {
        let cursor: Option<[N; 2]> = self.input.cursor;
        let cell: SignalId = self.drag_offset;
        self.drag.release(&mut self.tree, cursor, cell, &mut self.timeline, &mut self.signals, now);
    }

    /// A step of a node that glides back.
    pub fn tick_drag_return(&mut self)
        requires
            old(self).wf(),
        ensures
            final(self).wf(),
            ({
                let s = *old(self);
                let off = pair_of(s.signals@[s.drag_offset.index as int]);
                &&& lift_marked(s.tree, final(self).tree, s.drag.returning is Some)
                &&& *final(self) == (Shell {
                    tree: final(self).tree,
                    drag: glided(s.drag, off),
                    ..s
                })
            }),
    {
        let off: [N; 2] = pair(&self.signals, self.drag_offset);
        self.drag.tick_return(&mut self.tree, off);
    }

    /// What the hint needs in a frame. One that has faded out is removed; the
    /// movement of the pointer under it counts as seen once it is painted.
    pub fn tick_hint(&mut self) -> (r: HintStep)
        requires
            old(self).wf(),
        ensures
            final(self).wf(),
            ({
                let s = *old(self);
                &&& r.repaint == (s.hint.node is Some && (s.hint_moved || hint_animating(
                    s.hint.visible,
                    fade_of(s),
                )))
                &&& r.clear == (s.hint.node is Some && !s.hint.visible && fade_of(s).at_most(
                    N::fraction(1, 100),
                ))
                &&& *final(self) == (Shell {
                    hint: if r.clear {
                        Hint { node: None, visible: false }
                    } else {
                        s.hint
                    },
                    hint_moved: s.hint_moved && !r.repaint,
                    timeline: final(self).timeline,
                    signals: final(self).signals,
                    ..s
                })
                &&& final(self).timeline@ == (if r.clear {
                    without_key(s.timeline@, HINT_TWEEN_KEY)
                } else {
                    s.timeline@
                })
                &&& final(self).timeline.interval() == s.timeline.interval()
                &&& final(self).signals@ == (if r.clear {
                    store_written(s.signals@, s.hint_fade.index as int, Value::Scalar(zero()))
                } else {
                    s.signals@
                })
            }),
    {
        let fade: N = match self.signals.get(self.hint_fade) {
            Value::Scalar(v) => v,
            _ => N::of_ratio(0, 1),
        };
        let step: HintStep = step_hint(self.hint, fade, self.hint_moved);
        if step.repaint {
            self.hint_moved = false;
        }
        if step.clear {
            self.clear_hint();
        }
        step
    }

    /// A navigation key scrolls the container under the pointer, or the first
    /// that scrolls. The result says whether any moved.
    pub fn scroll_by_key(&mut self, code: KeyCode, viewport: [N; 2]) -> (r: bool)
        requires
            old(self).wf(),
        ensures
            final(self).wf(),
            *final(self) == (Shell { tree: final(self).tree, ..*old(self) }),
            final(self).tree.root_ids() == old(self).tree.root_ids(),
            scrolled_by(
                old(self).tree,
                final(self).tree,
                r,
                key_scrolled(
                    old(self).tree.nodes(),
                    key_chain(
                        old(self).input.cursor,
                        old(self).scroll_hits@,
                        old(self).tree.nodes(),
                    ),
                    key_request(code, viewport, old(self).scale),
                ),
            ),
    {
        let ghost before = self.tree.nodes();
        let moved: bool = on_scroll_key(
            code,
            self.input.cursor,
            viewport,
            self.scale,
            &self.scroll_hits,
            &mut self.tree,
        );
        proof {
            let chain = key_chain(self.input.cursor, self.scroll_hits@, before);
            if let Some(ScrollRequest::By(d)) = key_request(code, viewport, self.scale) {
                bubbling_keeps_interact(before, chain, d, true, false, false, 0);
            }
            assert(same_interact(before, self.tree.nodes()));
            cells_still_fit(self.hits@, before, self.tree.nodes(), self.signals@.len());
        }
        moved
    }

    /// Scrolls on while arrow keys are held. `last` is when the scrollers were
    /// moved last. The result says whether any moved.
    pub fn pump_held(&mut self, last: Option<u64>, now: u64) -> (r: bool)
        requires
            old(self).wf(),
        ensures
            final(self).wf(),
            *final(self) == (Shell { tree: final(self).tree, ..*old(self) }),
            final(self).tree.root_ids() == old(self).tree.root_ids(),
            ({
                let s = *old(self);
                let dt = tick_span(last, now, N::fraction(1, 60));
                let delta = held_delta(s.held, s.scale, dt);
                scrolled_by(
                    s.tree,
                    final(self).tree,
                    r,
                    if !s.held.some_held() || dt.at_most(zero()) || negligible(delta) {
                        unscrolled(s.tree.nodes())
                    } else {
                        bubbled(
                            s.tree.nodes(),
                            key_chain(s.input.cursor, s.scroll_hits@, s.tree.nodes()),
                            delta,
                            false,
                            false,
                            false,
                            0,
                        )
                    },
                )
            }),
    {
        let ghost before = self.tree.nodes();
        let dt: N = hold_span(last, now);
        let moved: bool = pump_held_scroll(
            self.held,
            self.input.cursor,
            &self.scroll_hits,
            &mut self.tree,
            self.scale,
            dt,
        );
        proof {
            let chain = key_chain(self.input.cursor, self.scroll_hits@, before);
            bubbling_keeps_interact(
                before,
                chain,
                held_delta(self.held, self.scale, dt),
                false,
                false,
                false,
                0,
            );
            assert(same_interact(before, self.tree.nodes()));
            cells_still_fit(self.hits@, before, self.tree.nodes(), self.signals@.len());
        }
        moved
    }
}

/// A node that was dropped away from its place comes home: once its glide is
/// over it is put down, and nothing glides any more.
pub proof fn dropped_nodes_come_home<N: Num>(d: DragState<N>, cursor: Option<[N; 2]>)
    requires
        glides(d, cursor),
        close_by([zero::<N>(), zero()]),
    ensures
        ({
            let r = released(d, cursor);
            let after = glided(r, [zero::<N>(), zero()]);
            &&& r.returning is Some
            &&& r.follow == drop_offset(d, cursor)
            &&& after.follow is None
            &&& after.returning is None
            &&& after.origin is None
            &&& after.payload is None
        }),
{
}

/// A hover handler is told where the pointer was last, and only if the pointer
/// moved, nothing holds a press, and the hovered node has such a handler.
pub proof fn hover_handlers_are_told_the_last_place<N: Num>(s: Shell<N>)
    ensures
        ({
            let told = hover_told(s);
            let hit = s.input.hovered;
            &&& told is Some <==> s.pending_hover is Some && s.input.captured is None && hit is Some
                && live(s.tree.nodes(), hit->0) && node_at(
                s.tree.nodes(),
                hit->0,
            ).handlers.hover_move
            &&& told matches Some(c) ==> Some(c.node) == hit && Some(c.pos) == s.pending_hover
                && c.scale == s.scale
        }),
{
    if let Some(c) = s.pending_hover {
        assert([c[0], c[1]] =~= c);
    }
}

} // verus!
