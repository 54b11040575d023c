//! The keyboard focus and the text field that has it.
use vstd::prelude::*;
use vstd::utf8::encode_utf8;

use crate::app::binds::{look_of, Look};
use crate::app::caret::{
    apply_edit, caret_index_at_x, caret_moved, edit_done, editor_at, move_caret, nearest_caret,
    off_by, opacity_marked, opacity_set, rect_at, CaretBlink,
};
use crate::app::focus::{
    blur, focus_cell, focus_next, in_store, is_tab_ring, refocused, ring_next, set_focus, switched,
};
use crate::app::shell::{cells_still_fit, same_interact, Shell};
use crate::editor::{field_of, field_wf, EditOp, EditOutcome};
use crate::input::{same_node, InputState};
use crate::layout::Measurer;
use crate::node::dirty;
use crate::node::tree::{live, node_at, with_node, Node};
use crate::node::NodeId;
use crate::num::{one, Num};

verus! {

/// A tree after the caret of a field was shown afresh.
pub open spec fn caret_freshened<N: Num>(l: Look<N>, field: NodeId) -> Look<N> {
    match editor_at(l.nodes, field) {
        Some(ed) => Look {
            nodes: opacity_set(l.nodes, ed.caret_node, one()),
            dirty: opacity_marked(l.nodes, ed.caret_node, one(), l.dirty),
        },
        None => l,
    }
}

/// A tree after the focus moved: the caret of a field that got it is fresh,
/// and carets are put in their places anew.
pub open spec fn focus_shown<N: Num>(l: Look<N>, target: Option<NodeId>) -> Look<N> {
    let fresh = match target {
        Some(id) => caret_freshened(l, id),
        None => l,
    };
    Look { nodes: fresh.nodes, dirty: fresh.dirty | dirty::TRANSFORM }
}

/// The focus went to `target`.
pub open spec fn focus_moved<N: Num>(
    before: Shell<N>,
    after: Shell<N>,
    target: Option<NodeId>,
    now: u64,
) -> bool {
    if before.input.focused == target {
        after == before
    } else {
        &&& after.signals@ == refocused(
            before.tree.nodes(),
            before.signals@,
            before.input.focused,
            target,
        )
        &&& look_of(after.tree) == focus_shown(look_of(before.tree), target)
        &&& after.tree.root_ids() == before.tree.root_ids()
        &&& after.blink == (if target is Some {
            CaretBlink { anchor: now, on: true }
        } else {
            before.blink
        })
        &&& after == (Shell {
            tree: after.tree,
            signals: after.signals,
            blink: after.blink,
            input: InputState { focused: target, ..before.input },
            ..before
        })
    }
}

/// Where the pointer at `x` puts the caret of a field.
pub open spec fn caret_at<N: Num, M: Measurer<N>>(s: Shell<N>, m: &M, field: NodeId, x: N) -> int {
    let ed = editor_at(s.tree.nodes(), field)->0;
    nearest_caret(
        m,
        ed.value@,
        ed.font_size,
        s.scale,
        rect_at(s.tree.nodes(), ed.text_node)[0],
        x,
        encode_utf8(ed.value@).len() + 1,
    ).0
}

/// What an edit did besides handing out text.
pub open spec fn did_something(e: EditOutcome) -> bool {
    e.value_changed || e.cursor_moved || e.submitted || e.selection_changed
}

impl<N: Num> Shell<N> {
    /// Moves the focus. The result says whether it was elsewhere before.
    pub fn focus(&mut self, target: Option<NodeId>, now: u64) -> (r: bool)
        requires
            old(self).wf(),
            in_store(
                focus_cell(old(self).tree.nodes(), old(self).input.focused),
                old(self).signals@.len(),
            ),
            in_store(focus_cell(old(self).tree.nodes(), target), old(self).signals@.len()),
        ensures
            final(self).wf(),
            r == (old(self).input.focused != target),
            focus_moved(*old(self), *final(self), target, now),
    {
        let ghost before = *self;
        if same_node(self.input.focused, target) {
            return false;
        }
        set_focus(&mut self.input.focused, target, &self.tree, &mut self.signals);
        if let Some(id) = target {
            self.blink.reset(id, &mut self.tree, now);
        }
        self.tree.mark(dirty::TRANSFORM);
        proof {
            assert(same_interact(before.tree.nodes(), self.tree.nodes()));
            cells_still_fit(
                self.hits@,
                before.tree.nodes(),
                self.tree.nodes(),
                self.signals@.len(),
            );
        }
        true
    }

    /// Moves the focus along the Tab order. The result says whether it was
    /// elsewhere before.
    pub fn tab(&mut self, viewport: [N; 2], forward: bool, now: u64) -> (r: bool)
        requires
            old(self).wf(),
            forall|id: NodeId|
                in_store(
                    #[trigger] focus_cell(old(self).tree.nodes(), Some(id)),
                    old(self).signals@.len(),
                ),
        ensures
            final(self).wf(),
            exists|ring: Seq<NodeId>|
                {
                    let next = ring_next(ring, old(self).input.focused, forward);
                    &&& #[trigger] is_tab_ring(old(self).tree.nodes(), viewport, ring)
                    &&& next is None ==> !r && *final(self) == *old(self)
                    &&& next is Some ==> focus_moved(*old(self), *final(self), next, now) && r == (
                    old(self).input.focused != next)
                },
    {
        let next: Option<NodeId> = focus_next(&self.tree, viewport, self.input.focused, forward);
        if next.is_none() {
            return false;
        }
        proof {
            if let Some(f) = self.input.focused {
                assert(in_store(focus_cell(self.tree.nodes(), Some(f)), self.signals@.len()));
            }
            if let Some(f) = next {
                assert(in_store(focus_cell(self.tree.nodes(), Some(f)), self.signals@.len()));
            }
        }
        self.focus(next, now)
    }

    /// Takes the focus from a text field.
    pub fn blur_field(&mut self, field: NodeId)
        requires
            old(self).wf(),
            in_store(focus_cell(old(self).tree.nodes(), Some(field)), old(self).signals@.len()),
        ensures
            final(self).wf(),
            final(self).tree.nodes() == old(self).tree.nodes(),
            final(self).tree.root_ids() == old(self).tree.root_ids(),
            final(self).tree.dirty_mask() == old(self).tree.dirty_mask() | dirty::TRANSFORM,
            final(self).signals@ == switched(
                old(self).signals@,
                focus_cell(old(self).tree.nodes(), Some(field)),
                false,
            ),
            *final(self) == (Shell {
                tree: final(self).tree,
                signals: final(self).signals,
                input: InputState {
                    focused: if old(self).input.focused == Some(field) {
                        None
                    } else {
                        old(self).input.focused
                    },
                    ..old(self).input
                },
                ..*old(self)
            }),
    {
        blur(&mut self.input.focused, field, &self.tree, &mut self.signals);
        self.tree.mark(dirty::TRANSFORM);
    }

    /// Puts the caret of a text field at the boundary nearest to `x`: a press
    /// starts a selection there, a drag extends the one there is. The result
    /// says whether anything changed.
    pub fn place_caret<M: Measurer<N>>(
        &mut self,
        m: &M,
        field: NodeId,
        x: N,
        press: bool,
        now: u64,
    ) -> (r: bool)
        requires
            old(self).wf(),
        ensures
            final(self).wf(),
            r == (match editor_at(old(self).tree.nodes(), field) {
                Some(ed) => press || ed.cursor != caret_at(*old(self), m, field, x),
                None => false,
            }),
            !r ==> final(self).tree.looks_like(old(self).tree) && *final(self) == (Shell {
                tree: final(self).tree,
                ..*old(self)
            }),
            r ==> {
                let nodes = old(self).tree.nodes();
                let ed = editor_at(nodes, field)->0;
                let moved = with_node(
                    nodes,
                    field,
                    Node {
                        editor: Some(
                            caret_moved(ed, caret_at(*old(self), m, field, x) as usize, press),
                        ),
                        ..node_at(nodes, field)
                    },
                );
                let mask = old(self).tree.dirty_mask() | dirty::TRANSFORM;
                &&& look_of(final(self).tree) == caret_freshened(
                    Look { nodes: moved, dirty: mask },
                    field,
                )
                &&& final(self).tree.root_ids() == old(self).tree.root_ids()
                &&& *final(self) == (Shell {
                    tree: final(self).tree,
                    blink: CaretBlink { anchor: now, on: true },
                    ..*old(self)
                })
            },
    {
        let ghost before = *self;
        let index: usize = match self.tree.get(field) {
            Some(n) => match &n.editor {
                Some(ed) => {
                    let origin: N = match self.tree.get(ed.text_node) {
                        Some(t) => t.rect[0],
                        None => N::of_ratio(0, 1),
                    };
                    caret_index_at_x(m, ed.value.as_str(), ed.font_size, self.scale, origin, x)
                },
                None => return false,
            },
            None => return false,
        };
        let moved: bool = move_caret(&mut self.tree, field, index, press);
        let ghost mid = self.tree.nodes();
        if moved {
            self.blink.reset(field, &mut self.tree, now);
        }
        proof {
            assert(same_interact(before.tree.nodes(), mid));
            assert(same_interact(mid, self.tree.nodes()));
            assert forall|id: NodeId| #[trigger] live(self.tree.nodes(), id) implies live(
                before.tree.nodes(),
                id,
            ) && node_at(self.tree.nodes(), id).interact == node_at(
                before.tree.nodes(),
                id,
            ).interact by {
                assert(live(mid, id));
            }
            cells_still_fit(
                self.hits@,
                before.tree.nodes(),
                self.tree.nodes(),
                self.signals@.len(),
            );
        }
        moved
    }

    /// Edits a text field. The caret is shown afresh if the edit did anything
    /// but hand out text. `None` where the node has no editor.
    pub fn edit(&mut self, field: NodeId, op: EditOp, now: u64) -> (r: Option<EditOutcome>)
        requires
            old(self).wf(),
            editor_at(old(self).tree.nodes(), field) matches Some(ed) ==> field_wf(field_of(ed)),
        ensures
            final(self).wf(),
            final(self).tree.root_ids() == old(self).tree.root_ids(),
            exists|mid: Look<N>|
                {
                    let fresh = r is Some && did_something(r->0);
                    &&& #[trigger] edit_done(look_of(old(self).tree), mid, field, op, r)
                    &&& look_of(final(self).tree) == (if fresh {
                        caret_freshened(mid, field)
                    } else {
                        mid
                    })
                    &&& *final(self) == (Shell {
                        tree: final(self).tree,
                        blink: if fresh {
                            CaretBlink { anchor: now, on: true }
                        } else {
                            old(self).blink
                        },
                        ..*old(self)
                    })
                },
    {
        let ghost before = *self;
        let out: Option<EditOutcome> = apply_edit(&mut self.tree, field, op);
        let ghost mid = look_of(self.tree);
        let fresh: bool = match &out {
            Some(e) => e.value_changed || e.cursor_moved || e.submitted || e.selection_changed,
            None => false,
        };
        if fresh {
            self.blink.reset(field, &mut self.tree, now);
        }
        proof {
            assert(edit_done(look_of(before.tree), mid, field, op, out));
            assert(same_interact(before.tree.nodes(), mid.nodes));
            assert forall|id: NodeId| #[trigger] live(self.tree.nodes(), id) implies live(
                before.tree.nodes(),
                id,
            ) && node_at(self.tree.nodes(), id).interact == node_at(
                before.tree.nodes(),
                id,
            ).interact by {
                assert(live(mid.nodes, id));
            }
            cells_still_fit(
                self.hits@,
                before.tree.nodes(),
                self.tree.nodes(),
                self.signals@.len(),
            );
        }
        out
    }
}

/// A press on a text field starts an empty selection, and a drag from there
/// that comes back to where it started selects nothing.
pub proof fn drag_back_selects_nothing<N: Num>(
    ed: crate::editor::EditorState<N>,
    at: usize,
    away: usize,
)
    ensures
        ({
            let pressed = caret_moved(ed, at, true);
            let dragged = caret_moved(pressed, away, false);
            let back = caret_moved(dragged, at, false);
            &&& crate::editor::span(field_of(pressed)) is None
            &&& crate::editor::span(field_of(back)) is None
            &&& back == pressed
        }),
{
}

/// Where the focus goes it is, the caret of a field that gets it starts to
/// blink anew, and the pointer stays as it was.
pub proof fn focus_is_where_it_went<N: Num>(
    before: Shell<N>,
    after: Shell<N>,
    target: Option<NodeId>,
    now: u64,
)
    requires
        focus_moved(before, after, target, now),
    ensures
        after.input.focused == target,
        after.input.cursor == before.input.cursor,
        after.input.hovered == before.input.hovered,
        after.input.captured == before.input.captured,
        before.input.focused != target && target is Some ==> after.blink.anchor == now
            && after.blink.on,
        before.input.focused == target ==> after == before,
{
}

/// An edit did something if it changed the text, the caret or the selection, or
/// submitted; one that only hands out text did not.
pub proof fn edits_that_show_are_noticed(e: EditOutcome)
    ensures
        did_something(e) <==> !(!e.value_changed && !e.cursor_moved && !e.submitted
            && !e.selection_changed),
{
}

/// In exact numbers, a press in a field puts the caret at the boundary whose
/// caret is nearest to it, of all boundaries of the text.
pub proof fn pressed_fields_have_the_nearest_caret<N: Num, M: Measurer<N>>(
    value: spec_fn(N) -> real,
    s: Shell<N>,
    m: &M,
    field: NodeId,
    x: N,
    i: int,
)
    requires
        crate::num::computes_exactly(value),
        editor_at(s.tree.nodes(), field) is Some,
        ({
            let ed = editor_at(s.tree.nodes(), field)->0;
            let text = encode_utf8(ed.value@);
            &&& 0 <= i <= text.len()
            &&& vstd::utf8::is_char_boundary(text, i)
            &&& forall|j: int|
                0 <= j <= text.len() ==> #[trigger] off_by(
                    value,
                    m,
                    ed.value@,
                    j,
                    ed.font_size,
                    s.scale,
                    rect_at(s.tree.nodes(), ed.text_node)[0],
                    x,
                ) < value(N::greatest())
        }),
    ensures
        ({
            let ed = editor_at(s.tree.nodes(), field)->0;
            let text = encode_utf8(ed.value@);
            let left = rect_at(s.tree.nodes(), ed.text_node)[0];
            let r = caret_at(s, m, field, x);
            &&& 0 <= r <= text.len()
            &&& vstd::utf8::is_char_boundary(text, r)
            &&& off_by(value, m, ed.value@, r, ed.font_size, s.scale, left, x) <= off_by(
                value,
                m,
                ed.value@,
                i,
                ed.font_size,
                s.scale,
                left,
                x,
            )
        }),
{
    let ed = editor_at(s.tree.nodes(), field)->0;
    crate::app::caret::carets_go_to_the_nearest_boundary(
        value,
        m,
        ed.value@,
        ed.font_size,
        s.scale,
        rect_at(s.tree.nodes(), ed.text_node)[0],
        x,
        encode_utf8(ed.value@).len() + 1,
    );
}

} // verus!
