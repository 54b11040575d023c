//! Building the scene anew.
//!
//! [`Shell::begin_rebuild`] saves what is to survive and removes the old
//! scene. Then the application builds the new one, and after it was laid out
//! [`Shell::restore_scroll_positions`] and [`Shell::restore_pointer`] put
//! things back.
use vstd::prelude::*;

use crate::anim::without_key;
use crate::app::drag::{no_drag, DRAG_RETURN_TWEEN_KEY};
use crate::app::hover::Hint;
use crate::app::rebuild::{
    any_there, clear_tree, externals_saved, match_scrolls, restore_scrolls, saved_as,
    scrolls_matched, scrolls_restored, scrolls_saved, snapshot_externals, snapshot_scrolls, Named,
    SavedNode, SavedScroll,
};
use crate::app::shell::{cells_fit, cells_still_fit, pointed, same_interact, Shell, HINT_TWEEN_KEY};
use crate::input::{entry_cell, Aspect, InputChange, InputState};
use crate::node::dirty;
use crate::node::scroll::scrollable_ids;
use crate::node::tree::{live, live_ids, node_at, Node};
use crate::node::NodeId;
use crate::num::{zero, Num};
use crate::signal::{store_written, Value};

verus! {

/// What survives.
#[derive(Debug)]
pub struct Rebuild<N> {
    pub scrolls: Vec<SavedScroll<N>>,
    pub externals: Vec<SavedNode>,
    /// The ids that are gone.
    pub removed: Vec<NodeId>,
    pub cursor: Option<[N; 2]>,
}

/// The nodes that showed an outside texture were saved.
pub open spec fn externals_kept<N: Num>(s: Shell<N>, names: Seq<Named>, saved: Seq<SavedNode>) -> bool {
    let ids = live_ids(s.tree.nodes(), s.tree.nodes().len());
    let keys = externals_saved(s.tree.nodes(), s.tree.root_ids(), names, ids, ids.len());
    &&& saved.len() == keys.len()
    &&& forall|i: int|
        0 <= i < saved.len() ==> (#[trigger] saved[i]).key@ == keys[i].key && saved[i].node
            == keys[i].node
}

/// The scrollers that were not at their start were saved.
pub open spec fn scrolls_kept<N: Num>(
    s: Shell<N>,
    names: Seq<Named>,
    saved: Seq<SavedScroll<N>>,
) -> bool {
    let ids = scrollable_ids(s.tree.nodes(), s.tree.nodes().len());
    saved_as(saved, scrolls_saved(s.tree.nodes(), s.tree.root_ids(), names, ids, ids.len()))
}

/// The shell after its scene was removed: what survives is in `r`, and nothing
/// refers to a node that is gone.
pub open spec fn scene_left<N: Num>(
    before: Shell<N>,
    after: Shell<N>,
    names: Seq<Named>,
    r: Rebuild<N>,
) -> bool {
    &&& scrolls_kept(before, names, r.scrolls@)
    &&& externals_kept(before, names, r.externals@)
    &&& forall|id: NodeId| #[trigger] r.removed@.contains(id) <==> live(before.tree.nodes(), id)
    &&& r.cursor == before.input.cursor
    &&& forall|id: NodeId| !#[trigger] live(after.tree.nodes(), id)
    &&& after.tree.root_ids().len() == 0
    &&& after.tree.dirty_mask() == dirty::marked_if(
        dirty::marked_if(before.tree.dirty_mask(), r.removed@.len() > 0, dirty::TREE),
        before.drag.follow is Some,
        dirty::VISUAL,
    )
    &&& after == (Shell {
        tree: after.tree,
        input: InputState { cursor: None, hovered: None, captured: None, focused: None },
        right_captured: None,
        dwell: None,
        hint: Hint { node: None, visible: false },
        drag: no_drag(),
        timeline: after.timeline,
        signals: after.signals,
        ..before
    })
    &&& after.timeline@ == without_key(
        without_key(before.timeline@, HINT_TWEEN_KEY),
        DRAG_RETURN_TWEEN_KEY,
    )
    &&& after.signals@ == store_written(
        before.signals@,
        before.hint_fade.index as int,
        Value::Scalar(zero()),
    )
}

impl<N: Num> Shell<N> {
    /// Saves what survives, removes all nodes and forgets everything that
    /// refers to them. Without a builder there would be nothing in their
    /// place, and nothing happens.
    pub fn begin_rebuild(&mut self, builder: bool, names: &Vec<Named>) -> (r: Option<Rebuild<N>>)
        requires
            old(self).wf(),
        ensures
            final(self).wf(),
            match r {
                Some(saved) => builder && scene_left(*old(self), *final(self), names@, saved),
                None => !builder && *final(self) == *old(self),
            },
    {
        if !builder {
            return None;
        }
        let scrolls = snapshot_scrolls(&self.tree, names);
        let externals = snapshot_externals(&self.tree, names);
        let cursor: Option<[N; 2]> = self.input.cursor;
        let removed = clear_tree(&mut self.tree);
        proof {
            reveal(cells_fit);
            assert forall|k: int, aspect: Aspect| 0 <= k < self.hits@.len() implies (
            #[trigger] entry_cell(self.hits@, self.tree.nodes(), aspect, k) matches Some(id)
                ==> id.index < self.signals@.len()) by {
                assert(!live(self.tree.nodes(), self.hits@[k].node_id));
            }
        }
        self.input = InputState::new();
        self.right_captured = None;
        self.dwell = None;
        self.clear_hint();
        self.drag.clear(&mut self.tree, &mut self.timeline);
        Some(Rebuild { scrolls, externals, removed, cursor })
    }

    /// Puts the scrollers of the new scene where they were. The result says
    /// whether there are any.
    pub fn restore_scroll_positions(
        &mut self,
        names: &Vec<Named>,
        saved: &Vec<SavedScroll<N>>,
    ) -> (r: bool)
        requires
            old(self).wf(),
        ensures
            final(self).wf(),
            *final(self) == (Shell { tree: final(self).tree, ..*old(self) }),
            final(self).tree.root_ids() == old(self).tree.root_ids(),
            ({
                let nodes = old(self).tree.nodes();
                let ids = scrollable_ids(nodes, nodes.len());
                let found = scrolls_matched(
                    nodes,
                    old(self).tree.root_ids(),
                    names@,
                    saved@,
                    ids,
                    ids.len(),
                );
                &&& final(self).tree.nodes() == scrolls_restored(nodes, found, found.len())
                &&& r == (found.len() > 0)
                &&& final(self).tree.dirty_mask() == dirty::marked_if(
                    old(self).tree.dirty_mask(),
                    any_there(nodes, found, found.len()),
                    dirty::SCROLL,
                )
            }),
    {
        let ghost before = self.tree.nodes();
        let found = match_scrolls(&self.tree, names, saved);
        let r: bool = restore_scrolls(&mut self.tree, &found);
        proof {
            restoring_keeps_interact(before, found@, found@.len());
            cells_still_fit(
                self.hits@,
                before,
                self.tree.nodes(),
                self.signals@.len(),
            );
        }
        r
    }

    /// Finds hover anew for a pointer that has not moved. The result says
    /// what changed.
    pub fn restore_pointer(&mut self, cursor: Option<[N; 2]>) -> (r: InputChange)
        requires
            old(self).wf(),
        ensures
            final(self).wf(),
            cursor is None ==> *final(self) == *old(self) && !r.hovered_changed
                && !r.pressed_changed && !r.focused_changed,
            cursor matches Some(c) ==> pointed(*old(self), *final(self), c[0], c[1], r),
    {
        match cursor {
            Some(c) => {
                let (change, _bars): (InputChange, bool) = self.point_at(c[0], c[1]);
                change
            },
            None => InputChange::default(),
        }
    }
}

proof fn restoring_keeps_interact<N: Num>(
    nodes: Seq<Option<Node<N>>>,
    restores: Seq<crate::app::rebuild::Restore<N>>,
    n: nat,
)
    requires
        n <= restores.len(),
    ensures
        same_interact(nodes, scrolls_restored(nodes, restores, n)),
    decreases n,
{
    if n > 0 {
        restoring_keeps_interact(nodes, restores, (n - 1) as nat);
        let before = scrolls_restored(nodes, restores, (n - 1) as nat);
        let after = scrolls_restored(nodes, restores, n);
        assert forall|id: NodeId| #[trigger] live(after, id) implies live(nodes, id) && node_at(
            after,
            id,
        ).interact == node_at(nodes, id).interact by {
            assert(live(before, id));
        }
    }
}

/// After a scene was left, nothing refers to a node: none is hovered, pressed,
/// focused, dragged or hinted at, and no tween for them runs. The pointer's
/// place is saved.
pub proof fn left_scenes_hold_nothing<N: Num>(
    before: Shell<N>,
    after: Shell<N>,
    names: Seq<Named>,
    r: Rebuild<N>,
)
    requires
        scene_left(before, after, names, r),
    ensures
        after.input.hovered is None,
        after.input.captured is None,
        after.input.focused is None,
        after.right_captured is None,
        after.dwell is None,
        after.hint.node is None,
        after.drag.node is None,
        after.drag.follow is None,
        after.drag.returning is None,
        after.drag.payload is None,
        r.cursor == before.input.cursor,
        forall|id: NodeId| !#[trigger] live(after.tree.nodes(), id),
        forall|id: NodeId|
            live(before.tree.nodes(), id) ==> #[trigger] r.removed@.contains(id),
        forall|i: int|
            0 <= i < after.timeline@.len() ==> (#[trigger] after.timeline@[i]).key
                != DRAG_RETURN_TWEEN_KEY && after.timeline@[i].key != HINT_TWEEN_KEY,
{
    let mid = without_key(before.timeline@, HINT_TWEEN_KEY);
    crate::anim::dropped_keys_are_gone(before.timeline@, HINT_TWEEN_KEY);
    crate::anim::dropped_keys_are_gone(mid, DRAG_RETURN_TWEEN_KEY);
    let keeps = |t: crate::anim::Tween<N>| t.key != DRAG_RETURN_TWEEN_KEY;
    assert forall|i: int| 0 <= i < after.timeline@.len() implies (
    #[trigger] after.timeline@[i]).key != DRAG_RETURN_TWEEN_KEY && after.timeline@[i].key
        != HINT_TWEEN_KEY by {
        let tw = after.timeline@[i];
        assert(without_key(mid, DRAG_RETURN_TWEEN_KEY).contains(tw));
        mid.lemma_filter_contains_rev(keeps, tw);
        let j = choose|j: int| 0 <= j < mid.len() && mid[j] == tw;
        assert(mid[j].key != HINT_TWEEN_KEY);
    }
}

} // verus!
