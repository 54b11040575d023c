//! Bringing the layout of the tree up to date.
use vstd::prelude::*;

use crate::app::binds::{look_of, Look};
use crate::app::caret::{
    carets_placed, editors_ok, fields_refreshed, focus_cells_exist, refresh_text_fields,
    reposition_carets,
};
use crate::app::layers::{flush_of, take_flush, FlushPlan};
use crate::app::lazy::{ensure_lazy_list_prefixes, list_freshened, list_ok, lists_ok};
use crate::layout::solve::{compute_layout, laid_out};
use crate::layout::Measurer;
use crate::node::tree::{Node, NodeTree};
use crate::num::Num;
use crate::signal::Signals;

verus! {

/// Every list of the tree has its tops up to date, and nothing else differs.
pub open spec fn freshened<N: Num>(
    before: Seq<Option<Node<N>>>,
    after: Seq<Option<Node<N>>>,
) -> bool {
    &&& after.len() == before.len()
    &&& forall|i: int|
        0 <= i < before.len() ==> list_freshened(before[i], #[trigger] after[i])
}

/// Nodes whose lists are the same.
pub open spec fn same_lists<N: Num>(
    before: Seq<Option<Node<N>>>,
    after: Seq<Option<Node<N>>>,
) -> bool {
    &&& after.len() == before.len()
    &&& forall|i: int|
        0 <= i < before.len() ==> (match (before[i], #[trigger] after[i]) {
            (Some(m), Some(n)) => m.lazy_list == n.lazy_list,
            (None, None) => true,
            _ => false,
        })
}

proof fn refreshing_keeps_lists<N: Num>(l: Look<N>, store: Seq<crate::signal::Cell<N>>, n: nat)
    requires
        n <= l.nodes.len(),
    ensures
        same_lists(l.nodes, fields_refreshed(l, store, n).nodes),
    decreases n,
{
    if n > 0 {
        refreshing_keeps_lists(l, store, (n - 1) as nat);
    }
}

/// The first part of a flush: text fields show what they should, what changed
/// is taken, lists get their tops, and the tree is laid out where that is
/// needed. `None` where nothing changed. Between this and [`finish_layout`]
/// the rows of lists are brought in step.
pub fn begin_flush<N: Num, M: Measurer<N>>(
    tree: &mut NodeTree<N>,
    signals: &Signals<N>,
    m: &M,
    viewport: [N; 2],
    scale: N,
) -> (r: Option<FlushPlan>)
    requires
        old(tree).wf(),
        focus_cells_exist(old(tree).nodes(), signals@.len()),
        lists_ok(old(tree).nodes()),
    ensures
        final(tree).wf(),
        final(tree).root_ids() == old(tree).root_ids(),
        final(tree).dirty_mask() == crate::node::dirty::NONE,
        exists|shown: NodeTree<N>, fresh: Seq<Option<Node<N>>>| #[trigger]
            flush_begun(*old(tree), shown, fresh, *final(tree), signals, m, viewport, scale, r),
{
    refresh_text_fields(tree, signals);
    let ghost shown = *tree;
    proof {
        refreshing_keeps_lists(look_of(*old(tree)), signals@, old(tree).nodes().len());
        assert forall|i: int| 0 <= i < tree.nodes().len() implies (
        #[trigger] tree.nodes()[i] matches Some(n) ==> list_ok(n)) by {
            if let Some(n) = tree.nodes()[i] {
                assert(old(tree).nodes()[i] is Some);
                assert(list_ok(old(tree).nodes()[i]->0));
            }
        }
    }
    let plan: FlushPlan = match take_flush(tree) {
        Some(p) => p,
        None => {
            assert(flush_begun(
                *old(tree),
                shown,
                shown.nodes(),
                *tree,
                signals,
                m,
                viewport,
                scale,
                None,
            ));
            return None;
        },
    };
    ensure_lazy_list_prefixes(tree);
    let ghost fresh = tree.nodes();
    if plan.layout {
        compute_layout(tree, viewport, m, scale);
    }
    assert(flush_begun(
        *old(tree),
        shown,
        fresh,
        *tree,
        signals,
        m,
        viewport,
        scale,
        Some(plan),
    ));
    Some(plan)
}

/// The steps of the first part of a flush: `shown` after the text fields,
/// `fresh` after the lists.
pub open spec fn flush_begun<N: Num, M: Measurer<N>>(
    before: NodeTree<N>,
    shown: NodeTree<N>,
    fresh: Seq<Option<Node<N>>>,
    after: NodeTree<N>,
    signals: &Signals<N>,
    m: &M,
    viewport: [N; 2],
    scale: N,
    r: Option<FlushPlan>,
) -> bool {
    &&& look_of(shown) == fields_refreshed(look_of(before), signals@, before.nodes().len())
    &&& r == flush_of(shown.dirty_mask())
    &&& match r {
        None => after.nodes() == shown.nodes(),
        Some(plan) => {
            &&& freshened(shown.nodes(), fresh)
            &&& if plan.layout {
                laid_out(fresh, after.nodes(), before.root_ids(), m, viewport, scale)
            } else {
                after.nodes() == fresh
            }
        },
    }
}

/// The last part of a flush before the tree is flattened: after a layout the
/// carets are put in their places.
pub fn finish_layout<N: Num, M: Measurer<N>>(
    tree: &mut NodeTree<N>,
    signals: &Signals<N>,
    m: &M,
    scale: N,
    plan: FlushPlan,
)
    requires
        old(tree).wf(),
        focus_cells_exist(old(tree).nodes(), signals@.len()),
        editors_ok(old(tree).nodes()),
    ensures
        final(tree).wf(),
        final(tree).root_ids() == old(tree).root_ids(),
        final(tree).dirty_mask() == old(tree).dirty_mask(),
        final(tree).nodes() == (if plan.layout {
            carets_placed(m, old(tree).nodes(), signals@, scale, old(tree).nodes().len())
        } else {
            old(tree).nodes()
        }),
{
    if plan.layout {
        reposition_carets(tree, signals, m, scale);
    }
}

/// A flush shows every text field's text first; where nothing was marked it does
/// no more, and where nodes came, went or moved the tree is laid out with the
/// tables of all lists up to date.
pub proof fn flushes_bring_the_tree_up_to_date<N: Num, M: Measurer<N>>(
    before: NodeTree<N>,
    shown: NodeTree<N>,
    fresh: Seq<Option<Node<N>>>,
    after: NodeTree<N>,
    signals: &Signals<N>,
    m: &M,
    viewport: [N; 2],
    scale: N,
    r: Option<FlushPlan>,
    i: int,
)
    requires
        flush_begun(before, shown, fresh, after, signals, m, viewport, scale, r),
        0 <= i < fresh.len(),
    ensures
        r is None <==> shown.dirty_mask() == 0,
        r matches Some(p) ==> p.mask == shown.dirty_mask(),
        r is None ==> after.nodes() == shown.nodes(),
        r matches Some(p) ==> (p.layout ==> laid_out(
            fresh,
            after.nodes(),
            before.root_ids(),
            m,
            viewport,
            scale,
        )),
        r matches Some(p) ==> (!p.layout ==> after.nodes() == fresh),
        r is Some && fresh[i] is Some && fresh[i]->0.lazy_list is Some
            ==> fresh[i]->0.lazy_list->0.fresh(),
        r is Some ==> fresh[i] is Some == shown.nodes()[i] is Some,
{
    if r is Some {
        assert(list_freshened(shown.nodes()[i], fresh[i]));
    }
}

} // verus!
