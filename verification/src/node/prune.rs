//! Removing subtrees.
use vstd::prelude::*;

use crate::node::dirty;
use crate::node::tree::{
    descendant_ids, descends, forest, forest_child, forest_parent, forest_root, forest_size,
    left_over, live, node_at, unlisted, Node, NodeTree,
};
use crate::node::NodeId;
use crate::num::Num;

verus! {

/// Node `i` is one of the tops, or below one.
pub open spec fn below_any<N>(nodes: Seq<Option<Node<N>>>, tops: Seq<NodeId>, n: int, i: int) -> bool {
    exists|k: int| 0 <= k < n && descends(nodes, #[trigger] tops[k], i)
}

/// The ids whose nodes are there, in the same order.
pub open spec fn still_there<N>(ids: Seq<NodeId>, nodes: Seq<Option<Node<N>>>) -> Seq<NodeId>
    decreases ids.len(),
{
    if ids.len() == 0 {
        Seq::empty()
    } else {
        let before = still_there(ids.drop_last(), nodes);
        if live(nodes, ids.last()) {
            before.push(ids.last())
        } else {
            before
        }
    }
}

/// What is left of a node in `rest`, after some subtrees were removed:
/// nothing of one that was in them; any other has lost the children that are
/// gone, and nothing else.
pub open spec fn survives<N>(
    before: Option<Node<N>>,
    after: Option<Node<N>>,
    gone: bool,
    rest: Seq<Option<Node<N>>>,
) -> bool {
    if before is Some && !gone {
        &&& after is Some
        &&& after->0 == (Node { children: after->0.children, ..before->0 })
        &&& after->0.children@ == still_there(before->0.children@, rest)
    } else {
        after is None
    }
}

/// Ids that are all there stay.
pub(crate) proof fn all_still_there<N>(ids: Seq<NodeId>, nodes: Seq<Option<Node<N>>>)
    requires
        forall|k: int| 0 <= k < ids.len() ==> live(nodes, #[trigger] ids[k]),
    ensures
        still_there(ids, nodes) == ids,
    decreases ids.len(),
{
    if ids.len() > 0 {
        assert forall|k: int| 0 <= k < ids.len() - 1 implies live(
            nodes,
            #[trigger] ids.drop_last()[k],
        ) by {
            assert(live(nodes, ids[k]));
        }
        all_still_there(ids.drop_last(), nodes);
        assert(live(nodes, ids[ids.len() - 1]));
        assert(ids.drop_last().push(ids.last()) =~= ids);
    }
}

/// What is still there was there, once.
proof fn still_there_is_among<N>(ids: Seq<NodeId>, nodes: Seq<Option<Node<N>>>)
    requires
        ids.no_duplicates(),
    ensures
        still_there(ids, nodes).no_duplicates(),
        forall|id: NodeId| #[trigger] still_there(ids, nodes).contains(id) ==> ids.contains(id),
    decreases ids.len(),
{
    if ids.len() > 0 {
        let short = ids.drop_last();
        let before = still_there(short, nodes);
        still_there_is_among(short, nodes);
        let all = still_there(ids, nodes);
        assert(!before.contains(ids.last())) by {
            if before.contains(ids.last()) {
                let k = choose|k: int| 0 <= k < short.len() && short[k] == ids.last();
                assert(ids[k] == ids[ids.len() - 1]);
            }
        }
        assert forall|id: NodeId| #[trigger] all.contains(id) implies ids.contains(id) by {
            let k = choose|k: int| 0 <= k < all.len() && all[k] == id;
            if k < before.len() {
                assert(before[k] == id);
                assert(before.contains(id));
                let j = choose|j: int| 0 <= j < short.len() && short[j] == id;
                assert(ids[j] == id);
            } else {
                assert(ids[ids.len() - 1] == id);
            }
        }
        assert forall|a: int, b: int| 0 <= a < all.len() && 0 <= b < all.len() && a != b implies all[a]
            != all[b] by {
            if a < before.len() && b < before.len() {
                assert(before[a] != before[b]);
            } else if a < before.len() {
                assert(before.contains(before[a]));
            } else if b < before.len() {
                assert(before.contains(before[b]));
            }
        }
    }
}

/// Where just `top` went, the ids that are still there are those before
/// without it.
proof fn one_fewer<N>(
    ids: Seq<NodeId>,
    here: Seq<Option<Node<N>>>,
    after: Seq<Option<Node<N>>>,
    top: NodeId,
)
    requires
        ids.no_duplicates(),
        forall|k: int|
            0 <= k < ids.len() ==> live(after, #[trigger] ids[k]) == (live(here, ids[k]) && ids[k]
                != top),
    ensures
        still_there(ids, after) == unlisted(still_there(ids, here), top),
    decreases ids.len(),
{
    if ids.len() > 0 {
        let short = ids.drop_last();
        let x = ids.last();
        let was = still_there(short, here);
        assert forall|k: int| 0 <= k < short.len() implies live(after, #[trigger] short[k]) == (live(
            here,
            short[k],
        ) && short[k] != top) by {
            assert(short[k] == ids[k]);
        }
        one_fewer(short, here, after, top);
        still_there_is_among(short, here);
        still_there_is_among(ids, here);
        assert(x == ids[ids.len() - 1]);
        assert(!short.contains(x));
        if live(here, x) {
            let all = was.push(x);
            assert(all == still_there(ids, here));
            if x == top {
                assert(!was.contains(top));
                assert(all[was.len() as int] == top);
                assert(all.contains(top));
                let k = all.index_of(top);
                assert(all[k] == top);
                assert(k == was.len());
                assert(all.remove(k) =~= was);
            } else if was.contains(top) {
                let j = was.index_of(top);
                assert(was[j] == top);
                assert(all[j] == top);
                assert(all.contains(top));
                let k = all.index_of(top);
                assert(all[k] == top);
                assert(k == j);
                assert(all.remove(k) =~= was.remove(j).push(x));
            } else {
                assert(!all.contains(top)) by {
                    if all.contains(top) {
                        let k = choose|k: int| 0 <= k < all.len() && all[k] == top;
                        assert(was[k] == top);
                    }
                }
            }
        }
    }
}

/// In a tree with some subtrees removed, what is below a node is what was
/// below it and is still there.
proof fn descends_in_rest<N>(
    nodes: Seq<Option<Node<N>>>,
    rest: Seq<Option<Node<N>>>,
    roots: Seq<NodeId>,
    top: NodeId,
    i: int,
)
    requires
        crate::node::tree::forest(rest, roots),
        rest.len() == nodes.len(),
        forall|j: int|
            0 <= j < nodes.len() ==> (#[trigger] rest[j] is Some ==> nodes[j] is Some
                && rest[j]->0.parent == nodes[j]->0.parent),
        0 <= i < rest.len(),
        rest[i] is Some,
    ensures
        descends(rest, top, i) == descends(nodes, top, i),
    decreases i,
{
    crate::node::tree::forest_size(rest, roots);
    let id = NodeId { index: i as u32 };
    assert(live(rest, id));
    forest_parent(rest, roots, id);
    match rest[i]->0.parent {
        Some(p) => {
            descends_in_rest(nodes, rest, roots, top, p.index as int);
        },
        None => {},
    }
}

proof fn descendant_ids_contain<N>(nodes: Seq<Option<Node<N>>>, top: NodeId, n: nat, id: NodeId)
    requires
        n <= nodes.len() <= u32::MAX,
    ensures
        descendant_ids(nodes, top, n).contains(id) <==> id.index < n && descends(
            nodes,
            top,
            id.index as int,
        ),
    decreases n,
{
    if n > 0 {
        let before = descendant_ids(nodes, top, (n - 1) as nat);
        let all = descendant_ids(nodes, top, n);
        descendant_ids_contain(nodes, top, (n - 1) as nat, id);
        if descends(nodes, top, n - 1) {
            assert(all == before.push(NodeId { index: (n - 1) as u32 }));
            assert(all[before.len() as int] == NodeId { index: (n - 1) as u32 });
            if before.contains(id) {
                let j = choose|j: int| 0 <= j < before.len() && before[j] == id;
                assert(all[j] == id);
            }
            if all.contains(id) {
                let j = choose|j: int| 0 <= j < all.len() && all[j] == id;
                if j < before.len() {
                    assert(before[j] == id);
                }
            }
        }
    }
}

proof fn contains_in_sum(a: Seq<NodeId>, b: Seq<NodeId>, id: NodeId)
    ensures
        (a + b).contains(id) <==> a.contains(id) || b.contains(id),
{
    if a.contains(id) {
        let j = choose|j: int| 0 <= j < a.len() && a[j] == id;
        assert((a + b)[j] == id);
    }
    if b.contains(id) {
        let j = choose|j: int| 0 <= j < b.len() && b[j] == id;
        assert((a + b)[a.len() + j] == id);
    }
}

/// Removes nodes with all below them. The result are the ids that are gone.
pub fn remove_all<N: Num>(tree: &mut NodeTree<N>, tops: &Vec<NodeId>) -> (r: Vec<NodeId>)
    requires
        old(tree).wf(),
    ensures
        final(tree).wf(),
        final(tree).nodes().len() == old(tree).nodes().len(),
        forall|i: int|
            0 <= i < old(tree).nodes().len() ==> survives(
                old(tree).nodes()[i],
                #[trigger] final(tree).nodes()[i],
                below_any(old(tree).nodes(), tops@, tops@.len() as int, i),
                final(tree).nodes(),
            ),
        forall|id: NodeId| #[trigger]
            r@.contains(id) <==> live(old(tree).nodes(), id) && !live(final(tree).nodes(), id),
        final(tree).root_ids() == still_there(old(tree).root_ids(), final(tree).nodes()),
        final(tree).dirty_mask() == dirty::marked_if(
            old(tree).dirty_mask(),
            r@.len() > 0,
            dirty::TREE,
        ),
{
    let ghost nodes = tree.nodes();
    let ghost listed = tree.root_ids();
    proof {
        nothing_removed_yet(nodes, listed);
    }
    let mut gone: Vec<NodeId> = Vec::new();
    let mut k: usize = 0;
    while k < tops.len()
        invariant
            k <= tops@.len(),
            tree.wf(),
            tree.nodes().len() == nodes.len(),
            forall|i: int|
                0 <= i < nodes.len() ==> survives(
                    nodes[i],
                    #[trigger] tree.nodes()[i],
                    below_any(nodes, tops@, k as int, i),
                    tree.nodes(),
                ),
            forall|id: NodeId| #[trigger]
                gone@.contains(id) <==> live(nodes, id) && !live(tree.nodes(), id),
            tree.root_ids() == still_there(listed, tree.nodes()),
            tree.dirty_mask() == dirty::marked_if(
                old(tree).dirty_mask(),
                gone@.len() > 0,
                dirty::TREE,
            ),
            forest(nodes, listed),
        decreases tops.len() - k,
    {
        let ghost here = tree.nodes();
        let ghost roots = tree.root_ids();
        let top: NodeId = tops[k];
        let mut removed: Vec<NodeId> = tree.remove_subtree(top);
        let ghost out = removed@;
        let ghost old_gone = gone@;
        gone.append(&mut removed);
        proof {
            let after = tree.nodes();
            forest_size(here, roots);
            assert(gone@ == old_gone + out);
            dirty::marks_stick(old(tree).dirty_mask(), dirty::TREE);
            if live(here, top) {
                descendant_ids_contain(here, top, here.len(), top);
                assert(out.contains(top));
                assert forall|i: int|
                    0 <= i < here.len() && #[trigger] here[i] is Some implies nodes[i] is Some
                    && here[i]->0.parent == nodes[i]->0.parent by {
                    assert(survives(nodes[i], here[i], below_any(nodes, tops@, k as int, i), here));
                }
                forest_root_free(nodes, listed, here, after, top);
                one_fewer(listed, here, after, top);
            }
            assert forall|id: NodeId| #[trigger] gone@.contains(id) <==> live(nodes, id) && !live(
                after,
                id,
            ) by {
                contains_in_sum(old_gone, out, id);
                if id.index < nodes.len() {
                    let i = id.index as int;
                    assert(survives(nodes[i], here[i], below_any(nodes, tops@, k as int, i), here));
                }
                if live(here, top) {
                    descendant_ids_contain(here, top, here.len(), id);
                    if id.index < nodes.len() {
                        assert(left_over(here, after, top, id.index as int));
                    }
                }
            }
            assert forall|i: int| 0 <= i < nodes.len() implies survives(
                nodes[i],
                #[trigger] after[i],
                below_any(nodes, tops@, k + 1, i),
                after,
            ) by {
                assert(survives(nodes[i], here[i], below_any(nodes, tops@, k as int, i), here));
                assert(below_any(nodes, tops@, k + 1, i) == (below_any(nodes, tops@, k as int, i)
                    || descends(nodes, top, i))) by {
                    if below_any(nodes, tops@, k + 1, i) {
                        let j = choose|j: int|
                            0 <= j < k + 1 && descends(nodes, #[trigger] tops@[j], i);
                        if j < k {
                            assert(descends(nodes, tops@[j], i));
                        }
                    }
                    if below_any(nodes, tops@, k as int, i) {
                        let j = choose|j: int|
                            0 <= j < k && descends(nodes, #[trigger] tops@[j], i);
                        assert(descends(nodes, tops@[j], i));
                    }
                    if descends(nodes, top, i) {
                        assert(descends(nodes, tops@[k as int], i));
                    }
                }
                if here[i] is Some {
                    assert forall|j: int|
                        0 <= j < nodes.len() && #[trigger] here[j] is Some implies nodes[j] is Some
                        && here[j]->0.parent == nodes[j]->0.parent by {
                        assert(survives(
                            nodes[j],
                            here[j],
                            below_any(nodes, tops@, k as int, j),
                            here,
                        ));
                    }
                    descends_in_rest(nodes, here, roots, top, i);
                    if live(here, top) {
                        assert(left_over(here, after, top, i));
                        if !descends(here, top, i) {
                            children_left(nodes, listed, here, after, top, i);
                        }
                    } else {
                        if descends(here, top, i) {
                            descendants_need_their_top(here, top, i);
                        }
                    }
                } else {
                    if live(here, top) {
                        assert(left_over(here, after, top, i));
                    }
                }
            }
        }
        k = k + 1;
    }
    gone
}

/// All roots and children are there before anything is removed.
pub(crate) proof fn nothing_removed_yet<N>(nodes: Seq<Option<Node<N>>>, roots: Seq<NodeId>)
    requires
        forest(nodes, roots),
    ensures
        still_there(roots, nodes) == roots,
        forall|i: int|
            0 <= i < nodes.len() ==> survives(nodes[i], #[trigger] nodes[i], false, nodes),
{
    assert forall|k: int| 0 <= k < roots.len() implies live(nodes, #[trigger] roots[k]) by {
        forest_root(nodes, roots, k);
    }
    all_still_there(roots, nodes);
    forest_size(nodes, roots);
    assert forall|i: int| 0 <= i < nodes.len() implies survives(
        nodes[i],
        #[trigger] nodes[i],
        false,
        nodes,
    ) by {
        if nodes[i] is Some {
            let id = NodeId { index: i as u32 };
            let ids = nodes[i]->0.children@;
            assert(live(nodes, id));
            assert forall|k: int| 0 <= k < ids.len() implies live(nodes, #[trigger] ids[k]) by {
                forest_child(nodes, roots, id, k);
            }
            all_still_there(ids, nodes);
        }
    }
}

/// Of the roots, only the removed one goes.
proof fn forest_root_free<N>(
    nodes: Seq<Option<Node<N>>>,
    roots: Seq<NodeId>,
    here: Seq<Option<Node<N>>>,
    after: Seq<Option<Node<N>>>,
    top: NodeId,
)
    requires
        forest(nodes, roots),
        here.len() == nodes.len(),
        after.len() == nodes.len(),
        forall|i: int|
            0 <= i < here.len() ==> (#[trigger] here[i] is Some ==> nodes[i] is Some
                && here[i]->0.parent == nodes[i]->0.parent),
        forall|i: int| 0 <= i < here.len() ==> #[trigger] left_over(here, after, top, i),
        live(here, top),
    ensures
        roots.no_duplicates(),
        forall|k: int|
            0 <= k < roots.len() ==> live(after, #[trigger] roots[k]) == (live(here, roots[k])
                && roots[k] != top),
{
    if roots.len() > 0 {
        forest_root(nodes, roots, 0);
    }
    assert forall|k: int| 0 <= k < roots.len() implies live(after, #[trigger] roots[k]) == (live(
        here,
        roots[k],
    ) && roots[k] != top) by {
        forest_root(nodes, roots, k);
        let i = roots[k].index as int;
        assert(left_over(here, after, top, i));
        if here[i] is Some {
            assert(here[i]->0.parent is None);
        }
    }
}

/// The children of a node that stays are those that are still there.
proof fn children_left<N>(
    nodes: Seq<Option<Node<N>>>,
    roots: Seq<NodeId>,
    here: Seq<Option<Node<N>>>,
    after: Seq<Option<Node<N>>>,
    top: NodeId,
    i: int,
)
    requires
        forest(nodes, roots),
        here.len() == nodes.len(),
        after.len() == nodes.len(),
        forall|j: int|
            0 <= j < here.len() ==> (#[trigger] here[j] is Some ==> nodes[j] is Some
                && here[j]->0.parent == nodes[j]->0.parent),
        forall|j: int| 0 <= j < here.len() ==> #[trigger] left_over(here, after, top, j),
        live(here, top),
        0 <= i < here.len(),
        here[i] is Some,
        !descends(here, top, i),
        here[i]->0.children@ == still_there(nodes[i]->0.children@, here),
    ensures
        after[i] is Some,
        after[i]->0.children@ == still_there(nodes[i]->0.children@, after),
{
    forest_size(nodes, roots);
    let id = NodeId { index: i as u32 };
    let ids = nodes[i]->0.children@;
    assert(live(nodes, id));
    assert(left_over(here, after, top, i));
    assert(ids.no_duplicates()) by {
        forest_parent(nodes, roots, id);
    }
    assert forall|k: int| 0 <= k < ids.len() implies live(after, #[trigger] ids[k]) == (live(
        here,
        ids[k],
    ) && ids[k] != top) by {
        forest_child(nodes, roots, id, k);
        assert(left_over(here, after, top, ids[k].index as int));
    }
    one_fewer(ids, here, after, top);
    if node_at(here, top).parent != Some(id) {
        still_there_is_among(ids, here);
        if still_there(ids, here).contains(top) {
            let k = choose|k: int| 0 <= k < ids.len() && ids[k] == top;
            forest_child(nodes, roots, id, k);
        }
    }
}

proof fn descendants_need_their_top<N>(nodes: Seq<Option<Node<N>>>, top: NodeId, i: int)
    requires
        descends(nodes, top, i),
    ensures
        live(nodes, top),
    decreases i,
{
    if i != top.index {
        descendants_need_their_top(nodes, top, nodes[i]->0.parent->0.index as int);
    }
}

/// The nodes after some subtrees were removed.
pub open spec fn subtrees_removed<N>(
    before: Seq<Option<Node<N>>>,
    after: Seq<Option<Node<N>>>,
    tops: Seq<NodeId>,
) -> bool {
    &&& after.len() == before.len()
    &&& forall|i: int|
        0 <= i < before.len() ==> survives(
            before[i],
            #[trigger] after[i],
            below_any(before, tops, tops.len() as int, i),
            after,
        )
}

pub(crate) proof fn same_liveness_same_roots<N>(
    ids: Seq<NodeId>,
    a: Seq<Option<Node<N>>>,
    b: Seq<Option<Node<N>>>,
)
    requires
        forall|id: NodeId| live(a, id) == live(b, id),
    ensures
        still_there(ids, a) == still_there(ids, b),
    decreases ids.len(),
{
    if ids.len() > 0 {
        same_liveness_same_roots(ids.drop_last(), a, b);
    }
}

} // verus!
