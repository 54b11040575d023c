//! Bringing the rows of virtualized lists in step with what is visible.
//!
//! Which rows are rendered is decided here; rendering them is up to the
//! application, row by row.
use vstd::prelude::*;

use crate::layout::LayoutStyle;
use crate::lazy_list::{
    logical_bottom, logical_top, split_at_most, split_below, window_is, LazyListState,
};
use crate::node::dirty;
use crate::node::prune::{
    below_any, nothing_removed_yet, remove_all, same_liveness_same_roots, still_there,
    subtrees_removed, survives,
};
use crate::node::tree::{forest_size, live, node_at, Node, NodeTree};
use crate::node::NodeId;
use crate::num::{equals2, zero, Num};

verus! {

/// The list of a node.
pub open spec fn list_at<N>(nodes: Seq<Option<Node<N>>>, id: NodeId) -> Option<LazyListState<N>> {
    if live(nodes, id) {
        node_at(nodes, id).lazy_list
    } else {
        None
    }
}

/// The ids among the first `n` whose nodes have a list.
pub open spec fn list_ids<N>(nodes: Seq<Option<Node<N>>>, n: nat) -> Seq<NodeId>
    decreases n,
{
    if n == 0 {
        Seq::empty()
    } else {
        let before = list_ids(nodes, (n - 1) as nat);
        if nodes[n - 1] is Some && nodes[n - 1]->0.lazy_list is Some {
            before.push(NodeId { index: (n - 1) as u32 })
        } else {
            before
        }
    }
}

/// The nodes that have a list, in the order in which they were added.
pub fn lazy_lists<N: Num>(tree: &NodeTree<N>) -> (r: Vec<NodeId>)
    requires
        tree.wf(),
    ensures
        r@ == list_ids(tree.nodes(), tree.nodes().len()),
{
    proof {
        forest_size(tree.nodes(), tree.root_ids());
    }
    let n: usize = tree.capacity();
    let mut ids: Vec<NodeId> = Vec::new();
    let mut i: usize = 0;
    while i < n
        invariant
            i <= n,
            n == tree.nodes().len(),
            n <= u32::MAX,
            ids@ == list_ids(tree.nodes(), i as nat),
        decreases n - i,
    {
        let id: NodeId = NodeId { index: i as u32 };
        if let Some(node) = tree.get(id) {
            if node.lazy_list.is_some() {
                ids.push(id);
            }
        }
        i = i + 1;
    }
    ids
}

/// A list whose table of tops can be brought up to date.
pub open spec fn list_ok<N: Num>(n: Node<N>) -> bool {
    n.lazy_list matches Some(ll) ==> ll.sound() && ll.item_count < usize::MAX
}

pub open spec fn lists_ok<N: Num>(nodes: Seq<Option<Node<N>>>) -> bool {
    forall|i: int|
        0 <= i < nodes.len() ==> (#[trigger] nodes[i] matches Some(n) ==> list_ok(n))
}

/// A node with its table of tops brought up to date.
pub open spec fn list_freshened<N: Num>(before: Option<Node<N>>, after: Option<Node<N>>) -> bool {
    match before {
        None => after is None,
        Some(n) => {
            &&& after is Some
            &&& after->0 == (Node { lazy_list: after->0.lazy_list, ..n })
            &&& match n.lazy_list {
                None => after->0.lazy_list is None,
                Some(ll) => {
                    &&& after->0.lazy_list matches Some(fresh)
                    &&& fresh.fresh()
                    &&& fresh.sound()
                    &&& fresh.same_rows(&ll)
                    &&& fresh.row_heights == ll.row_heights
                    &&& fresh.heights_version == ll.heights_version
                    &&& fresh.last_heights_version == ll.heights_version
                    &&& fresh.placed_heights_version == ll.placed_heights_version
                },
            }
        },
    }
}

/// Brings the tables of tops of all lists up to date.
pub fn ensure_lazy_list_prefixes<N: Num>(tree: &mut NodeTree<N>)
    requires
        old(tree).wf(),
        lists_ok(old(tree).nodes()),
    ensures
        final(tree).wf(),
        final(tree).root_ids() == old(tree).root_ids(),
        final(tree).dirty_mask() == old(tree).dirty_mask(),
        final(tree).nodes().len() == old(tree).nodes().len(),
        forall|i: int|
            0 <= i < old(tree).nodes().len() ==> list_freshened(
                old(tree).nodes()[i],
                #[trigger] final(tree).nodes()[i],
            ),
{
    let ghost nodes = tree.nodes();
    proof {
        forest_size(nodes, tree.root_ids());
    }
    let n: usize = tree.capacity();
    let mut i: usize = 0;
    while i < n
        invariant
            i <= n,
            n == nodes.len(),
            n <= u32::MAX,
            lists_ok(nodes),
            tree.wf(),
            tree.root_ids() == old(tree).root_ids(),
            tree.dirty_mask() == old(tree).dirty_mask(),
            tree.nodes().len() == n,
            forall|j: int|
                0 <= j < i ==> list_freshened(nodes[j], #[trigger] tree.nodes()[j]),
            forall|j: int| i <= j < n ==> #[trigger] tree.nodes()[j] == nodes[j],
        decreases n - i,
    {
        let id: NodeId = NodeId { index: i as u32 };
        let ghost here = tree.nodes();
        assert(here[i as int] == nodes[i as int]);
        let has: bool = match tree.get(id) {
            Some(node) => node.lazy_list.is_some(),
            None => false,
        };
        if has {
            if let Some(list) = tree.take_lazy_list(id) {
                let mut ll = list;
                ll.ensure_prefix_fresh();
                tree.set_lazy_list(id, ll);
            }
        }
        proof {
            assert forall|j: int| 0 <= j < n && j != i implies #[trigger] tree.nodes()[j]
                == here[j] by {}
        }
        i = i + 1;
    }
}

/// What becomes of the rows of a list.
#[derive(Copy, Clone, Debug, PartialEq, Eq, Structural)]
pub enum ListPlan {
    /// They stay.
    Keep,
    /// They stay, but at other tops.
    Reposition,
    /// Those that left the window are removed, and those that came into it
    /// rendered; the others stay.
    Shift { first: u32, end: u32 },
    /// All are removed, and the rows of the window are rendered.
    Rebuild { first: u32, end: u32 },
}

/// Every row of the range is a node.
pub open spec fn range_full<N>(ll: LazyListState<N>) -> bool {
    ll.range[0] + ll.materialized@.len() == ll.range[1]
}

/// What becomes of the rows of a list whose window is `w`: they are rendered
/// anew if the version moved, in part if just the window moved, and only put
/// elsewhere if just heights changed. Where some row of the range is no node,
/// a window that moved has all of them rendered anew.
pub open spec fn plan_of<N>(ll: LazyListState<N>, w: [u32; 2]) -> ListPlan {
    if ll.version != ll.last_seen_version {
        ListPlan::Rebuild { first: w[0], end: w[1] }
    } else if w != ll.range {
        if range_full(ll) {
            ListPlan::Shift { first: w[0], end: w[1] }
        } else {
            ListPlan::Rebuild { first: w[0], end: w[1] }
        }
    } else if ll.heights_version == ll.placed_heights_version {
        ListPlan::Keep
    } else {
        ListPlan::Reposition
    }
}

/// How far a list is scrolled.
pub open spec fn scroll_top_of<N: Num>(n: Node<N>) -> N {
    match n.scroll {
        Some(s) => s.current[1],
        None => zero(),
    }
}

/// Decides what becomes of the rows of a list. A node without a list has
/// nothing to decide.
pub fn plan_list<N: Num>(tree: &NodeTree<N>, list: NodeId, scale: N) -> (r: Option<ListPlan>)
    requires
        list_at(tree.nodes(), list) matches Some(ll) ==> ll.prefix@.len() <= u32::MAX + 1,
    ensures
        match list_at(tree.nodes(), list) {
            None => r is None,
            Some(ll) => exists|w: [u32; 2]| #[trigger]
                window_is(
                    ll,
                    scroll_top_of(node_at(tree.nodes(), list)),
                    node_at(tree.nodes(), list).rect[3],
                    scale,
                    w,
                ) && w[0] <= w[1] && r == Some(plan_of(ll, w)),
        },
{
    match tree.get(list) {
        Some(n) => match &n.lazy_list {
            Some(ll) => {
                let scroll_top: N = match n.scroll {
                    Some(s) => s.current[1],
                    None => N::of_ratio(0, 1),
                };
                let w: [u32; 2] = ll.visible_window(scroll_top, n.rect[3], scale);
                let same: bool = w[0] == ll.range[0] && w[1] == ll.range[1];
                proof {
                    if same {
                        assert(w =~= ll.range);
                    }
                    assert(window_is(*ll, scroll_top_of(*n), n.rect[3], scale, w));
                    assert(*ll == list_at(tree.nodes(), list)->0);
                }
                let full: bool = ll.range[0] <= ll.range[1] && ll.materialized.len() == (
                ll.range[1] - ll.range[0]) as usize;
                if ll.version != ll.last_seen_version || (!same && !full) {
                    Some(ListPlan::Rebuild { first: w[0], end: w[1] })
                } else if !same {
                    Some(ListPlan::Shift { first: w[0], end: w[1] })
                } else if ll.heights_version == ll.placed_heights_version {
                    Some(ListPlan::Keep)
                } else {
                    Some(ListPlan::Reposition)
                }
            },
            None => None,
        },
        None => None,
    }
}

/// The nodes after one was put at an offset.
pub open spec fn abs_placed<N: Num>(nodes: Seq<Option<Node<N>>>, id: NodeId, pos: [N; 2]) -> Seq<
    Option<Node<N>>,
> {
    if live(nodes, id) && !(node_at(nodes, id).layout.abs is Some && equals2(
        node_at(nodes, id).layout.abs->0,
        pos,
    )) {
        nodes.update(
            id.index as int,
            Some(
                Node {
                    layout: LayoutStyle { abs: Some(pos), ..node_at(nodes, id).layout },
                    ..node_at(nodes, id)
                },
            ),
        )
    } else {
        nodes
    }
}

/// The nodes after the first `n` rows of a list were put at their tops.
pub open spec fn rows_placed<N: Num>(
    nodes: Seq<Option<Node<N>>>,
    ll: LazyListState<N>,
    n: nat,
) -> Seq<Option<Node<N>>>
    decreases n,
{
    if n == 0 {
        nodes
    } else {
        abs_placed(
            rows_placed(nodes, ll, (n - 1) as nat),
            ll.materialized@[n - 1],
            [zero(), ll.row_top((ll.range[0] + n - 1) as u32)],
        )
    }
}

/// Row `k`, put at its top after those before it, moves.
pub open spec fn row_moves<N: Num>(
    nodes: Seq<Option<Node<N>>>,
    ll: LazyListState<N>,
    k: int,
) -> bool {
    let before = rows_placed(nodes, ll, k as nat);
    let row = ll.materialized@[k];
    let abs = node_at(before, row).layout.abs;
    live(before, row) && !(abs is Some && equals2(
        abs->0,
        [zero(), ll.row_top((ll.range[0] + k) as u32)],
    ))
}

/// Puts the rendered rows of a list at their tops, after heights changed. The
/// result says whether any moved.
pub fn reposition_rows<N: Num>(tree: &mut NodeTree<N>, list: NodeId) -> (r: bool)
    requires
        old(tree).wf(),
        list_at(old(tree).nodes(), list) matches Some(ll) ==> ll.range[0] + ll.materialized@.len()
            <= u32::MAX,
    ensures
        final(tree).wf(),
        final(tree).root_ids() == old(tree).root_ids(),
        final(tree).dirty_mask() == old(tree).dirty_mask(),
        match list_at(old(tree).nodes(), list) {
            None => !r && final(tree).nodes() == old(tree).nodes(),
            Some(ll) => {
                let seen = LazyListState { placed_heights_version: ll.heights_version, ..ll };
                let marked = old(tree).nodes().update(
                    list.index as int,
                    Some(Node { lazy_list: Some(seen), ..node_at(old(tree).nodes(), list) }),
                );
                &&& final(tree).nodes() == rows_placed(marked, seen, seen.materialized@.len())
                &&& r == exists|k: int|
                    0 <= k < seen.materialized@.len() && #[trigger] row_moves(marked, seen, k)
            },
        },
{
    let ghost before = tree.nodes();
    let z: N = N::of_ratio(0, 1);
    let mut rows: Vec<(NodeId, N)> = Vec::new();
    let mut ll: LazyListState<N> = match tree.take_lazy_list(list) {
        Some(ll) => ll,
        None => {
            proof {
                if live(before, list) {
                    assert(before.update(
                        list.index as int,
                        Some(Node { lazy_list: None, ..node_at(before, list) }),
                    ) =~= before);
                }
            }
            return false;
        },
    };
    ll.placed_heights_version = ll.heights_version;
    let ghost seen = ll;
    let n: usize = ll.materialized.len();
    let mut k: usize = 0;
    while k < n
        invariant
            k <= n,
            n == ll.materialized@.len(),
            ll == seen,
            ll.range[0] + n <= u32::MAX,
            rows@.len() == k,
            forall|j: int|
                0 <= j < k ==> (#[trigger] rows@[j]).0 == ll.materialized@[j] && rows@[j].1
                    == ll.row_top((ll.range[0] + j) as u32),
        decreases n - k,
    {
        let top: N = ll.row_top_logical(ll.range[0] + k as u32);
        rows.push((ll.materialized[k], top));
        k = k + 1;
    }
    tree.set_lazy_list(list, ll);
    let ghost marked = tree.nodes();
    assert(marked =~= before.update(
        list.index as int,
        Some(Node { lazy_list: Some(seen), ..node_at(before, list) }),
    ));
    let mut moved: bool = false;
    let mut i: usize = 0;
    while i < n
        invariant
            i <= n,
            n == rows@.len(),
            n == seen.materialized@.len(),
            z == zero::<N>(),
            forall|j: int|
                0 <= j < n ==> (#[trigger] rows@[j]).0 == seen.materialized@[j] && rows@[j].1
                    == seen.row_top((seen.range[0] + j) as u32),
            tree.wf(),
            tree.root_ids() == old(tree).root_ids(),
            tree.dirty_mask() == old(tree).dirty_mask(),
            tree.nodes() == rows_placed(marked, seen, i as nat),
            moved == exists|k: int| 0 <= k < i && #[trigger] row_moves(marked, seen, k),
        decreases n - i,
    {
        let (id, top): (NodeId, N) = rows[i];
        let here: bool = tree.place_abs(id, [z, top]);
        assert(here == row_moves(marked, seen, i as int));
        if here {
            moved = true;
        }
        i = i + 1;
    }
    moved
}

/// Removes the rendered rows of a list, so that others can be rendered. The
/// result are the ids that are gone.
pub fn clear_rows<N: Num>(tree: &mut NodeTree<N>, list: NodeId) -> (r: Vec<NodeId>)
    requires
        old(tree).wf(),
    ensures
        final(tree).wf(),
        final(tree).nodes().len() == old(tree).nodes().len(),
        ({
            let rows = match list_at(old(tree).nodes(), list) {
                Some(ll) => ll.materialized@,
                None => Seq::empty(),
            };
            forall|i: int|
                0 <= i < old(tree).nodes().len() ==> survives(
                    old(tree).nodes()[i],
                    #[trigger] final(tree).nodes()[i],
                    below_any(old(tree).nodes(), rows, rows.len() as int, i),
                    final(tree).nodes(),
                )
        }),
        forall|id: NodeId| #[trigger]
            r@.contains(id) <==> live(old(tree).nodes(), id) && !live(final(tree).nodes(), id),
        final(tree).root_ids() == still_there(old(tree).root_ids(), final(tree).nodes()),
        final(tree).dirty_mask() == dirty::marked_if(
            old(tree).dirty_mask(),
            r@.len() > 0,
            dirty::TREE,
        ),
{
    let mut rows: Vec<NodeId> = Vec::new();
    if let Some(n) = tree.get(list) {
        if let Some(ll) = &n.lazy_list {
            let mut i: usize = 0;
            while i < ll.materialized.len()
                invariant
                    i <= ll.materialized@.len(),
                    rows@ == ll.materialized@.take(i as int),
                decreases ll.materialized.len() - i,
            {
                rows.push(ll.materialized[i]);
                i = i + 1;
                assert(rows@ =~= ll.materialized@.take(i as int));
            }
            assert(rows@ =~= ll.materialized@);
        }
    }
    assert(rows@ =~= (match list_at(tree.nodes(), list) {
        Some(ll) => ll.materialized@,
        None => Seq::empty(),
    }));
    remove_all(tree, &rows)
}

/// The rows of a range that lie in the window `first..end`.
pub open spec fn rows_staying(range: [u32; 2], first: u32, end: u32) -> [u32; 2] {
    let lo = if range[0] < first {
        first
    } else {
        range[0]
    };
    let hi = if end < range[1] {
        end
    } else {
        range[1]
    };
    if lo < hi {
        [lo, hi]
    } else {
        [range[0], range[0]]
    }
}

/// The nodes of the rows that leave the window.
pub open spec fn rows_leaving<N>(ll: LazyListState<N>, first: u32, end: u32) -> Seq<NodeId> {
    let stay = rows_staying(ll.range, first, end);
    ll.materialized@.take(stay[0] - ll.range[0]) + ll.materialized@.skip(stay[1] - ll.range[0])
}

/// A list after the rows that leave the window were removed: the others are
/// the nodes that they were.
pub open spec fn list_trimmed<N>(
    before: LazyListState<N>,
    after: LazyListState<N>,
    first: u32,
    end: u32,
) -> bool {
    let stay = rows_staying(before.range, first, end);
    &&& after == (LazyListState {
        materialized: after.materialized,
        range: stay,
        ..before
    })
    &&& after.materialized@ == before.materialized@.subrange(
        stay[0] - before.range[0],
        stay[1] - before.range[0],
    )
}

/// Removes the rendered rows of a list that left the window `first..end`. The
/// result are the ids that are gone.
pub fn trim_rows<N: Num>(tree: &mut NodeTree<N>, list: NodeId, first: u32, end: u32) -> (r: Vec<
    NodeId,
>)
    requires
        old(tree).wf(),
        list_at(old(tree).nodes(), list) matches Some(ll) ==> range_full(ll),
    ensures
        final(tree).wf(),
        final(tree).nodes().len() == old(tree).nodes().len(),
        list_at(old(tree).nodes(), list) is None ==> r@.len() == 0 && final(tree).nodes()
            == old(tree).nodes(),
        list_at(old(tree).nodes(), list) matches Some(ll) ==> exists|mid: Seq<Option<Node<N>>>|
            #[trigger] subtrees_removed(old(tree).nodes(), mid, rows_leaving(ll, first, end)) && (
            match list_at(mid, list) {
                Some(left) => {
                    &&& list_at(final(tree).nodes(), list) is Some
                    &&& list_trimmed(
                        left,
                        list_at(final(tree).nodes(), list)->0,
                        first,
                        end,
                    )
                    &&& final(tree).nodes() == mid.update(
                        list.index as int,
                        Some(
                            Node {
                                lazy_list: list_at(final(tree).nodes(), list),
                                ..node_at(mid, list)
                            },
                        ),
                    )
                },
                None => final(tree).nodes() == mid,
            }),
        forall|id: NodeId| #[trigger]
            r@.contains(id) <==> live(old(tree).nodes(), id) && !live(final(tree).nodes(), id),
        final(tree).root_ids() == still_there(old(tree).root_ids(), final(tree).nodes()),
        final(tree).dirty_mask() == dirty::marked_if(
            old(tree).dirty_mask(),
            r@.len() > 0,
            dirty::TREE,
        ),
{
    let ghost before = tree.nodes();
    let ghost roots = tree.root_ids();
    let mut leaving: Vec<NodeId> = Vec::new();
    let mut staying: Vec<NodeId> = Vec::new();
    let mut stay: [u32; 2] = [0, 0];
    let mut found: bool = false;
    if let Some(n) = tree.get(list) {
        if let Some(ll) = &n.lazy_list {
            found = true;
            stay = overlap(ll.range, first, end);
            let lo: usize = (stay[0] - ll.range[0]) as usize;
            let hi: usize = (stay[1] - ll.range[0]) as usize;
            let count: usize = ll.materialized.len();
            let mut i: usize = 0;
            while i < count
                invariant
                    i <= count,
                    count == ll.materialized@.len(),
                    lo <= hi <= count,
                    leaving@ == if i <= lo {
                        ll.materialized@.take(i as int)
                    } else if i <= hi {
                        ll.materialized@.take(lo as int)
                    } else {
                        ll.materialized@.take(lo as int) + ll.materialized@.subrange(
                            hi as int,
                            i as int,
                        )
                    },
                    staying@ == if i <= lo {
                        Seq::<NodeId>::empty()
                    } else if i <= hi {
                        ll.materialized@.subrange(lo as int, i as int)
                    } else {
                        ll.materialized@.subrange(lo as int, hi as int)
                    },
                decreases count - i,
            {
                let row: NodeId = ll.materialized[i];
                let ghost out = leaving@;
                let ghost kept = staying@;
                if lo <= i && i < hi {
                    staying.push(row);
                    assert(staying@ =~= ll.materialized@.subrange(lo as int, i + 1));
                } else {
                    leaving.push(row);
                    if i < lo {
                        assert(leaving@ =~= ll.materialized@.take(i + 1));
                    } else {
                        assert(leaving@ =~= ll.materialized@.take(lo as int)
                            + ll.materialized@.subrange(hi as int, i + 1));
                    }
                }
                i = i + 1;
            }
            assert(staying@ =~= ll.materialized@.subrange(lo as int, hi as int));
            assert(leaving@ =~= rows_leaving(*ll, first, end));
        }
    }
    if !found {
        proof {
            nothing_removed_yet(before, roots);
        }
        return leaving;
    }
    let gone: Vec<NodeId> = remove_all(tree, &leaving);
    let ghost mid = tree.nodes();
    let ghost ll = list_at(before, list)->0;
    assert(subtrees_removed(before, mid, leaving@));
    if let Some(left) = tree.take_lazy_list(list) {
        let mut ll = left;
        let ghost was = ll;
        ll.materialized = staying;
        ll.range = stay;
        tree.set_lazy_list(list, ll);
        proof {
            assert(survives(
                before[list.index as int],
                mid[list.index as int],
                below_any(before, leaving@, leaving@.len() as int, list.index as int),
                mid,
            ));
            assert(list_trimmed(was, ll, first, end));
            assert(tree.nodes() =~= mid.update(
                list.index as int,
                Some(Node { lazy_list: Some(ll), ..node_at(mid, list) }),
            ));
            same_liveness_same_roots(roots, mid, tree.nodes());
            assert forall|id: NodeId| #[trigger] gone@.contains(id) <==> live(before, id) && !live(
                tree.nodes(),
                id,
            ) by {}
        }
    } else {
        proof {
            if live(mid, list) {
                assert(mid.update(
                    list.index as int,
                    Some(Node { lazy_list: None, ..node_at(mid, list) }),
                ) =~= mid);
            }
        }
    }
    gone
}

fn overlap(range: [u32; 2], first: u32, end: u32) -> (r: [u32; 2])
    requires
        range[0] <= range[1],
    ensures
        r == rows_staying(range, first, end),
        range[0] <= r[0] <= r[1] <= range[1],
{
    let lo: u32 = if range[0] < first {
        first
    } else {
        range[0]
    };
    let hi: u32 = if end < range[1] {
        end
    } else {
        range[1]
    };
    if lo < hi {
        [lo, hi]
    } else {
        [range[0], range[0]]
    }
}

/// A row that lies in the old range and in the window is the same node before
/// and after the rows that left were removed.
pub proof fn rows_in_view_stay<N>(
    before: LazyListState<N>,
    after: LazyListState<N>,
    first: u32,
    end: u32,
    row: int,
)
    requires
        range_full(before),
        list_trimmed(before, after, first, end),
        before.range[0] <= row < before.range[1],
        first <= row < end,
    ensures
        after.range[0] <= row < after.range[1],
        after.materialized@[row - after.range[0]] == before.materialized@[row - before.range[0]],
        range_full(after),
{
}

/// The node that rendering a row has added to a list that had `before`
/// children.
pub fn new_row<N: Num>(tree: &NodeTree<N>, list: NodeId, before: usize) -> (r: Option<NodeId>)
    ensures
        r == (if live(tree.nodes(), list) && before < node_at(tree.nodes(), list).children@.len() {
            Some(node_at(tree.nodes(), list).children@[before as int])
        } else {
            None
        }),
{
    match tree.get(list) {
        Some(n) => if before < n.children.len() {
            Some(n.children[before])
        } else {
            None
        },
        None => None,
    }
}

/// Puts a rendered row at the top of row `i` of its list.
pub fn place_row<N: Num>(tree: &mut NodeTree<N>, list: NodeId, row: NodeId, i: u32)
    requires
        old(tree).wf(),
    ensures
        final(tree).wf(),
        final(tree).root_ids() == old(tree).root_ids(),
        final(tree).dirty_mask() == old(tree).dirty_mask(),
        ({
            let top = match list_at(old(tree).nodes(), list) {
                Some(ll) => ll.row_top(i),
                None => zero(),
            };
            final(tree).nodes() == abs_placed(old(tree).nodes(), row, [zero(), top])
        }),
{
    let z: N = N::of_ratio(0, 1);
    let top: N = match tree.get(list) {
        Some(n) => match &n.lazy_list {
            Some(ll) => ll.row_top_logical(i),
            None => z,
        },
        None => z,
    };
    assert(top == (match list_at(tree.nodes(), list) {
        Some(ll) => ll.row_top(i),
        None => zero(),
    }));
    tree.place_abs(row, [z, top]);
}

/// Notes the rows that were rendered.
pub fn commit_rows<N: Num>(tree: &mut NodeTree<N>, list: NodeId, rows: Vec<NodeId>, range: [u32; 2])
    requires
        old(tree).wf(),
    ensures
        final(tree).wf(),
        final(tree).root_ids() == old(tree).root_ids(),
        final(tree).dirty_mask() == old(tree).dirty_mask(),
        final(tree).nodes() == (match list_at(old(tree).nodes(), list) {
            None => old(tree).nodes(),
            Some(ll) => old(tree).nodes().update(
                list.index as int,
                Some(
                    Node {
                        lazy_list: Some(
                            LazyListState {
                                materialized: rows,
                                range,
                                last_seen_version: ll.version,
                                placed_heights_version: ll.heights_version,
                                ..ll
                            },
                        ),
                        ..node_at(old(tree).nodes(), list)
                    },
                ),
            ),
        }),
{
    let ghost before = tree.nodes();
    let ghost given = rows;
    if let Some(list_state) = tree.take_lazy_list(list) {
        let mut ll = list_state;
        let ghost was = ll;
        ll.materialized = rows;
        ll.range = range;
        ll.last_seen_version = ll.version;
        ll.placed_heights_version = ll.heights_version;
        tree.set_lazy_list(list, ll);
        assert(tree.nodes() =~= before.update(
            list.index as int,
            Some(
                Node {
                    lazy_list: Some(
                        LazyListState {
                            materialized: given,
                            range,
                            last_seen_version: was.version,
                            placed_heights_version: was.heights_version,
                            ..was
                        },
                    ),
                    ..node_at(before, list)
                },
            ),
        ));
    } else {
        proof {
            if live(before, list) {
                assert(before.update(
                    list.index as int,
                    Some(Node { lazy_list: None, ..node_at(before, list) }),
                ) =~= before);
            }
        }
    }
}

/// A node lies at an offset within its parent.
pub open spec fn lies_at<N: Num>(nodes: Seq<Option<Node<N>>>, id: NodeId, pos: [N; 2]) -> bool {
    &&& live(nodes, id)
    &&& node_at(nodes, id).layout.abs is Some
    &&& node_at(nodes, id).layout.abs->0 == pos || equals2(node_at(nodes, id).layout.abs->0, pos)
}

/// Each rendered row of a list lies at its top.
pub open spec fn rows_lie_at_their_tops<N: Num>(
    nodes: Seq<Option<Node<N>>>,
    ll: LazyListState<N>,
) -> bool {
    forall|k: int|
        0 <= k < ll.materialized@.len() ==> lies_at(
            nodes,
            #[trigger] ll.materialized@[k],
            [zero(), ll.row_top((ll.range[0] + k) as u32)],
        )
}

/// A node that is put somewhere lies there, and no other is moved by it.
pub proof fn placing_moves_one_node<N: Num>(
    nodes: Seq<Option<Node<N>>>,
    id: NodeId,
    pos: [N; 2],
    other: NodeId,
    at: [N; 2],
)
    ensures
        live(nodes, id) ==> lies_at(abs_placed(nodes, id, pos), id, pos),
        other != id && lies_at(nodes, other, at) ==> lies_at(abs_placed(nodes, id, pos), other, at),
        live(abs_placed(nodes, id, pos), other) == live(nodes, other),
        list_at(abs_placed(nodes, id, pos), other) == list_at(nodes, other),
{
    if other.index == id.index {
        assert(other == id);
    }
}

/// Once the rows of a list were put at their tops, they lie there: each of
/// the first `n`, whatever the others.
pub proof fn placed_rows_lie_at_their_tops<N: Num>(
    nodes: Seq<Option<Node<N>>>,
    ll: LazyListState<N>,
    n: nat,
)
    requires
        n <= ll.materialized@.len(),
        ll.materialized@.no_duplicates(),
        forall|k: int| 0 <= k < ll.materialized@.len() ==> live(nodes, #[trigger] ll.materialized@[k]),
    ensures
        forall|k: int|
            0 <= k < n ==> lies_at(
                rows_placed(nodes, ll, n),
                #[trigger] ll.materialized@[k],
                [zero(), ll.row_top((ll.range[0] + k) as u32)],
            ),
        forall|k: int|
            0 <= k < ll.materialized@.len() ==> live(
                rows_placed(nodes, ll, n),
                #[trigger] ll.materialized@[k],
            ),
        n == ll.materialized@.len() ==> rows_lie_at_their_tops(rows_placed(nodes, ll, n), ll),
    decreases n,
{
    if n > 0 {
        let m = (n - 1) as nat;
        let before = rows_placed(nodes, ll, m);
        placed_rows_lie_at_their_tops(nodes, ll, m);
        let row = ll.materialized@[m as int];
        let pos = [zero::<N>(), ll.row_top((ll.range[0] + m) as u32)];
        let after = rows_placed(nodes, ll, n);
        assert(after == abs_placed(before, row, pos));
        assert(live(before, row));
        assert forall|k: int| 0 <= k < ll.materialized@.len() implies live(
            after,
            #[trigger] ll.materialized@[k],
        ) && (k < n ==> lies_at(
            after,
            ll.materialized@[k],
            [zero(), ll.row_top((ll.range[0] + k) as u32)],
        )) by {
            let at = [zero::<N>(), ll.row_top((ll.range[0] + k) as u32)];
            assert(live(before, ll.materialized@[k]));
            placing_moves_one_node(before, row, pos, ll.materialized@[k], at);
            if k < m {
                assert(lies_at(before, ll.materialized@[k], at));
            }
        }
    }
}

/// Rows that lie at their tops when they are noted lie there afterwards, and
/// are then what the list holds.
pub proof fn noted_rows_lie_at_their_tops<N: Num>(
    nodes: Seq<Option<Node<N>>>,
    list: NodeId,
    noted: LazyListState<N>,
)
    requires
        live(nodes, list),
        rows_lie_at_their_tops(nodes, noted),
    ensures
        ({
            let after = nodes.update(
                list.index as int,
                Some(Node { lazy_list: Some(noted), ..node_at(nodes, list) }),
            );
            list_at(after, list) == Some(noted) && rows_lie_at_their_tops(after, noted)
        }),
{
    let after = nodes.update(
        list.index as int,
        Some(Node { lazy_list: Some(noted), ..node_at(nodes, list) }),
    );
    assert forall|k: int| 0 <= k < noted.materialized@.len() implies lies_at(
        after,
        #[trigger] noted.materialized@[k],
        [zero(), noted.row_top((noted.range[0] + k) as u32)],
    ) by {
        assert(lies_at(
            nodes,
            noted.materialized@[k],
            [zero(), noted.row_top((noted.range[0] + k) as u32)],
        ));
    }
}

/// Heights that changed since the rows were put in place are noticed, also
/// after the tops were computed anew: with the same window and the same
/// version the rows are put elsewhere, and then kept.
pub proof fn changed_heights_move_the_rows<N: Num>(
    before: Option<Node<N>>,
    after: Option<Node<N>>,
)
    requires
        list_freshened(before, after),
        before is Some,
        before->0.lazy_list is Some,
        before->0.lazy_list->0.version == before->0.lazy_list->0.last_seen_version,
    ensures
        ({
            let was = before->0.lazy_list->0;
            let ll = after->0.lazy_list->0;
            let seen = LazyListState { placed_heights_version: ll.heights_version, ..ll };
            &&& plan_of(ll, ll.range) == if was.heights_version == was.placed_heights_version {
                ListPlan::Keep
            } else {
                ListPlan::Reposition
            }
            &&& plan_of(seen, seen.range) == ListPlan::Keep
        }),
{
}

/// The rows of `first..end` that lie outside a range, in order.
pub open spec fn rows_missing(range: [u32; 2], first: u32, end: u32) -> Seq<u32>
    decreases end,
{
    if end <= first {
        Seq::empty()
    } else {
        let row = (end - 1) as u32;
        let before = rows_missing(range, first, row);
        if range[0] <= row < range[1] {
            before
        } else {
            before.push(row)
        }
    }
}

/// Those rows are exactly the rows of the window that the range lacks, each
/// once and in order.
pub proof fn missing_rows_are_those_outside(range: [u32; 2], first: u32, end: u32)
    ensures
        forall|row: u32| #[trigger]
            rows_missing(range, first, end).contains(row) <==> first <= row < end && !(range[0]
                <= row < range[1]),
        forall|i: int, j: int|
            0 <= i < j < rows_missing(range, first, end).len() ==> rows_missing(
                range,
                first,
                end,
            )[i] < rows_missing(range, first, end)[j],
    decreases end,
{
    if end > first {
        let last = (end - 1) as u32;
        let before = rows_missing(range, first, last);
        let all = rows_missing(range, first, end);
        missing_rows_are_those_outside(range, first, last);
        assert forall|i: int| 0 <= i < before.len() implies #[trigger] before[i] < last by {
            assert(before.contains(before[i]));
        }
        assert forall|row: u32| #[trigger] all.contains(row) <==> first <= row < end && !(range[0]
            <= row < range[1]) by {
            if all.contains(row) {
                let k = choose|k: int| 0 <= k < all.len() && all[k] == row;
                if k < before.len() {
                    assert(before[k] == row);
                    assert(before.contains(row));
                }
            }
            if before.contains(row) {
                let k = choose|k: int| 0 <= k < before.len() && before[k] == row;
                assert(all[k] == row);
            }
            if row == last && !(range[0] <= row < range[1]) {
                assert(all[before.len() as int] == row);
            }
        }
    }
}

/// The rows of a window that have to be rendered: those that are not in the
/// list's range yet.
pub fn rows_to_render<N: Num>(tree: &NodeTree<N>, list: NodeId, first: u32, end: u32) -> (r: Vec<
    u32,
>)
    ensures
        r@ == (match list_at(tree.nodes(), list) {
            Some(ll) => rows_missing(ll.range, first, end),
            None => Seq::empty(),
        }),
{
    let mut out: Vec<u32> = Vec::new();
    let range: [u32; 2] = match tree.get(list) {
        Some(n) => match &n.lazy_list {
            Some(ll) => ll.range,
            None => return out,
        },
        None => return out,
    };
    let mut i: u32 = first;
    while i < end
        invariant
            first <= i,
            i <= end || i == first,
            out@ == rows_missing(range, first, i),
        decreases end - i,
    {
        if !(range[0] <= i && i < range[1]) {
            out.push(i);
        }
        i = i + 1;
    }
    assert(out@ =~= rows_missing(range, first, end));
    out
}

/// The nodes of the rows `first..end`, in order: those in the range are what
/// they were, the others what rendering them gave, if anything.
pub open spec fn rows_merged(
    range: [u32; 2],
    staying: Seq<NodeId>,
    rendered: Seq<Option<NodeId>>,
    first: u32,
    end: u32,
) -> Seq<NodeId>
    decreases end,
{
    if end <= first {
        Seq::empty()
    } else {
        let row = (end - 1) as u32;
        let before = rows_merged(range, staying, rendered, first, row);
        if range[0] <= row < range[1] {
            if row - range[0] < staying.len() {
                before.push(staying[row - range[0]])
            } else {
                before
            }
        } else {
            let k = rows_missing(range, first, row).len() as int;
            if k < rendered.len() && rendered[k] is Some {
                before.push(rendered[k]->0)
            } else {
                before
            }
        }
    }
}

/// A list after the rows of a window were noted.
pub open spec fn list_noted<N>(
    before: LazyListState<N>,
    after: LazyListState<N>,
    rendered: Seq<Option<NodeId>>,
    first: u32,
    end: u32,
) -> bool {
    &&& after == (LazyListState {
        materialized: after.materialized,
        range: [first, end],
        last_seen_version: before.version,
        placed_heights_version: before.heights_version,
        ..before
    })
    &&& after.materialized@ == rows_merged(
        before.range,
        before.materialized@,
        rendered,
        first,
        end,
    )
}

/// The nodes after the rows of a window were noted, and put at their tops if
/// each of them is a node.
pub open spec fn rows_finished<N: Num>(
    before: Seq<Option<Node<N>>>,
    after: Seq<Option<Node<N>>>,
    list: NodeId,
    rendered: Seq<Option<NodeId>>,
    first: u32,
    end: u32,
) -> bool {
    match list_at(before, list) {
        None => after == before,
        Some(ll) => {
            &&& list_at(after, list) matches Some(noted)
            &&& list_noted(ll, noted, rendered, first, end)
            &&& after == ({
                let marked = before.update(
                    list.index as int,
                    Some(Node { lazy_list: Some(noted), ..node_at(before, list) }),
                );
                if range_full(noted) {
                    rows_placed(marked, noted, noted.materialized@.len())
                } else {
                    marked
                }
            })
        },
    }
}

/// Ends a pass over the rows of a list: `rendered` is what rendering the
/// missing rows of the window has given, one entry for each.
pub fn finish_rows<N: Num>(
    tree: &mut NodeTree<N>,
    list: NodeId,
    rendered: &Vec<Option<NodeId>>,
    first: u32,
    end: u32,
)
    requires
        old(tree).wf(),
    ensures
        final(tree).wf(),
        final(tree).root_ids() == old(tree).root_ids(),
        final(tree).dirty_mask() == old(tree).dirty_mask(),
        rows_finished(old(tree).nodes(), final(tree).nodes(), list, rendered@, first, end),
{
    let ghost before = tree.nodes();
    let mut rows: Vec<NodeId> = Vec::new();
    match tree.get(list) {
        Some(n) => match &n.lazy_list {
            Some(ll) => {
                let range: [u32; 2] = ll.range;
                let mut k: usize = 0;
                let mut i: u32 = first;
                while i < end
                    invariant
                        first <= i,
                        i <= end || i == first,
                        range == ll.range,
                        k <= i - first,
                        k == rows_missing(range, first, i).len(),
                        rows@ == rows_merged(range, ll.materialized@, rendered@, first, i),
                        rows@.len() <= i - first,
                    decreases end - i,
                {
                    if range[0] <= i && i < range[1] {
                        let at: usize = (i - range[0]) as usize;
                        if at < ll.materialized.len() {
                            rows.push(ll.materialized[at]);
                        }
                    } else {
                        if k < rendered.len() {
                            if let Some(row) = rendered[k] {
                                rows.push(row);
                            }
                        }
                        k = k + 1;
                    }
                    i = i + 1;
                }
                assert(rows@ =~= rows_merged(range, ll.materialized@, rendered@, first, end));
            },
            None => return,
        },
        None => return,
    }
    let ghost ll = list_at(before, list)->0;
    let full: bool = first <= end && rows.len() == (end - first) as usize;
    commit_rows(tree, list, rows, [first, end]);
    let ghost marked = tree.nodes();
    let ghost noted = list_at(marked, list)->0;
    assert(list_noted(ll, noted, rendered@, first, end));
    if full {
        reposition_rows(tree, list);
        proof {
            let seen = LazyListState { placed_heights_version: noted.heights_version, ..noted };
            assert(seen == noted);
            assert(marked.update(
                list.index as int,
                Some(Node { lazy_list: Some(seen), ..node_at(marked, list) }),
            ) =~= marked);
            placing_keeps_lists(marked, noted, noted.materialized@.len(), list);
        }
    }
}

proof fn placing_keeps_lists<N: Num>(
    nodes: Seq<Option<Node<N>>>,
    ll: LazyListState<N>,
    n: nat,
    list: NodeId,
)
    ensures
        list_at(rows_placed(nodes, ll, n), list) == list_at(nodes, list),
        live(rows_placed(nodes, ll, n), list) == live(nodes, list),
        live(nodes, list) ==> node_at(rows_placed(nodes, ll, n), list).scroll == node_at(
            nodes,
            list,
        ).scroll && node_at(rows_placed(nodes, ll, n), list).rect == node_at(nodes, list).rect,
    decreases n,
{
    if n > 0 {
        placing_keeps_lists(nodes, ll, (n - 1) as nat, list);
        placing_moves_one_node(
            rows_placed(nodes, ll, (n - 1) as nat),
            ll.materialized@[n - 1],
            [zero(), ll.row_top((ll.range[0] + n - 1) as u32)],
            list,
            [zero(), zero()],
        );
    }
}

/// The tops of a list's rows are in order where the window is looked for, if
/// it has a table of them: its window is then a certain one.
pub open spec fn window_certain<N: Num>(n: Node<N>, ll: LazyListState<N>, scale: N) -> bool {
    ||| ll.prefix@.len() == 0
    ||| split_at_most(ll.prefix@, logical_top(scroll_top_of(n), scale)) && split_below(
        ll.prefix@,
        logical_bottom(scroll_top_of(n), n.rect[3], scale),
    )
}

/// A list is in step with what is visible: its rows are those of the window,
/// each is a node and lies at its top, and nothing of it changed since.
pub open spec fn in_step<N: Num>(nodes: Seq<Option<Node<N>>>, list: NodeId, scale: N) -> bool {
    &&& list_at(nodes, list) matches Some(ll)
    &&& window_is(
        ll,
        scroll_top_of(node_at(nodes, list)),
        node_at(nodes, list).rect[3],
        scale,
        ll.range,
    )
    &&& range_full(ll)
    &&& rows_lie_at_their_tops(nodes, ll)
    &&& ll.version == ll.last_seen_version
    &&& ll.heights_version == ll.placed_heights_version
}

/// A list that is in step is left alone: the plan for it is to keep its rows,
/// so that a second pass right after the first renders nothing.
pub proof fn lists_in_step_are_kept<N: Num>(
    nodes: Seq<Option<Node<N>>>,
    list: NodeId,
    scale: N,
    w: [u32; 2],
)
    requires
        in_step(nodes, list, scale),
        window_certain(node_at(nodes, list), list_at(nodes, list)->0, scale),
        window_is(
            list_at(nodes, list)->0,
            scroll_top_of(node_at(nodes, list)),
            node_at(nodes, list).rect[3],
            scale,
            w,
        ),
    ensures
        plan_of(list_at(nodes, list)->0, w) == ListPlan::Keep,
{
    assert(w =~= list_at(nodes, list)->0.range);
}

/// A pass brings a list in step. `nodes` are the nodes once the missing rows
/// of the window were rendered, `after` those after the pass; every missing
/// row has become a node, and all rows of the window are nodes of their own.
pub proof fn a_pass_brings_the_list_in_step<N: Num>(
    nodes: Seq<Option<Node<N>>>,
    after: Seq<Option<Node<N>>>,
    list: NodeId,
    rendered: Seq<Option<NodeId>>,
    w: [u32; 2],
    scale: N,
)
    requires
        list_at(nodes, list) is Some,
        range_full(list_at(nodes, list)->0),
        w[0] <= w[1],
        window_is(
            list_at(nodes, list)->0,
            scroll_top_of(node_at(nodes, list)),
            node_at(nodes, list).rect[3],
            scale,
            w,
        ),
        rendered.len() == rows_missing(list_at(nodes, list)->0.range, w[0], w[1]).len(),
        forall|k: int| 0 <= k < rendered.len() ==> (#[trigger] rendered[k]) is Some,
        ({
            let ll = list_at(nodes, list)->0;
            let rows = rows_merged(ll.range, ll.materialized@, rendered, w[0], w[1]);
            rows.no_duplicates() && forall|k: int|
                0 <= k < rows.len() ==> live(nodes, #[trigger] rows[k])
        }),
        rows_finished(nodes, after, list, rendered, w[0], w[1]),
    ensures
        in_step(after, list, scale),
        list_at(after, list)->0.range == w,
        list_at(after, list)->0.materialized@.len() == w[1] - w[0],
{
    let ll = list_at(nodes, list)->0;
    let noted = list_at(after, list)->0;
    let rows = rows_merged(ll.range, ll.materialized@, rendered, w[0], w[1]);
    merged_rows_fill_the_window(ll, rendered, w[0], w[1], w[1]);
    let marked = nodes.update(
        list.index as int,
        Some(Node { lazy_list: Some(noted), ..node_at(nodes, list) }),
    );
    assert forall|k: int| 0 <= k < rows.len() implies live(
        marked,
        #[trigger] noted.materialized@[k],
    ) by {
        assert(live(nodes, rows[k]));
    }
    placed_rows_lie_at_their_tops(marked, noted, rows.len());
    placing_keeps_lists(marked, noted, rows.len(), list);
    assert(noted.range =~= w);
}

/// With every missing row rendered, the rows of the window are all nodes.
proof fn merged_rows_fill_the_window<N>(
    ll: LazyListState<N>,
    rendered: Seq<Option<NodeId>>,
    first: u32,
    end: u32,
    full: u32,
)
    requires
        range_full(ll),
        first <= end <= full,
        rendered.len() == rows_missing(ll.range, first, full).len(),
        forall|k: int| 0 <= k < rendered.len() ==> (#[trigger] rendered[k]) is Some,
    ensures
        rows_merged(ll.range, ll.materialized@, rendered, first, end).len() == end - first,
    decreases end,
{
    if first < end {
        let row = (end - 1) as u32;
        merged_rows_fill_the_window(ll, rendered, first, row, full);
        missing_rows_grow(ll.range, first, end, full);
        let k = rows_missing(ll.range, first, row).len() as int;
        if !(ll.range[0] <= row < ll.range[1]) {
            assert(rendered[k] is Some);
        }
    }
}

proof fn missing_rows_grow(range: [u32; 2], first: u32, end: u32, full: u32)
    requires
        end <= full,
    ensures
        rows_missing(range, first, end).len() <= rows_missing(range, first, full).len(),
    decreases full,
{
    if end < full {
        missing_rows_grow(range, first, end, (full - 1) as u32);
    }
}

/// Putting the rows elsewhere after heights changed brings a list in step that
/// has the rows of the window.
pub proof fn repositioning_brings_the_list_in_step<N: Num>(
    nodes: Seq<Option<Node<N>>>,
    list: NodeId,
    scale: N,
)
    requires
        list_at(nodes, list) is Some,
        ({
            let ll = list_at(nodes, list)->0;
            &&& range_full(ll)
            &&& ll.version == ll.last_seen_version
            &&& window_is(
                ll,
                scroll_top_of(node_at(nodes, list)),
                node_at(nodes, list).rect[3],
                scale,
                ll.range,
            )
            &&& ll.materialized@.no_duplicates()
            &&& forall|k: int|
                0 <= k < ll.materialized@.len() ==> live(nodes, #[trigger] ll.materialized@[k])
        }),
    ensures
        ({
            let ll = list_at(nodes, list)->0;
            let seen = LazyListState { placed_heights_version: ll.heights_version, ..ll };
            let marked = nodes.update(
                list.index as int,
                Some(Node { lazy_list: Some(seen), ..node_at(nodes, list) }),
            );
            in_step(rows_placed(marked, seen, seen.materialized@.len()), list, scale)
        }),
{
    let ll = list_at(nodes, list)->0;
    let seen = LazyListState { placed_heights_version: ll.heights_version, ..ll };
    let marked = nodes.update(
        list.index as int,
        Some(Node { lazy_list: Some(seen), ..node_at(nodes, list) }),
    );
    assert forall|k: int| 0 <= k < seen.materialized@.len() implies live(
        marked,
        #[trigger] seen.materialized@[k],
    ) by {
        assert(live(nodes, ll.materialized@[k]));
    }
    placed_rows_lie_at_their_tops(marked, seen, seen.materialized@.len());
    placing_keeps_lists(marked, seen, seen.materialized@.len(), list);
}

/// Once the rows of a window were rendered and noted, nothing is left to do
/// until something changes: the same window plans to keep them.
pub proof fn rendered_rows_are_kept<N>(ll: LazyListState<N>, rows: Vec<NodeId>, w: [u32; 2])
    ensures
        plan_of(
            LazyListState {
                materialized: rows,
                range: w,
                last_seen_version: ll.version,
                placed_heights_version: ll.heights_version,
                ..ll
            },
            w,
        ) == ListPlan::Keep,
{
}

/// What is done with a list is what it needs and no more: rows are rendered
/// anew where they may look otherwise, in part where only the window moved, and
/// put elsewhere where only heights changed. Where nothing changed it is kept.
pub proof fn lists_get_what_they_need<N>(ll: LazyListState<N>, w: [u32; 2])
    ensures
        ({
            let p = plan_of(ll, w);
            let changed = ll.version != ll.last_seen_version;
            let full = ll.materialized@.len() == ll.range[1] - ll.range[0];
            &&& p is Keep <==> !changed && w == ll.range && ll.heights_version
                == ll.placed_heights_version
            &&& p is Reposition <==> !changed && w == ll.range && ll.heights_version
                != ll.placed_heights_version
            &&& p is Shift <==> !changed && w != ll.range && full
            &&& p is Rebuild <==> changed || (w != ll.range && !full)
            &&& p matches ListPlan::Shift { first, end } ==> first == w[0] && end == w[1]
            &&& p matches ListPlan::Rebuild { first, end } ==> first == w[0] && end == w[1]
        }),
{
}

/// The nodes that leave are those of the rows outside the window, and those of
/// the rows inside stay: every rendered row is on one side or the other.
pub proof fn rows_outside_the_window_leave<N>(
    ll: LazyListState<N>,
    first: u32,
    end: u32,
    k: int,
)
    requires
        0 <= k < ll.materialized@.len(),
        ll.range[0] + ll.materialized@.len() == ll.range[1],
    ensures
        ({
            let row = ll.range[0] + k;
            let stay = rows_staying(ll.range, first, end);
            &&& first <= row < end <==> stay[0] <= row < stay[1]
            &&& !(first <= row < end) ==> rows_leaving(ll, first, end).contains(
                ll.materialized@[k],
            )
            &&& rows_leaving(ll, first, end).len() == ll.materialized@.len() - (stay[1] - stay[0])
        }),
{
    let stay = rows_staying(ll.range, first, end);
    let row = ll.range[0] + k;
    let (a, b) = (stay[0] - ll.range[0], stay[1] - ll.range[0]);
    let out = rows_leaving(ll, first, end);
    if !(first <= row < end) {
        if k < a {
            assert(out[k] == ll.materialized@[k]);
        } else {
            assert(k >= b);
            assert(out[a + (k - b)] == ll.materialized@[k]);
        }
    }
}

/// The nodes that have a list are listed, each in the order in which it was
/// added, and no other is.
pub proof fn lists_are_listed<N>(nodes: Seq<Option<Node<N>>>, n: nat, id: NodeId)
    requires
        n <= nodes.len() <= u32::MAX,
    ensures
        list_ids(nodes, n).contains(id) <==> id.index < n && live(nodes, id) && node_at(
            nodes,
            id,
        ).lazy_list is Some,
        forall|i: int, j: int|
            0 <= i < j < list_ids(nodes, n).len() ==> (#[trigger] list_ids(nodes, n)[i]).index < (
            #[trigger] list_ids(nodes, n)[j]).index,
        forall|i: int| 0 <= i < list_ids(nodes, n).len() ==> (#[trigger] list_ids(nodes, n)[i]).index < n,
    decreases n,
{
    if n > 0 {
        lists_are_listed(nodes, (n - 1) as nat, id);
        let before = list_ids(nodes, (n - 1) as nat);
        let after = list_ids(nodes, n);
        if nodes[n - 1] is Some && nodes[n - 1]->0.lazy_list is Some {
            assert(after.last().index == n - 1);
            if before.contains(id) {
                let j = choose|j: int| 0 <= j < before.len() && before[j] == id;
                assert(after[j] == id);
            }
            if id.index == n - 1 {
                assert(after[before.len() as int] == id);
            }
            if after.contains(id) && id.index != n - 1 {
                let j = choose|j: int| 0 <= j < after.len() && after[j] == id;
                assert(before[j] == id);
            }
        }
    }
}

} // verus!
