//! Keyboard focus.
use vstd::prelude::*;

use crate::input::same_node;
use crate::node::tree::{forest_size, live, node_at, Node, NodeTree};
use crate::node::NodeId;
use crate::num::{computes_exactly, fractions_are_exact, zero, Num};
use crate::signal::{store_written, Cell, SignalId, Signals, Value};

verus! {

/// The rectangle reaches into the viewport.
pub open spec fn on_screen<N: Num>(r: [N; 4], viewport: [N; 2]) -> bool {
    &&& r[0].below(viewport[0])
    &&& r[1].below(viewport[1])
    &&& zero::<N>().below(r[0].sum(r[2]))
    &&& zero::<N>().below(r[1].sum(r[3]))
}

/// The node can take the focus: it has a place in the Tab order, is visible,
/// and is on the screen.
pub open spec fn focusable<N: Num>(
    nodes: Seq<Option<Node<N>>>,
    viewport: [N; 2],
    id: NodeId,
) -> bool {
    &&& live(nodes, id)
    &&& node_at(nodes, id).layout.focus_order != 0
    &&& node_at(nodes, id).visible
    &&& on_screen(node_at(nodes, id).rect, viewport)
}

/// `a` comes before `b` in the Tab order; nodes with the same place come in
/// the order in which they were added.
pub open spec fn tabs_before<N: Num>(nodes: Seq<Option<Node<N>>>, a: NodeId, b: NodeId) -> bool {
    let p = node_at(nodes, a).layout.focus_order;
    let q = node_at(nodes, b).layout.focus_order;
    p < q || (p == q && a.index < b.index)
}

/// `ring` lists the nodes that can take the focus, in Tab order.
pub open spec fn is_tab_ring<N: Num>(
    nodes: Seq<Option<Node<N>>>,
    viewport: [N; 2],
    ring: Seq<NodeId>,
) -> bool {
    &&& forall|a: int|
        0 <= a < ring.len() ==> focusable(nodes, viewport, #[trigger] ring[a])
    &&& forall|a: int, b: int|
        0 <= a < b < ring.len() ==> tabs_before(nodes, #[trigger] ring[a], #[trigger] ring[b])
    &&& forall|id: NodeId| #[trigger] focusable(nodes, viewport, id) ==> ring.contains(id)
}

fn can_focus<N: Num>(n: &Node<N>, viewport: [N; 2]) -> (r: bool)
    ensures
        r == (n.layout.focus_order != 0 && n.visible && on_screen(n.rect, viewport)),
{
    let z = N::of_ratio(0, 1);
    let q = n.rect;
    n.layout.focus_order != 0 && n.visible && q[0].lt(viewport[0]) && q[1].lt(viewport[1]) && z.lt(
        q[0].plus(q[2]),
    ) && z.lt(q[1].plus(q[3]))
}

/// The nodes that can take the focus, in Tab order.
pub fn tab_ring<N: Num>(tree: &NodeTree<N>, viewport: [N; 2]) -> (r: Vec<NodeId>)
    requires
        tree.wf(),
    ensures
        is_tab_ring(tree.nodes(), viewport, r@),
{
    let ghost nodes = tree.nodes();
    proof {
        forest_size(nodes, tree.root_ids());
    }
    let n: usize = tree.capacity();
    let mut ring: Vec<NodeId> = Vec::new();
    let mut orders: Vec<u32> = Vec::new();
    let mut i: usize = 0;
    while i < n
        invariant
            i <= n,
            n == nodes.len(),
            n <= u32::MAX,
            nodes == tree.nodes(),
            ring@.len() == orders@.len(),
            forall|a: int|
                0 <= a < ring@.len() ==> focusable(nodes, viewport, #[trigger] ring@[a])
                    && ring@[a].index < i && orders@[a] == node_at(
                    nodes,
                    ring@[a],
                ).layout.focus_order,
            forall|a: int, b: int|
                0 <= a < b < ring@.len() ==> tabs_before(
                    nodes,
                    #[trigger] ring@[a],
                    #[trigger] ring@[b],
                ),
            forall|id: NodeId|
                id.index < i && #[trigger] focusable(nodes, viewport, id) ==> ring@.contains(id),
        decreases n - i,
    {
        let id: NodeId = NodeId { index: i as u32 };
        let ghost before = ring@;
        let found: Option<u32> = match tree.get(id) {
            Some(node) => if can_focus(node, viewport) {
                Some(node.layout.focus_order)
            } else {
                None
            },
            None => None,
        };
        if let Some(order) = found {
            let mut pos: usize = ring.len();
            while pos > 0 && orders[pos - 1] > order
                invariant
                    pos <= ring@.len(),
                    ring@ == before,
                    ring@.len() == orders@.len(),
                    forall|a: int| pos <= a < ring@.len() ==> orders@[a] > order,
                ensures
                    pos == 0 || orders@[pos - 1] <= order,
                decreases pos,
            {
                pos = pos - 1;
            }
            let ghost old_orders = orders@;
            ring.insert(pos, id);
            orders.insert(pos, order);
            proof {
                let after = ring@;
                assert(after =~= before.insert(pos as int, id));
                assert(orders@ =~= old_orders.insert(pos as int, order));
                assert forall|a: int| 0 <= a < pos implies #[trigger] old_orders[a] <= order by {
                    if a < pos - 1 {
                        assert(tabs_before(nodes, before[a], before[pos - 1]));
                    }
                }
                assert forall|a: int| 0 <= a < after.len() implies focusable(
                    nodes,
                    viewport,
                    #[trigger] after[a],
                ) && after[a].index < i + 1 && orders@[a] == node_at(
                    nodes,
                    after[a],
                ).layout.focus_order by {
                    if a < pos {
                        assert(after[a] == before[a]);
                    } else if a > pos {
                        assert(after[a] == before[a - 1]);
                    }
                }
                assert forall|a: int, b: int| 0 <= a < b < after.len() implies tabs_before(
                    nodes,
                    #[trigger] after[a],
                    #[trigger] after[b],
                ) by {
                    let a0 = if a < pos {
                        a
                    } else {
                        a - 1
                    };
                    let b0 = if b < pos {
                        b
                    } else {
                        b - 1
                    };
                    if a == pos {
                        assert(after[b] == before[b0]);
                        assert(old_orders[b0] > order);
                    } else if b == pos {
                        assert(after[a] == before[a0]);
                        assert(old_orders[a0] <= order);
                    } else {
                        assert(after[a] == before[a0]);
                        assert(after[b] == before[b0]);
                    }
                }
                assert forall|c: NodeId| c.index < i + 1 && #[trigger] focusable(
                    nodes,
                    viewport,
                    c,
                ) implies after.contains(c) by {
                    if c.index == i {
                        assert(c == id);
                        assert(after[pos as int] == c);
                    } else {
                        let a = choose|a: int| 0 <= a < before.len() && before[a] == c;
                        assert(after[if a < pos {
                            a
                        } else {
                            a + 1
                        }] == c);
                    }
                }
            }
        } else {
            assert forall|c: NodeId| c.index < i + 1 && #[trigger] focusable(
                nodes,
                viewport,
                c,
            ) implies ring@.contains(c) by {
                if c.index == i {
                    assert(c == id);
                }
            }
        }
        i = i + 1;
    }
    ring
}

/// The neighbour of `focused` on the ring, wrapping round at the ends. From
/// outside the ring, the first or the last.
pub open spec fn ring_next(ring: Seq<NodeId>, focused: Option<NodeId>, forward: bool) -> Option<
    NodeId,
> {
    let n = ring.len() as int;
    if n == 0 {
        None
    } else if focused is Some && ring.contains(focused->0) {
        let i = ring.index_of(focused->0);
        Some(
            ring[if forward {
                (i + 1) % n
            } else {
                (i + n - 1) % n
            }],
        )
    } else if forward {
        Some(ring[0])
    } else {
        Some(ring[n - 1])
    }
}

proof fn ring_is_injective<N: Num>(
    nodes: Seq<Option<Node<N>>>,
    viewport: [N; 2],
    ring: Seq<NodeId>,
    i: int,
)
    requires
        is_tab_ring(nodes, viewport, ring),
        0 <= i < ring.len(),
    ensures
        ring.contains(ring[i]),
        ring.index_of(ring[i]) == i,
{
    assert(ring[i] == ring[i]);
    let k = ring.index_of(ring[i]);
    if k < i {
        assert(tabs_before(nodes, ring[k], ring[i]));
    } else if i < k {
        assert(tabs_before(nodes, ring[i], ring[k]));
    }
}

/// The node that Tab, or Shift and Tab, moves the focus to.
pub fn focus_next<N: Num>(
    tree: &NodeTree<N>,
    viewport: [N; 2],
    focused: Option<NodeId>,
    forward: bool,
) -> (r: Option<NodeId>)
    requires
        tree.wf(),
    ensures
        exists|ring: Seq<NodeId>| #[trigger]
            is_tab_ring(tree.nodes(), viewport, ring) && r == ring_next(ring, focused, forward),
{
    let ring = tab_ring(tree, viewport);
    let n: usize = ring.len();
    assert(is_tab_ring(tree.nodes(), viewport, ring@));
    if n == 0 {
        return None;
    }
    let mut i: usize = 0;
    while i < n
        invariant
            i <= n,
            n == ring@.len(),
            focused is Some ==> forall|j: int| 0 <= j < i ==> ring@[j] != focused->0,
            is_tab_ring(tree.nodes(), viewport, ring@),
        decreases n - i,
    {
        if let Some(f) = focused {
            if ring[i] == f {
                proof {
                    ring_is_injective(tree.nodes(), viewport, ring@, i as int);
                }
                let next: usize = if forward {
                    if i + 1 == n {
                        0
                    } else {
                        i + 1
                    }
                } else {
                    if i == 0 {
                        n - 1
                    } else {
                        i - 1
                    }
                };
                proof {
                    let m = n as int;
                    if i + 1 < n {
                        assert((i + 1) % m == i + 1) by (nonlinear_arith)
                            requires
                                0 <= i + 1 < m,
                        ;
                    }
                    if i > 0 {
                        assert((i + m - 1) % m == i - 1) by (nonlinear_arith)
                            requires
                                0 < i < m,
                        ;
                    } else {
                        assert((m - 1) % m == m - 1) by (nonlinear_arith)
                            requires
                                0 < m,
                        ;
                    }
                }
                return Some(ring[next]);
            }
        }
        i = i + 1;
    }
    if forward {
        Some(ring[0])
    } else {
        Some(ring[n - 1])
    }
}

/// Tab and Shift with Tab undo each other.
pub proof fn shift_tab_undoes_tab<N: Num>(
    nodes: Seq<Option<Node<N>>>,
    viewport: [N; 2],
    ring: Seq<NodeId>,
    focused: NodeId,
    forward: bool,
)
    requires
        is_tab_ring(nodes, viewport, ring),
        ring.contains(focused),
    ensures
        ring_next(ring, ring_next(ring, Some(focused), forward), !forward) == Some(focused),
{
    let n = ring.len() as int;
    let i = ring.index_of(focused);
    let j = if forward {
        (i + 1) % n
    } else {
        (i + n - 1) % n
    };
    assert(0 <= j < n) by (nonlinear_arith)
        requires
            0 <= i < n,
            j == (i + 1) % n || j == (i + n - 1) % n,
    ;
    ring_is_injective(nodes, viewport, ring, j);
    if forward {
        assert((j + n - 1) % n == i) by (nonlinear_arith)
            requires
                0 <= i < n,
                j == (i + 1) % n,
        {
            if i + 1 < n {
                assert(j == i + 1);
                assert((i + n) % n == i);
            } else {
                assert(j == 0);
            }
        }
    } else {
        assert((j + 1) % n == i) by (nonlinear_arith)
            requires
                0 <= i < n,
                j == (i + n - 1) % n,
        {
            if i > 0 {
                assert(j == i - 1);
            } else {
                assert(j == n - 1);
            }
        }
    }
}

/// The focus after Tab was pressed `k` times.
pub open spec fn tabbed(ring: Seq<NodeId>, focused: Option<NodeId>, k: nat) -> Option<NodeId>
    decreases k,
{
    if k == 0 {
        focused
    } else {
        ring_next(ring, tabbed(ring, focused, (k - 1) as nat), true)
    }
}

/// Tab goes round: pressed as often as there are nodes on the ring it comes
/// back, and on the way it visits each.
pub proof fn tab_goes_round<N: Num>(
    nodes: Seq<Option<Node<N>>>,
    viewport: [N; 2],
    ring: Seq<NodeId>,
    i: int,
    k: nat,
)
    requires
        is_tab_ring(nodes, viewport, ring),
        0 <= i < ring.len(),
    ensures
        tabbed(ring, Some(ring[i]), k) == Some(ring[(i + k) % (ring.len() as int)]),
    decreases k,
{
    let n = ring.len() as int;
    if k == 0 {
        assert(i % n == i) by (nonlinear_arith)
            requires
                0 <= i < n,
        ;
    } else {
        tab_goes_round(nodes, viewport, ring, i, (k - 1) as nat);
        let j = (i + k - 1) % n;
        assert(0 <= j < n) by (nonlinear_arith)
            requires
                n > 0,
                j == (i + k - 1) % n,
        ;
        ring_is_injective(nodes, viewport, ring, j);
        assert((j + 1) % n == (i + k) % n) by {
            vstd::arithmetic::div_mod::lemma_add_mod_noop_right(1, i + k - 1, n);
        }
    }
}

/// The cell that follows whether a node has the focus.
pub open spec fn focus_cell<N>(nodes: Seq<Option<Node<N>>>, id: Option<NodeId>) -> Option<SignalId> {
    match id {
        Some(i) => if live(nodes, i) {
            node_at(nodes, i).interact.focused
        } else {
            None
        },
        None => None,
    }
}

/// The store after a cell, if there is one, was switched.
pub open spec fn switched<N: Num>(store: Seq<Cell<N>>, cell: Option<SignalId>, on: bool) -> Seq<
    Cell<N>,
> {
    match cell {
        Some(c) => store_written(store, c.index as int, Value::Flag(on)),
        None => store,
    }
}

/// The cell is in a store of `cells` cells.
pub open spec fn in_store(cell: Option<SignalId>, cells: nat) -> bool {
    cell matches Some(c) ==> c.index < cells
}

fn find_focus_cell<N: Num>(tree: &NodeTree<N>, id: Option<NodeId>) -> (r: Option<SignalId>)
    ensures
        r == focus_cell(tree.nodes(), id),
{
    match id {
        Some(i) => match tree.get(i) {
            Some(n) => n.interact.focused,
            None => None,
        },
        None => None,
    }
}

/// The store after the focus moved.
pub open spec fn refocused<N: Num>(
    nodes: Seq<Option<Node<N>>>,
    store: Seq<Cell<N>>,
    from: Option<NodeId>,
    to: Option<NodeId>,
) -> Seq<Cell<N>> {
    if from == to {
        store
    } else {
        switched(
            switched(store, focus_cell(nodes, from), false),
            focus_cell(nodes, to),
            true,
        )
    }
}

/// Moves the focus: the old node's cell goes off and the new one's on. The
/// result says whether the focus was elsewhere before.
pub fn set_focus<N: Num>(
    focused: &mut Option<NodeId>,
    target: Option<NodeId>,
    tree: &NodeTree<N>,
    signals: &mut Signals<N>,
) -> (r: bool)
    requires
        in_store(focus_cell(tree.nodes(), *old(focused)), old(signals)@.len()),
        in_store(focus_cell(tree.nodes(), target), old(signals)@.len()),
    ensures
        *final(focused) == target,
        r == (*old(focused) != target),
        final(signals)@ == refocused(tree.nodes(), old(signals)@, *old(focused), target),
        final(signals)@.len() == old(signals)@.len(),
{
    if same_node(*focused, target) {
        return false;
    }
    if let Some(c) = find_focus_cell(tree, *focused) {
        signals.set(c, Value::Flag(false));
    }
    if let Some(c) = find_focus_cell(tree, target) {
        signals.set(c, Value::Flag(true));
    }
    *focused = target;
    true
}

/// Takes the focus from a node; another node keeps it.
pub fn blur<N: Num>(
    focused: &mut Option<NodeId>,
    node: NodeId,
    tree: &NodeTree<N>,
    signals: &mut Signals<N>,
)
    requires
        in_store(focus_cell(tree.nodes(), Some(node)), old(signals)@.len()),
    ensures
        *final(focused) == (if *old(focused) == Some(node) {
            None
        } else {
            *old(focused)
        }),
        final(signals)@ == switched(
            old(signals)@,
            focus_cell(tree.nodes(), Some(node)),
            false,
        ),
        final(signals)@.len() == old(signals)@.len(),
{
    if let Some(c) = find_focus_cell(tree, Some(node)) {
        signals.set(c, Value::Flag(false));
    }
    if same_node(*focused, Some(node)) {
        *focused = None;
    }
}

/// The cell is switched on.
pub open spec fn lit<N: Num>(store: Seq<Cell<N>>, cell: Option<SignalId>) -> bool {
    cell matches Some(c) && store[c.index as int].value == Value::<N>::Flag(true)
}

/// Only the focused node's cell is on.
pub open spec fn one_focus<N: Num>(
    nodes: Seq<Option<Node<N>>>,
    store: Seq<Cell<N>>,
    focused: Option<NodeId>,
) -> bool {
    forall|id: NodeId|
        lit(store, #[trigger] focus_cell(nodes, Some(id))) ==> focused == Some(id)
}

/// No two nodes have the same focus cell, and all are in the store.
pub open spec fn own_cells<N: Num>(nodes: Seq<Option<Node<N>>>, cells: nat) -> bool {
    &&& forall|id: NodeId| in_store(#[trigger] focus_cell(nodes, Some(id)), cells)
    &&& forall|a: NodeId, b: NodeId|
        a != b && #[trigger] focus_cell(nodes, Some(a)) is Some ==> focus_cell(nodes, Some(a))
            != #[trigger] focus_cell(nodes, Some(b))
}

/// At most one node has its focus cell on, wherever the focus moves.
pub proof fn one_node_has_the_focus<N: Num>(
    nodes: Seq<Option<Node<N>>>,
    store: Seq<Cell<N>>,
    from: Option<NodeId>,
    to: Option<NodeId>,
)
    requires
        own_cells(nodes, store.len()),
        one_focus(nodes, store, from),
    ensures
        one_focus(nodes, refocused(nodes, store, from, to), to),
{
    let after = refocused(nodes, store, from, to);
    if from != to {
        let off = switched(store, focus_cell(nodes, from), false);
        assert forall|id: NodeId| lit(after, #[trigger] focus_cell(nodes, Some(id))) implies to
            == Some(id) by {
            let c = focus_cell(nodes, Some(id))->0;
            assert(in_store(focus_cell(nodes, Some(id)), store.len()));
            if to != Some(id) {
                if to is Some && focus_cell(nodes, to) is Some {
                    assert(focus_cell(nodes, Some(to->0)) != focus_cell(nodes, Some(id)));
                }
                assert(after[c.index as int] == off[c.index as int]);
                if from == Some(id) {
                    assert(off[c.index as int].value == Value::<N>::Flag(false));
                } else {
                    if from is Some && focus_cell(nodes, from) is Some {
                        assert(focus_cell(nodes, Some(from->0)) != focus_cell(nodes, Some(id)));
                    }
                    assert(off[c.index as int] == store[c.index as int]);
                    assert(lit(store, focus_cell(nodes, Some(id))));
                }
            }
        }
    }
}

/// Where the focus goes, its cell goes on; where it leaves, the cell goes off.
pub proof fn focus_cells_follow_the_focus<N: Num>(
    nodes: Seq<Option<Node<N>>>,
    store: Seq<Cell<N>>,
    from: Option<NodeId>,
    to: Option<NodeId>,
)
    requires
        own_cells(nodes, store.len()),
        from != to,
    ensures
        ({
            let after = refocused(nodes, store, from, to);
            &&& to matches Some(id) ==> (live(nodes, id) && node_at(
                nodes,
                id,
            ).interact.focused is Some ==> after[node_at(
                nodes,
                id,
            ).interact.focused->0.index as int].value == Value::<N>::Flag(true))
            &&& from matches Some(id) ==> (live(nodes, id) && node_at(
                nodes,
                id,
            ).interact.focused is Some ==> after[node_at(
                nodes,
                id,
            ).interact.focused->0.index as int].value == Value::<N>::Flag(false))
            &&& after.len() == store.len()
        }),
{
    assert(in_store(focus_cell(nodes, from), store.len())) by {
        if let Some(id) = from {
            assert(in_store(focus_cell(nodes, Some(id)), store.len()));
        }
    }
    assert(in_store(focus_cell(nodes, to), store.len())) by {
        if let Some(id) = to {
            assert(in_store(focus_cell(nodes, Some(id)), store.len()));
        }
    }
    if from is Some && to is Some {
        assert(focus_cell(nodes, Some(from->0)) is None || focus_cell(nodes, Some(from->0))
            != focus_cell(nodes, Some(to->0)));
    }
}

/// Tab goes to the next node with a higher place in the order, or with the same
/// place and added later; from the last one, and from none, it goes to the
/// first of all.
pub proof fn tab_goes_up_the_order<N: Num>(
    nodes: Seq<Option<Node<N>>>,
    viewport: [N; 2],
    ring: Seq<NodeId>,
    focused: Option<NodeId>,
    id: NodeId,
)
    requires
        is_tab_ring(nodes, viewport, ring),
        focusable(nodes, viewport, id),
    ensures
        ({
            let next = ring_next(ring, focused, true);
            let order = |a: NodeId| node_at(nodes, a).layout.focus_order;
            &&& next is Some
            &&& focusable(nodes, viewport, next->0)
            &&& focused is None ==> order(next->0) <= order(id)
            &&& focused is Some && focusable(nodes, viewport, focused->0) && order(id) > order(
                focused->0,
            ) ==> order(focused->0) <= order(next->0) <= order(id) && next != focused
        }),
{
    assert(ring.contains(id));
    let j = choose|j: int| 0 <= j < ring.len() && ring[j] == id;
    let next = ring_next(ring, focused, true);
    if focused is Some && ring.contains(focused->0) {
        let i = ring.index_of(focused->0);
        assert(0 <= i < ring.len() && ring[i] == focused->0);
        let n = ring.len() as int;
        let k = (i + 1) % n;
        assert(0 <= k < n);
        assert(focusable(nodes, viewport, ring[k]));
        if focusable(nodes, viewport, focused->0) && node_at(nodes, id).layout.focus_order
            > node_at(nodes, focused->0).layout.focus_order {
            if j < i {
                assert(tabs_before(nodes, ring[j], ring[i]));
            }
            assert(i < j);
            assert(k == i + 1) by {
                assert(i + 1 < n);
                vstd::arithmetic::div_mod::lemma_small_mod((i + 1) as nat, n as nat);
            }
            assert(tabs_before(nodes, ring[i], ring[k]));
            if k < j {
                assert(tabs_before(nodes, ring[k], ring[j]));
            }
        }
    } else {
        assert(focusable(nodes, viewport, ring[0]));
        if j > 0 {
            assert(tabs_before(nodes, ring[0], ring[j]));
        }
        if focused is Some && focusable(nodes, viewport, focused->0) {
            assert(ring.contains(focused->0));
        }
    }
}

/// In exact numbers, what is on the screen has a place in common with it: a
/// node with an extent is there if some of it lies within the viewport.
pub proof fn what_is_on_screen_can_be_seen<N: Num>(
    value: spec_fn(N) -> real,
    r: [N; 4],
    viewport: [N; 2],
    x: real,
    y: real,
)
    requires
        computes_exactly(value),
        value(r[0]) <= x < value(r[0]) + value(r[2]),
        value(r[1]) <= y < value(r[1]) + value(r[3]),
        0real <= x < value(viewport[0]),
        0real <= y < value(viewport[1]),
    ensures
        on_screen(r, viewport),
{
    fractions_are_exact(value);
}

/// In exact numbers, what lies beyond a side of the viewport is not on the
/// screen.
pub proof fn what_is_beyond_is_not_on_screen<N: Num>(
    value: spec_fn(N) -> real,
    r: [N; 4],
    viewport: [N; 2],
)
    requires
        computes_exactly(value),
        value(viewport[0]) <= value(r[0]) || value(viewport[1]) <= value(r[1]) || value(r[0])
            + value(r[2]) <= 0real || value(r[1]) + value(r[3]) <= 0real,
    ensures
        !on_screen(r, viewport),
{
    fractions_are_exact(value);
}

} // verus!
