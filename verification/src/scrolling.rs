//! How scroll containers move, in exact numbers: which way keys, wheels and
//! held arrows take them, how far, and what undoes what.
use vstd::prelude::*;

use crate::input::{
    bubbled, epsilon, held_delta, key_chain, key_request, key_scrolled, keys_with, last_container,
    taken,
    wheel_delta, HeldKeys, KeyCode, ARROW_KEY_STEP_LOGICAL,
};
use crate::node::scroll::{nudged, scroll_range, scrollable_ids};
use crate::node::tree::{live, node_at, with_node, Node, ScrollState};
use crate::node::{NodeId, ScrollHit};
use crate::num::{computes_exactly, fractions_are_exact, zero, Num};

verus! {

/// A node scrolls along axis `k`: 0 is horizontal, 1 vertical.
pub open spec fn scrolls_along<N>(n: Node<N>, k: int) -> bool {
    n.scroll is Some && (if k == 0 {
        n.layout.overflow_x is Scroll
    } else {
        n.layout.overflow_y is Scroll
    })
}

/// Where the content of a node is going along axis `k`.
pub open spec fn aim<N>(value: spec_fn(N) -> real, n: Node<N>, k: int) -> real {
    value(n.scroll->0.target[k])
}

/// How far content goes along axis `k`: by what it is larger than its node.
pub open spec fn limit<N>(value: spec_fn(N) -> real, n: Node<N>, k: int) -> real {
    let over = value(n.content_size[k]) - value(n.rect[k + 2]);
    if over < 0real {
        0real
    } else {
        over
    }
}

/// The node has no step to rest on, and is going to where its content reaches.
pub open spec fn at_ease<N>(value: spec_fn(N) -> real, n: Node<N>) -> bool {
    &&& n.scroll is Some ==> value(n.scroll->0.snap_step) * value(n.scroll->0.scale) <= 0real
    &&& scrolls_along(n, 0) ==> 0real <= aim(value, n, 0) <= limit(value, n, 0)
    &&& scrolls_along(n, 1) ==> 0real <= aim(value, n, 1) <= limit(value, n, 1)
}

/// So are all nodes.
#[verifier::opaque]
pub open spec fn all_at_ease<N>(value: spec_fn(N) -> real, nodes: Seq<Option<Node<N>>>) -> bool {
    forall|j: int|
        0 <= j < nodes.len() && (#[trigger] nodes[j]) is Some ==> at_ease(value, nodes[j]->0)
}

/// Only where containers are going differs.
#[verifier::opaque]
pub open spec fn only_aims_differ<N>(a: Seq<Option<Node<N>>>, b: Seq<Option<Node<N>>>) -> bool {
    &&& a.len() == b.len()
    &&& forall|j: int|
        #![trigger a[j]]
        #![trigger b[j]]
        0 <= j < a.len() ==> match (a[j], b[j]) {
            (Some(x), Some(y)) => match (x.scroll, y.scroll) {
                (Some(s), Some(t)) => y == (Node {
                    scroll: Some(ScrollState { target: t.target, ..s }),
                    ..x
                }),
                (None, None) => y == x,
                _ => false,
            },
            (None, None) => true,
            _ => false,
        }
}

/// No container goes on along axis `k`, and every one goes back or stays where
/// it was going.
#[verifier::opaque]
pub open spec fn none_advances<N>(
    value: spec_fn(N) -> real,
    a: Seq<Option<Node<N>>>,
    b: Seq<Option<Node<N>>>,
    k: int,
) -> bool {
    forall|j: int|
        0 <= j < a.len() && (#[trigger] a[j]) is Some && a[j]->0.scroll is Some ==> aim(
            value,
            b[j]->0,
            k,
        ) <= aim(value, a[j]->0, k)
}

/// What one container does with a movement.
proof fn one_step<N: Num>(
    value: spec_fn(N) -> real,
    nodes: Seq<Option<Node<N>>>,
    id: NodeId,
    request: [N; 2],
    snap: bool,
)
    requires
        computes_exactly(value),
        all_at_ease(value, nodes),
    ensures
        ({
            let after = with_node(nodes, id, nudged(node_at(nodes, id), request, snap));
            let part = taken(nodes, id, request, snap);
            let n = node_at(nodes, id);
            let (qx, qy) = (value(request[0]), value(request[1]));
            let (x, y) = (value(part[0]), value(part[1]));
            &&& all_at_ease(value, after)
            &&& only_aims_differ(nodes, after)
            &&& qx <= 0real ==> qx <= x <= 0real && none_advances(value, nodes, after, 0)
            &&& qy <= 0real ==> qy <= y <= 0real && none_advances(value, nodes, after, 1)
            &&& qx >= 0real ==> 0real <= x <= qx && none_advances(value, after, nodes, 0)
            &&& qy >= 0real ==> 0real <= y <= qy && none_advances(value, after, nodes, 1)
            &&& forall|j: int|
                0 <= j < nodes.len() && j != id.index ==> #[trigger] after[j] == nodes[j]
            &&& x == 0real && y == 0real ==> none_advances(value, nodes, after, 0)
                && none_advances(value, nodes, after, 1) && none_advances(value, after, nodes, 0)
                && none_advances(value, after, nodes, 1)
            &&& live(nodes, id) && n.scroll is Some ==> {
                let m = node_at(after, id);
                &&& m.scroll is Some
                &&& aim(value, m, 0) == aim(value, n, 0) + x
                &&& aim(value, m, 1) == aim(value, n, 1) + y
                &&& scrolls_along(n, 0) && 0real <= aim(value, n, 0) + qx <= limit(value, n, 0)
                    ==> x == qx
                &&& scrolls_along(n, 1) && 0real <= aim(value, n, 1) + qy <= limit(value, n, 1)
                    ==> y == qy
                &&& scrolls_along(n, 0) && aim(value, n, 0) + qx < 0real ==> aim(value, m, 0)
                    == 0real
                &&& scrolls_along(n, 1) && aim(value, n, 1) + qy < 0real ==> aim(value, m, 1)
                    == 0real
                &&& scrolls_along(n, 0) && aim(value, n, 0) + qx > limit(value, n, 0) ==> aim(
                    value,
                    m,
                    0,
                ) == limit(value, n, 0)
                &&& scrolls_along(n, 1) && aim(value, n, 1) + qy > limit(value, n, 1) ==> aim(
                    value,
                    m,
                    1,
                ) == limit(value, n, 1)
            }
        }),
{
    reveal(all_at_ease);
    reveal(only_aims_differ);
    reveal(none_advances);
    fractions_are_exact(value);
    if live(nodes, id) {
        let n = node_at(nodes, id);
        assert(at_ease(value, nodes[id.index as int]->0));
        let max = scroll_range(n);
        assert(value(max[0]) == limit(value, n, 0));
        assert(value(max[1]) == limit(value, n, 1));
    }
}

/// What a whole chain does with a movement.
proof fn chain_steps<N: Num>(
    value: spec_fn(N) -> real,
    nodes: Seq<Option<Node<N>>>,
    chain: Seq<NodeId>,
    request: [N; 2],
    snap: bool,
    moved: bool,
    asked: bool,
    i: nat,
)
    requires
        computes_exactly(value),
        all_at_ease(value, nodes),
    ensures
        ({
            let r = bubbled(nodes, chain, request, snap, moved, asked, i);
            let (qx, qy) = (value(request[0]), value(request[1]));
            &&& all_at_ease(value, r.nodes)
            &&& only_aims_differ(nodes, r.nodes)
            &&& qx <= 0real ==> none_advances(value, nodes, r.nodes, 0)
            &&& qy <= 0real ==> none_advances(value, nodes, r.nodes, 1)
            &&& qx >= 0real ==> none_advances(value, r.nodes, nodes, 0)
            &&& qy >= 0real ==> none_advances(value, r.nodes, nodes, 1)
            &&& moved ==> r.moved
            &&& !r.moved ==> none_advances(value, nodes, r.nodes, 0) && none_advances(
                value,
                nodes,
                r.nodes,
                1,
            ) && none_advances(value, r.nodes, nodes, 0) && none_advances(value, r.nodes, nodes, 1)
        }),
    decreases chain.len() - i,
{
    fractions_are_exact(value);
    if i < chain.len() {
        let id = chain[i as int];
        let part = taken(nodes, id, request, snap);
        let after = with_node(nodes, id, nudged(node_at(nodes, id), request, snap));
        let rest = [request[0].difference(part[0]), request[1].difference(part[1])];
        let now = moved || !crate::num::equals2(part, [zero(), zero()]);
        let marks = asked || crate::node::scroll::scrolls_at(nodes, id);
        one_step(value, nodes, id, request, snap);
        chain_steps(value, after, chain, rest, snap, now, marks, i + 1);
        let r = bubbled(nodes, chain, request, snap, moved, asked, i);
        let next = bubbled(after, chain, rest, snap, now, marks, i + 1);
        assert(r.nodes == after || r.nodes == next.nodes);
        only_aims_differ_chains(nodes, after, next.nodes);
        going_back_chains(value, nodes, after, next.nodes, 0);
        going_back_chains(value, nodes, after, next.nodes, 1);
        going_back_chains(value, next.nodes, after, nodes, 0);
        going_back_chains(value, next.nodes, after, nodes, 1);
    } else {
        reveal(only_aims_differ);
        reveal(none_advances);
    }
}

/// What the relations between two trees say of one node.
proof fn at_one_node<N>(
    value: spec_fn(N) -> real,
    a: Seq<Option<Node<N>>>,
    b: Seq<Option<Node<N>>>,
    k: int,
    id: NodeId,
)
    requires
        only_aims_differ(a, b),
        live(a, id),
        node_at(a, id).scroll is Some,
    ensures
        live(b, id),
        node_at(b, id).scroll is Some,
        none_advances(value, a, b, k) ==> aim(value, node_at(b, id), k) <= aim(
            value,
            node_at(a, id),
            k,
        ),
        none_advances(value, b, a, k) ==> aim(value, node_at(a, id), k) <= aim(
            value,
            node_at(b, id),
            k,
        ),
{
    reveal(only_aims_differ);
    reveal(none_advances);
    let j = id.index as int;
    let (x, y) = (a[j], b[j]);
}

proof fn only_aims_differ_chains<N>(
    a: Seq<Option<Node<N>>>,
    b: Seq<Option<Node<N>>>,
    c: Seq<Option<Node<N>>>,
)
    requires
        only_aims_differ(a, b),
        only_aims_differ(b, c),
    ensures
        only_aims_differ(a, c),
        only_aims_differ(c, b),
        only_aims_differ(b, a),
{
    reveal(only_aims_differ);
}

proof fn going_back_chains<N>(
    value: spec_fn(N) -> real,
    a: Seq<Option<Node<N>>>,
    b: Seq<Option<Node<N>>>,
    c: Seq<Option<Node<N>>>,
    k: int,
)
    requires
        only_aims_differ(a, b),
        only_aims_differ(b, c),
    ensures
        none_advances(value, a, b, k) && none_advances(value, b, c, k) ==> none_advances(
            value,
            a,
            c,
            k,
        ),
{
    reveal(only_aims_differ);
    reveal(none_advances);
    if none_advances(value, a, b, k) && none_advances(value, b, c, k) {
        assert forall|j: int|
            0 <= j < a.len() && (#[trigger] a[j]) is Some && a[j]->0.scroll is Some implies aim(
            value,
            c[j]->0,
            k,
        ) <= aim(value, a[j]->0, k) by {
            let y = b[j];
        }
    }
}

/// A movement takes no container the wrong way along either axis, and none
/// beyond its content. The innermost container gets first what it can take: it
/// does move, unless it is at its end already. Something is said to have moved
/// only if it has.
pub proof fn movements_go_their_way<N: Num>(
    value: spec_fn(N) -> real,
    nodes: Seq<Option<Node<N>>>,
    chain: Seq<NodeId>,
    request: [N; 2],
    snap: bool,
    k: int,
)
    requires
        computes_exactly(value),
        all_at_ease(value, nodes),
        k == 0 || k == 1,
    ensures
        ({
            let r = bubbled(nodes, chain, request, snap, false, false, 0);
            let q = value(request[k]);
            &&& all_at_ease(value, r.nodes)
            &&& only_aims_differ(nodes, r.nodes)
            &&& q <= 0real ==> none_advances(value, nodes, r.nodes, k)
            &&& q >= 0real ==> none_advances(value, r.nodes, nodes, k)
            &&& chain.len() > 0 && live(nodes, chain[0]) && scrolls_along(
                node_at(nodes, chain[0]),
                k,
            ) ==> ({
                let (n, m) = (node_at(nodes, chain[0]), node_at(r.nodes, chain[0]));
                &&& q < 0real && 0real < aim(value, n, k) ==> aim(value, m, k) < aim(value, n, k)
                &&& q > 0real && aim(value, n, k) < limit(value, n, k) ==> aim(value, n, k) < aim(
                    value,
                    m,
                    k,
                )
            })
            &&& !r.moved ==> none_advances(value, nodes, r.nodes, k) && none_advances(
                value,
                r.nodes,
                nodes,
                k,
            )
        }),
{
    fractions_are_exact(value);
    chain_steps(value, nodes, chain, request, snap, false, false, 0);
    if chain.len() > 0 {
        let id = chain[0];
        let part = taken(nodes, id, request, snap);
        let after = with_node(nodes, id, nudged(node_at(nodes, id), request, snap));
        let rest = [request[0].difference(part[0]), request[1].difference(part[1])];
        let now = !crate::num::equals2(part, [zero(), zero()]);
        let marks = crate::node::scroll::scrolls_at(nodes, id);
        one_step(value, nodes, id, request, snap);
        chain_steps(value, after, chain, rest, snap, now, marks, 1);
        let next = bubbled(after, chain, rest, snap, now, marks, 1);
        let r = bubbled(nodes, chain, request, snap, false, false, 0);
        assert(r.nodes == after || r.nodes == next.nodes);
        if live(nodes, id) && node_at(nodes, id).scroll is Some {
            at_one_node(value, nodes, after, k, id);
            at_one_node(value, after, next.nodes, k, id);
        }
    }
}

/// A movement along one axis that the innermost container can make in full is
/// made by it, and by no other.
pub proof fn movements_are_made_in_full<N: Num>(
    value: spec_fn(N) -> real,
    nodes: Seq<Option<Node<N>>>,
    chain: Seq<NodeId>,
    request: [N; 2],
    snap: bool,
    k: int,
)
    requires
        computes_exactly(value),
        all_at_ease(value, nodes),
        k == 0 || k == 1,
        chain.len() > 0,
        live(nodes, chain[0]),
        scrolls_along(node_at(nodes, chain[0]), k),
        value(request[1 - k]) == 0real,
        0real <= aim(value, node_at(nodes, chain[0]), k) + value(request[k]) <= limit(
            value,
            node_at(nodes, chain[0]),
            k,
        ),
    ensures
        ({
            let r = bubbled(nodes, chain, request, snap, false, false, 0);
            let (n, m) = (node_at(nodes, chain[0]), node_at(r.nodes, chain[0]));
            &&& aim(value, m, k) == aim(value, n, k) + value(request[k])
            &&& aim(value, m, 1 - k) == aim(value, n, 1 - k)
            &&& forall|j: int|
                0 <= j < nodes.len() && j != chain[0].index ==> #[trigger] r.nodes[j] == nodes[j]
            &&& r.moved == (value(request[k]) != 0real)
        }),
{
    fractions_are_exact(value);
    let id = chain[0];
    let part = taken(nodes, id, request, snap);
    let rest = [request[0].difference(part[0]), request[1].difference(part[1])];
    one_step(value, nodes, id, request, snap);
    epsilon_is_small::<N>(value);
    assert(value(rest[0]) == 0real && value(rest[1]) == 0real);
    assert(crate::input::negligible(rest));
}

proof fn epsilon_is_small<N: Num>(value: spec_fn(N) -> real)
    requires
        computes_exactly(value),
    ensures
        0real < value(epsilon()),
        value(epsilon()) * 8_388_608real == 1real,
{
    let e = value(epsilon::<N>());
    assert(e * (8_388_608i32 as real) == 1i32 as real);
    assert((8_388_608i32 as real) == 8_388_608real);
    assert(0real < e) by (nonlinear_arith)
        requires
            e * 8_388_608real == 1real,
    ;
}

/// What one container does with a movement along one axis.
proof fn one_step_along<N: Num>(
    value: spec_fn(N) -> real,
    nodes: Seq<Option<Node<N>>>,
    id: NodeId,
    request: [N; 2],
    snap: bool,
    k: int,
)
    requires
        computes_exactly(value),
        all_at_ease(value, nodes),
        k == 0 || k == 1,
        live(nodes, id),
        scrolls_along(node_at(nodes, id), k),
        value(request[1 - k]) == 0real,
    ensures
        ({
            let after = with_node(nodes, id, nudged(node_at(nodes, id), request, snap));
            let part = taken(nodes, id, request, snap);
            let rest = [request[0].difference(part[0]), request[1].difference(part[1])];
            let n = node_at(nodes, id);
            let q = value(request[k]);
            let m = node_at(after, id);
            let stays = aim(value, n, k) == (if q < 0real {
                0real
            } else {
                limit(value, n, k)
            });
            let fits = 0real <= aim(value, n, k) + q <= limit(value, n, k);
            &&& all_at_ease(value, after)
            &&& forall|j: int|
                0 <= j < nodes.len() && j != id.index ==> #[trigger] after[j] == nodes[j]
            &&& after.len() == nodes.len()
            &&& stays && q != 0real ==> value(rest[k]) == q && value(rest[1 - k]) == 0real && aim(
                value,
                m,
                k,
            ) == aim(value, n, k)
            &&& fits ==> crate::input::negligible(rest) && aim(value, m, k) == aim(value, n, k) + q
            &&& fits && q != 0real ==> !crate::num::equals2(part, [zero(), zero()])
        }),
{
    fractions_are_exact(value);
    epsilon_is_small::<N>(value);
    one_step(value, nodes, id, request, snap);
    let part = taken(nodes, id, request, snap);
    let rest = [request[0].difference(part[0]), request[1].difference(part[1])];
    assert(value(part[1 - k]) == 0real);
    assert(value(rest[0]) == value(request[0]) - value(part[0]));
    assert(value(rest[1]) == value(request[1]) - value(part[1]));
}

/// A movement that is large enough counts.
proof fn large_movements_count<N: Num>(value: spec_fn(N) -> real, d: [N; 2], k: int)
    requires
        computes_exactly(value),
        k == 0 || k == 1,
        8_388_608real * value(d[k]) <= -1real || 8_388_608real * value(d[k]) >= 1real,
    ensures
        !crate::input::negligible(d),
{
    epsilon_is_small::<N>(value);
}

/// What a container at its end cannot take goes on to the one around it.
pub proof fn movements_go_on_outward<N: Num>(
    value: spec_fn(N) -> real,
    nodes: Seq<Option<Node<N>>>,
    chain: Seq<NodeId>,
    request: [N; 2],
    snap: bool,
    k: int,
)
    requires
        computes_exactly(value),
        all_at_ease(value, nodes),
        k == 0 || k == 1,
        chain.len() > 1,
        chain[0] != chain[1],
        live(nodes, chain[0]),
        live(nodes, chain[1]),
        scrolls_along(node_at(nodes, chain[0]), k),
        scrolls_along(node_at(nodes, chain[1]), k),
        value(request[1 - k]) == 0real,
        8_388_608real * value(request[k]) <= -1real || 8_388_608real * value(request[k]) >= 1real,
        aim(value, node_at(nodes, chain[0]), k) == (if value(request[k]) < 0real {
            0real
        } else {
            limit(value, node_at(nodes, chain[0]), k)
        }),
        0real <= aim(value, node_at(nodes, chain[1]), k) + value(request[k]) <= limit(
            value,
            node_at(nodes, chain[1]),
            k,
        ),
    ensures
        ({
            let r = bubbled(nodes, chain, request, snap, false, false, 0);
            let (n, m) = (node_at(nodes, chain[1]), node_at(r.nodes, chain[1]));
            let (a, b) = (node_at(nodes, chain[0]), node_at(r.nodes, chain[0]));
            &&& aim(value, b, k) == aim(value, a, k)
            &&& aim(value, m, k) == aim(value, n, k) + value(request[k])
            &&& r.moved
        }),
{
    let id = chain[0];
    let part = taken(nodes, id, request, snap);
    let after = with_node(nodes, id, nudged(node_at(nodes, id), request, snap));
    let rest = [request[0].difference(part[0]), request[1].difference(part[1])];
    one_step_along(value, nodes, id, request, snap, k);
    large_movements_count(value, rest, k);
    let d = chain[1];
    assert(after[d.index as int] == nodes[d.index as int]);
    one_step_along(value, after, d, rest, snap, k);
    let now = !crate::num::equals2(part, [zero(), zero()]);
    let marks = crate::node::scroll::scrolls_at(nodes, id);
    let last = with_node(after, d, nudged(node_at(after, d), rest, snap));
    assert(bubbled(nodes, chain, request, snap, false, false, 0) == bubbled(
        after,
        chain,
        rest,
        snap,
        now,
        marks,
        1,
    ));
    let r = bubbled(after, chain, rest, snap, now, marks, 1);
    assert(r.nodes == last && r.moved);
    assert(last[id.index as int] == after[id.index as int]);
}

/// The keys that scroll along an axis go back (`ArrowUp`, `PageUp`,
/// `ArrowLeft`) or forth (`ArrowDown`, `PageDown`, `ArrowRight`), at a positive
/// scale: no container goes the other way, the innermost one goes that way
/// unless it is at its end, and along the other axis nothing moves.
pub proof fn keys_scroll_their_way<N: Num>(
    value: spec_fn(N) -> real,
    nodes: Seq<Option<Node<N>>>,
    chain: Seq<NodeId>,
    code: KeyCode,
    viewport: [N; 2],
    scale: N,
)
    requires
        computes_exactly(value),
        value(scale) > 0real,
        all_at_ease(value, nodes),
    ensures
        ({
            let r = key_scrolled(nodes, chain, key_request(code, viewport, scale));
            let upright = code is ArrowUp || code is ArrowDown || code is PageUp
                || code is PageDown;
            let sideways = code is ArrowLeft || code is ArrowRight;
            let back = code is ArrowUp || code is PageUp || code is ArrowLeft;
            let k: int = if upright {
                1
            } else {
                0
            };
            upright || sideways ==> {
                &&& all_at_ease(value, r.nodes)
                &&& only_aims_differ(nodes, r.nodes)
                &&& none_advances(value, nodes, r.nodes, 1 - k)
                &&& none_advances(value, r.nodes, nodes, 1 - k)
                &&& back ==> none_advances(value, nodes, r.nodes, k)
                &&& !back ==> none_advances(value, r.nodes, nodes, k)
                &&& chain.len() > 0 && live(nodes, chain[0]) && scrolls_along(
                    node_at(nodes, chain[0]),
                    k,
                ) ==> ({
                    let (n, m) = (node_at(nodes, chain[0]), node_at(r.nodes, chain[0]));
                    &&& back && 0real < aim(value, n, k) ==> aim(value, m, k) < aim(value, n, k)
                    &&& !back && aim(value, n, k) < limit(value, n, k) ==> aim(value, n, k) < aim(
                        value,
                        m,
                        k,
                    )
                })
            }
        }),
{
    fractions_are_exact(value);
    key_amounts(value, viewport, scale);
    let request = key_request(code, viewport, scale);
    match request {
        Some(crate::input::ScrollRequest::By(d)) => {
            movements_go_their_way(value, nodes, chain, d, true, 0);
            movements_go_their_way(value, nodes, chain, d, true, 1);
        },
        _ => {},
    }
}

proof fn key_amounts<N: Num>(value: spec_fn(N) -> real, viewport: [N; 2], scale: N)
    requires
        computes_exactly(value),
        value(scale) > 0real,
    ensures
        ({
            let line = N::fraction(ARROW_KEY_STEP_LOGICAL, 1).product(scale);
            let page = viewport[1].difference(line).larger(line);
            let step = 40real * value(scale);
            &&& value(line) == step
            &&& 0real < step
            &&& value(page) == (if value(viewport[1]) - step < step {
                step
            } else {
                value(viewport[1]) - step
            })
        }),
{
    fractions_are_exact(value);
    assert((40i32 as real) == 40real);
}

/// How far the keys scroll where there is room: an arrow 40 logical pixels, a
/// page key the height of the viewport less that, and at least that. Only the
/// innermost container moves, and something is said to have moved.
pub proof fn keys_scroll_a_line_or_a_page<N: Num>(
    value: spec_fn(N) -> real,
    nodes: Seq<Option<Node<N>>>,
    chain: Seq<NodeId>,
    code: KeyCode,
    viewport: [N; 2],
    scale: N,
    by: real,
)
    requires
        computes_exactly(value),
        value(scale) > 0real,
        all_at_ease(value, nodes),
        chain.len() > 0,
        live(nodes, chain[0]),
        ({
            let line = 40real * value(scale);
            let page = if value(viewport[1]) < 2real * line {
                line
            } else {
                value(viewport[1]) - line
            };
            ||| code is ArrowUp && by == -line
            ||| code is ArrowDown && by == line
            ||| code is ArrowLeft && by == -line
            ||| code is ArrowRight && by == line
            ||| code is PageUp && by == -page
            ||| code is PageDown && by == page
        }),
        ({
            let k: int = if code is ArrowLeft || code is ArrowRight {
                0
            } else {
                1
            };
            let n = node_at(nodes, chain[0]);
            scrolls_along(n, k) && 0real <= aim(value, n, k) + by <= limit(value, n, k)
        }),
    ensures
        ({
            let k: int = if code is ArrowLeft || code is ArrowRight {
                0
            } else {
                1
            };
            let r = key_scrolled(nodes, chain, key_request(code, viewport, scale));
            let (n, m) = (node_at(nodes, chain[0]), node_at(r.nodes, chain[0]));
            &&& aim(value, m, k) == aim(value, n, k) + by
            &&& aim(value, m, 1 - k) == aim(value, n, 1 - k)
            &&& forall|j: int|
                0 <= j < nodes.len() && j != chain[0].index ==> #[trigger] r.nodes[j] == nodes[j]
            &&& r.moved
        }),
{
    fractions_are_exact(value);
    key_amounts(value, viewport, scale);
    let request = key_request(code, viewport, scale);
    let k: int = if code is ArrowLeft || code is ArrowRight {
        0
    } else {
        1
    };
    match request {
        Some(crate::input::ScrollRequest::By(d)) => {
            movements_are_made_in_full(value, nodes, chain, d, true, k);
        },
        _ => {},
    }
}

/// A key and the opposite one after it leave every container going where it
/// was going, where there was room.
pub proof fn opposite_keys_undo_each_other<N: Num>(
    value: spec_fn(N) -> real,
    nodes: Seq<Option<Node<N>>>,
    chain: Seq<NodeId>,
    code: KeyCode,
    back: KeyCode,
    viewport: [N; 2],
    scale: N,
)
    requires
        computes_exactly(value),
        value(scale) > 0real,
        all_at_ease(value, nodes),
        chain.len() > 0,
        live(nodes, chain[0]),
        ({
            ||| code is ArrowUp && back is ArrowDown
            ||| code is ArrowDown && back is ArrowUp
            ||| code is ArrowLeft && back is ArrowRight
            ||| code is ArrowRight && back is ArrowLeft
        }),
        ({
            let k: int = if code is ArrowLeft || code is ArrowRight {
                0
            } else {
                1
            };
            let n = node_at(nodes, chain[0]);
            let line = 40real * value(scale);
            &&& scrolls_along(n, k)
            &&& line <= aim(value, n, k)
            &&& aim(value, n, k) + line <= limit(value, n, k)
        }),
    ensures
        ({
            let r = key_scrolled(nodes, chain, key_request(code, viewport, scale));
            let s = key_scrolled(r.nodes, chain, key_request(back, viewport, scale));
            let (n, m) = (node_at(nodes, chain[0]), node_at(s.nodes, chain[0]));
            &&& aim(value, m, 0) == aim(value, n, 0)
            &&& aim(value, m, 1) == aim(value, n, 1)
            &&& forall|j: int|
                0 <= j < nodes.len() && j != chain[0].index ==> #[trigger] s.nodes[j] == nodes[j]
        }),
{
    let line = 40real * value(scale);
    let by = if code is ArrowUp || code is ArrowLeft {
        -line
    } else {
        line
    };
    assert(line > 0real);
    keys_scroll_their_way(value, nodes, chain, code, viewport, scale);
    keys_scroll_a_line_or_a_page(value, nodes, chain, code, viewport, scale, by);
    let r = key_scrolled(nodes, chain, key_request(code, viewport, scale));
    let id = chain[0];
    at_one_node(value, nodes, r.nodes, 0, id);
    assert(limit(value, node_at(r.nodes, id), 0) == limit(value, node_at(nodes, id), 0)
        && limit(value, node_at(r.nodes, id), 1) == limit(value, node_at(nodes, id), 1)
        && node_at(r.nodes, id).layout == node_at(nodes, id).layout) by {
        reveal(only_aims_differ);
        let (x, y) = (nodes[id.index as int], r.nodes[id.index as int]);
    }
    keys_scroll_a_line_or_a_page(value, r.nodes, chain, back, viewport, scale, -by);
    let s = key_scrolled(r.nodes, chain, key_request(back, viewport, scale));
    assert forall|j: int| 0 <= j < nodes.len() && j != id.index implies #[trigger] s.nodes[j]
        == nodes[j] by {
        reveal(only_aims_differ);
        assert(r.nodes[j] == nodes[j]);
    }
}

/// `Home` takes the innermost container to the start of its content and `End`
/// to the end of it: along the vertical axis where it scrolls that way, else
/// along the other. No other container moves.
pub proof fn home_and_end_go_to_the_ends<N: Num>(
    value: spec_fn(N) -> real,
    nodes: Seq<Option<Node<N>>>,
    chain: Seq<NodeId>,
    code: KeyCode,
    viewport: [N; 2],
    scale: N,
)
    requires
        computes_exactly(value),
        all_at_ease(value, nodes),
        chain.len() > 0,
        live(nodes, chain[0]),
        code is Home || code is End,
        node_at(nodes, chain[0]).scroll is Some,
    ensures
        ({
            let r = key_scrolled(nodes, chain, key_request(code, viewport, scale));
            let (n, m) = (node_at(nodes, chain[0]), node_at(r.nodes, chain[0]));
            &&& scrolls_along(n, 1) ==> aim(value, m, 1) == (if code is End {
                limit(value, n, 1)
            } else {
                0real
            })
            &&& !scrolls_along(n, 1) && scrolls_along(n, 0) ==> aim(value, m, 0) == (if code
                is End {
                limit(value, n, 0)
            } else {
                0real
            })
            &&& !scrolls_along(n, 1) && !scrolls_along(n, 0) ==> m == n
            &&& forall|j: int|
                0 <= j < nodes.len() && j != chain[0].index ==> #[trigger] r.nodes[j] == nodes[j]
            &&& r.moved <==> aim(value, m, 0) != aim(value, n, 0) || aim(value, m, 1) != aim(
                value,
                n,
                1,
            )
        }),
{
    reveal(all_at_ease);
    fractions_are_exact(value);
    let n = node_at(nodes, chain[0]);
    assert(at_ease(value, nodes[chain[0].index as int]->0));
    let max = scroll_range(n);
    assert(value(max[0]) == limit(value, n, 0));
    assert(value(max[1]) == limit(value, n, 1));
}

/// Keys that do not navigate scroll nothing.
pub proof fn other_keys_scroll_nothing<N: Num>(
    nodes: Seq<Option<Node<N>>>,
    chain: Seq<NodeId>,
    code: KeyCode,
    viewport: [N; 2],
    scale: N,
)
    requires
        !(code is ArrowUp || code is ArrowDown || code is ArrowLeft || code is ArrowRight),
        !(code is PageUp || code is PageDown || code is Home || code is End),
    ensures
        ({
            let r = key_scrolled(nodes, chain, key_request(code, viewport, scale));
            r.nodes == nodes && !r.moved && !r.asked
        }),
{
}

/// Keys go to the containers around the pointer, from the last listed one that
/// the pointer is over; the pointer is over one where it lies in its bounds and
/// its clip, whose near edges belong to them and whose far edges do not.
/// Without any, they go to the first node that scrolls.
pub proof fn keys_go_to_the_innermost_container<N: Num>(
    value: spec_fn(N) -> real,
    cursor: Option<[N; 2]>,
    hits: Seq<ScrollHit<N>>,
    nodes: Seq<Option<Node<N>>>,
    k: int,
)
    requires
        computes_exactly(value),
    ensures
        ({
            let chain = key_chain(cursor, hits, nodes);
            &&& 0 <= k < hits.len() && cursor is Some && over(value, hits[k], cursor->0) && (
            forall|j: int| k < j < hits.len() ==> !over(value, #[trigger] hits[j], cursor->0))
                ==> chain == hits[k].ancestor_chain@
            &&& cursor is None || (forall|j: int|
                0 <= j < hits.len() ==> !over(value, #[trigger] hits[j], cursor->0)) ==> {
                &&& chain.len() <= 1
                &&& chain.len() == 1 && nodes.len() <= u32::MAX ==> live(nodes, chain[0])
                    && node_at(nodes, chain[0]).scroll is Some
                &&& forall|j: int|
                    0 <= j < nodes.len() <= u32::MAX && (#[trigger] nodes[j]) is Some
                        && nodes[j]->0.scroll is Some ==> chain.len() == 1 && chain[0].index <= j
            }
        }),
{
    if let Some(c) = cursor {
        last_container_is_last(value, hits, c, hits.len());
    }
    first_scrollable(nodes, nodes.len());
}

/// The point lies in the bounds of a container and in its clip.
pub open spec fn over<N>(value: spec_fn(N) -> real, h: ScrollHit<N>, at: [N; 2]) -> bool {
    let (x, y) = (value(at[0]), value(at[1]));
    &&& value(h.bounds[0]) <= x < value(h.bounds[2])
    &&& value(h.bounds[1]) <= y < value(h.bounds[3])
    &&& value(h.clip_rect[0]) <= x < value(h.clip_rect[2])
    &&& value(h.clip_rect[1]) <= y < value(h.clip_rect[3])
}

proof fn last_container_is_last<N: Num>(
    value: spec_fn(N) -> real,
    hits: Seq<ScrollHit<N>>,
    at: [N; 2],
    n: nat,
)
    requires
        computes_exactly(value),
        n <= hits.len(),
    ensures
        match last_container(hits, at[0], at[1], n) {
            Some(k) => 0 <= k < n && over(value, hits[k], at) && (forall|j: int|
                k < j < n ==> !over(value, #[trigger] hits[j], at)),
            None => forall|j: int| 0 <= j < n ==> !over(value, #[trigger] hits[j], at),
        },
    decreases n,
{
    if n > 0 {
        last_container_is_last(value, hits, at, (n - 1) as nat);
        let h = hits[n - 1];
        assert(h.holds(at[0], at[1]) == over(value, h, at));
    }
}

proof fn first_scrollable<N>(nodes: Seq<Option<Node<N>>>, n: nat)
    requires
        n <= nodes.len(),
    ensures
        ({
            let s = scrollable_ids(nodes, n);
            &&& s.len() > 0 && n <= u32::MAX ==> live(nodes, s[0]) && node_at(nodes, s[0]).scroll
                is Some && s[0].index < n
            &&& forall|j: int|
                0 <= j < n <= u32::MAX && (#[trigger] nodes[j]) is Some && nodes[j]->0.scroll
                    is Some ==> s.len() > 0 && s[0].index <= j
        }),
    decreases n,
{
    if n > 0 {
        first_scrollable(nodes, (n - 1) as nat);
    }
}

/// A wheel scrolls by what it was turned. With Shift held, all of it goes
/// sideways.
pub proof fn shift_turns_the_wheel_sideways<N: Num>(
    value: spec_fn(N) -> real,
    delta: [N; 2],
)
    requires
        computes_exactly(value),
    ensures
        wheel_delta(delta, false) == delta,
        value(wheel_delta(delta, true)[0]) == value(delta[0]) + value(delta[1]),
        value(wheel_delta(delta, true)[1]) == 0real,
{
    fractions_are_exact(value);
}

/// Held arrows scroll 600 logical pixels a second, each its own way. Opposite
/// ones cancel out.
pub proof fn held_arrows_scroll_steadily<N: Num>(
    value: spec_fn(N) -> real,
    held: HeldKeys,
    scale: N,
    dt: N,
)
    requires
        computes_exactly(value),
    ensures
        ({
            let d = held_delta(held, scale, dt);
            let far = 600real * value(scale) * value(dt);
            &&& held.up && !held.down ==> value(d[1]) == -far
            &&& held.down && !held.up ==> value(d[1]) == far
            &&& held.left && !held.right ==> value(d[0]) == -far
            &&& held.right && !held.left ==> value(d[0]) == far
            &&& held.up == held.down ==> value(d[1]) == 0real
            &&& held.left == held.right ==> value(d[0]) == 0real
        }),
{
    fractions_are_exact(value);
    assert((600i32 as real) == 600real);
}

/// A key that goes down is held until it is let go, and no other key is touched
/// by it; keys that do not navigate are not followed.
pub proof fn keys_are_held_until_let_go(k: HeldKeys, code: KeyCode, down: bool)
    ensures
        ({
            let after = keys_with(k, code, down);
            &&& after.up == (if code is ArrowUp {
                down
            } else {
                k.up
            })
            &&& after.down == (if code is ArrowDown {
                down
            } else {
                k.down
            })
            &&& after.left == (if code is ArrowLeft {
                down
            } else {
                k.left
            })
            &&& after.right == (if code is ArrowRight {
                down
            } else {
                k.right
            })
            &&& after.page_up == (if code is PageUp {
                down
            } else {
                k.page_up
            })
            &&& after.page_down == (if code is PageDown {
                down
            } else {
                k.page_down
            })
            &&& after.home == (if code is Home {
                down
            } else {
                k.home
            })
            &&& after.end == (if code is End {
                down
            } else {
                k.end
            })
        }),
{
}

/// A container with a step to rest on comes to rest after a key: on a multiple
/// of the step, or at the end of its content.
pub proof fn keys_come_to_rest_on_steps<N: Num>(
    value: spec_fn(N) -> real,
    nodes: Seq<Option<Node<N>>>,
    id: NodeId,
    code: KeyCode,
    viewport: [N; 2],
    scale: N,
    k: int,
)
    requires
        computes_exactly(value),
        live(nodes, id),
        scrolls_along(node_at(nodes, id), k),
        k == 0 || k == 1,
        ({
            let s = node_at(nodes, id).scroll->0;
            value(s.snap_step) * value(s.scale) > 0real
        }),
        key_request(code, viewport, scale) is Some,
        code is Home || code is End ==> k == 1,
    ensures
        ({
            let r = key_scrolled(nodes, seq![id], key_request(code, viewport, scale));
            let n = node_at(nodes, id);
            let s = n.scroll->0;
            let a = aim(value, node_at(r.nodes, id), k);
            ||| a == limit(value, n, k)
            ||| exists|j: int|
                a == (#[trigger] crate::pointing::steps(j)) * (value(s.snap_step) * value(s.scale))
        }),
{
    let n = node_at(nodes, id);
    let chain = seq![id];
    assert(chain.len() == 1 && chain[0] == id);
    fractions_are_exact(value);
    let s = n.scroll->0;
    match key_request(code, viewport, scale) {
        Some(crate::input::ScrollRequest::By(d)) => {
            let to = [s.target[0].sum(d[0]), s.target[1].sum(d[1])];
            crate::pointing::targets_rest_where_they_may(value, n, to, k);
            let after = with_node(nodes, id, nudged(n, d, true));
            let r = bubbled(nodes, chain, d, true, false, false, 0);
            reveal_with_fuel(bubbled, 3);
            assert(r.nodes == after);
        },
        Some(edge) => {
            match crate::input::edge_target(n, edge is ToEnd) {
                Some(to) => {
                    crate::pointing::targets_rest_where_they_may(value, n, to, k);
                },
                None => {},
            }
        },
        None => {},
    }
}

} // verus!
