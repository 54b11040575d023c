//! What the pointer does: which node it is over, what a press and its release
//! change, and how scrollbars follow it.
use vstd::prelude::*;

use crate::input::{
    bar_pressed, cells_exist, cells_follow_their_nodes, drag_ended, drag_position, entry_cell,
    first_hit, hover_applied, last_bar, offset_at, over_entry, pointer_left, pointer_moved,
    press_ended, press_taken, synced, syncing_keeps_the_store, Aspect, InputChange, InputState,
    ScrollbarPress,
};
use crate::node::scroll::{aimed, jumped, scroll_range, snapped};
use crate::node::tree::{live, node_at, Node};
use crate::node::{HitEntry, NodeId, ScrollAxis, ScrollbarHit};
use crate::num::{computes_exactly, fractions_are_exact, nearest_is, stands_for, Num};
use crate::scrolling::{aim, at_ease, limit, scrolls_along};
use crate::signal::{Cell, Value};

verus! {

/// The point lies in a rectangle given by its near and far edges: the near ones
/// belong to it.
pub open spec fn within<N>(value: spec_fn(N) -> real, r: [N; 4], x: N, y: N) -> bool {
    &&& value(r[0]) <= value(x) < value(r[2])
    &&& value(r[1]) <= value(y) < value(r[3])
}

/// The node that is hit is that of the first entry that has the point in its
/// bounds and its clip; where none has, none is hit.
pub proof fn the_topmost_node_is_hit<N: Num>(
    value: spec_fn(N) -> real,
    hits: Seq<HitEntry<N>>,
    x: N,
    y: N,
)
    requires
        computes_exactly(value),
    ensures
        forall|k: int|
            0 <= k < hits.len() && within(value, hits[k].bounds, x, y) && within(
                value,
                (#[trigger] hits[k]).clip_rect,
                x,
                y,
            ) && (forall|j: int|
                0 <= j < k ==> !(within(value, hits[j].bounds, x, y) && within(
                    value,
                    (#[trigger] hits[j]).clip_rect,
                    x,
                    y,
                ))) ==> first_hit(hits, x, y, 0) == Some(hits[k].node_id),
        (forall|j: int|
            0 <= j < hits.len() ==> !(within(value, hits[j].bounds, x, y) && within(
                value,
                (#[trigger] hits[j]).clip_rect,
                x,
                y,
            ))) ==> first_hit(hits, x, y, 0) is None,
{
    first_hit_is_first(value, hits, x, y, 0);
}

proof fn first_hit_is_first<N: Num>(
    value: spec_fn(N) -> real,
    hits: Seq<HitEntry<N>>,
    x: N,
    y: N,
    i: nat,
)
    requires
        computes_exactly(value),
        i <= hits.len(),
    ensures
        (forall|j: int|
            i <= j < hits.len() ==> !(within(value, hits[j].bounds, x, y) && within(
                value,
                (#[trigger] hits[j]).clip_rect,
                x,
                y,
            ))) && first_hit(hits, x, y, i) is None || (exists|k: int|
            i <= k < hits.len() && within(value, hits[k].bounds, x, y) && within(
                value,
                (#[trigger] hits[k]).clip_rect,
                x,
                y,
            ) && first_hit(hits, x, y, i) == Some(hits[k].node_id) && (forall|j: int|
                i <= j < k ==> !(within(value, hits[j].bounds, x, y) && within(
                    value,
                    (#[trigger] hits[j]).clip_rect,
                    x,
                    y,
                )))),
    decreases hits.len() - i,
{
    if i < hits.len() {
        let h = hits[i as int];
        assert(h.holds(x, y) == (within(value, h.bounds, x, y) && within(
            value,
            h.clip_rect,
            x,
            y,
        )));
        if !h.holds(x, y) {
            first_hit_is_first(value, hits, x, y, i + 1);
        }
    }
}

/// No cell stands for two things: the cells of the listed nodes differ by their
/// node and by what they follow.
pub open spec fn cells_are_apart<N: Num>(
    hits: Seq<HitEntry<N>>,
    nodes: Seq<Option<Node<N>>>,
) -> bool {
    forall|j: int, k: int, a: Aspect, b: Aspect|
        0 <= j < hits.len() && 0 <= k < hits.len() && (#[trigger] entry_cell(hits, nodes, a, j))
            is Some && entry_cell(hits, nodes, a, j) == #[trigger] entry_cell(hits, nodes, b, k)
            ==> a == b && hits[j].node_id == hits[k].node_id
}

/// The cells that follow one aspect are on for the node `target` and off for
/// all others.
pub open spec fn cells_show<N: Num>(
    hits: Seq<HitEntry<N>>,
    nodes: Seq<Option<Node<N>>>,
    store: Seq<Cell<N>>,
    aspect: Aspect,
    target: Option<NodeId>,
) -> bool {
    forall|k: int|
        0 <= k < hits.len() && (#[trigger] entry_cell(hits, nodes, aspect, k)) is Some
            ==> store[entry_cell(hits, nodes, aspect, k)->0.index as int].value == Value::<
            N,
        >::Flag(Some(hits[k].node_id) == target)
}

/// Setting the cells of one aspect makes them show it and leaves the others.
proof fn setting_shows<N: Num>(
    hits: Seq<HitEntry<N>>,
    nodes: Seq<Option<Node<N>>>,
    store: Seq<Cell<N>>,
    aspect: Aspect,
    target: Option<NodeId>,
)
    requires
        cells_exist(hits, nodes, store.len()),
        cells_are_apart(hits, nodes),
    ensures
        ({
            let after = synced(hits, nodes, aspect, target, store, hits.len());
            &&& cells_show(hits, nodes, after, aspect, target)
            &&& after.len() == store.len()
            &&& forall|b: Aspect, t: Option<NodeId>|
                b != aspect && #[trigger] cells_show(hits, nodes, store, b, t) ==> cells_show(
                    hits,
                    nodes,
                    after,
                    b,
                    t,
                )
        }),
{
    let after = synced(hits, nodes, aspect, target, store, hits.len());
    assert forall|k: int|
        0 <= k < hits.len() && (#[trigger] entry_cell(hits, nodes, aspect, k)) is Some implies after[
    entry_cell(hits, nodes, aspect, k)->0.index as int].value == Value::<N>::Flag(
        Some(hits[k].node_id) == target,
    ) by {
        cells_follow_their_nodes(hits, nodes, aspect, target, store, hits.len(), k);
    }
    assert forall|b: Aspect, t: Option<NodeId>|
        b != aspect && #[trigger] cells_show(hits, nodes, store, b, t) implies cells_show(
        hits,
        nodes,
        after,
        b,
        t,
    ) by {
        assert forall|k: int|
            0 <= k < hits.len() && (#[trigger] entry_cell(hits, nodes, b, k)) is Some implies after[
        entry_cell(hits, nodes, b, k)->0.index as int].value == Value::<N>::Flag(
            Some(hits[k].node_id) == t,
        ) by {
            setting_leaves(hits, nodes, store, aspect, target, b, k, hits.len());
        }
    }
    syncing_keeps_the_store(hits, nodes, aspect, target, store, hits.len());
}

proof fn setting_leaves<N: Num>(
    hits: Seq<HitEntry<N>>,
    nodes: Seq<Option<Node<N>>>,
    store: Seq<Cell<N>>,
    aspect: Aspect,
    target: Option<NodeId>,
    b: Aspect,
    k: int,
    n: nat,
)
    requires
        cells_exist(hits, nodes, store.len()),
        cells_are_apart(hits, nodes),
        n <= hits.len(),
        0 <= k < hits.len(),
        b != aspect,
        entry_cell(hits, nodes, b, k) is Some,
    ensures
        synced(hits, nodes, aspect, target, store, n)[entry_cell(
            hits,
            nodes,
            b,
            k,
        )->0.index as int] == store[entry_cell(hits, nodes, b, k)->0.index as int],
    decreases n,
{
    if n > 0 {
        setting_leaves(hits, nodes, store, aspect, target, b, k, (n - 1) as nat);
        syncing_keeps_the_store(hits, nodes, aspect, target, store, (n - 1) as nat);
        let (c, d) = (entry_cell(hits, nodes, aspect, n - 1), entry_cell(hits, nodes, b, k));
        assert(c != d || c is None);
    }
}

/// A pointer that moves hovers the topmost node under it, and while a press is
/// held, the node that it began on; that one looks pressed while the pointer is
/// over it. The cells show it. Focus and the press itself stay.
pub proof fn hover_follows_the_pointer<N: Num>(
    before: InputState<N>,
    after: InputState<N>,
    hits: Seq<HitEntry<N>>,
    nodes: Seq<Option<Node<N>>>,
    store: Seq<Cell<N>>,
    store_after: Seq<Cell<N>>,
    x: N,
    y: N,
    r: InputChange,
)
    requires
        cells_exist(hits, nodes, store.len()),
        cells_are_apart(hits, nodes),
        cells_show(hits, nodes, store, Aspect::Hover, before.hovered),
        pointer_moved(before, after, hits, nodes, store, store_after, x, y, r),
    ensures
        after.cursor == Some([x, y]),
        after.captured == before.captured,
        after.focused == before.focused,
        before.captured is None ==> after.hovered == first_hit(hits, x, y, 0),
        before.captured is Some ==> after.hovered == before.captured,
        cells_show(hits, nodes, store_after, Aspect::Hover, after.hovered),
        before.captured is Some ==> cells_show(
            hits,
            nodes,
            store_after,
            Aspect::Pressed,
            if over_entry(hits, before.captured->0, x, y, 0) {
                before.captured
            } else {
                None
            },
        ),
        forall|t: Option<NodeId>| #[trigger]
            cells_show(hits, nodes, store, Aspect::Focused, t) ==> cells_show(
                hits,
                nodes,
                store_after,
                Aspect::Focused,
                t,
            ),
        forall|t: Option<NodeId>|
            before.captured is None && #[trigger] cells_show(
                hits,
                nodes,
                store,
                Aspect::Pressed,
                t,
            ) ==> cells_show(hits, nodes, store_after, Aspect::Pressed, t),
{
    let hover = before.hover_at(hits, x, y);
    let pressed = before.pressed_at(hits, x, y);
    setting_shows(hits, nodes, store, Aspect::Hover, hover);
    let first = if hover != before.hovered {
        synced(hits, nodes, Aspect::Hover, hover, store, hits.len())
    } else {
        store
    };
    setting_shows(hits, nodes, first, Aspect::Pressed, pressed);
}

/// A pointer that leaves hovers nothing, and the cells show it. A press that is
/// held is still held.
pub proof fn a_pointer_that_left_hovers_nothing<N: Num>(
    before: InputState<N>,
    after: InputState<N>,
    hits: Seq<HitEntry<N>>,
    nodes: Seq<Option<Node<N>>>,
    store: Seq<Cell<N>>,
    store_after: Seq<Cell<N>>,
    r: InputChange,
)
    requires
        cells_exist(hits, nodes, store.len()),
        cells_are_apart(hits, nodes),
        cells_show(hits, nodes, store, Aspect::Hover, before.hovered),
        pointer_left(before, after, hits, nodes, store, store_after, r),
    ensures
        after.cursor is None,
        after.hovered is None,
        after.captured == before.captured,
        after.focused == before.focused,
        cells_show(hits, nodes, store_after, Aspect::Hover, None),
{
    setting_shows(hits, nodes, store, Aspect::Hover, None);
}

/// A press is taken by the node that is hovered: it holds the press, looks
/// pressed, and has the focus; no other node does.
pub proof fn presses_go_to_the_hovered_node<N: Num>(
    before: InputState<N>,
    after: InputState<N>,
    hits: Seq<HitEntry<N>>,
    nodes: Seq<Option<Node<N>>>,
    store: Seq<Cell<N>>,
    store_after: Seq<Cell<N>>,
    r: InputChange,
)
    requires
        cells_exist(hits, nodes, store.len()),
        cells_are_apart(hits, nodes),
        cells_show(hits, nodes, store, Aspect::Focused, before.focused),
        press_taken(before, after, hits, nodes, store, store_after, r),
    ensures
        after.captured == before.hovered,
        after.focused == before.hovered,
        after.hovered == before.hovered,
        after.cursor == before.cursor,
        cells_show(hits, nodes, store_after, Aspect::Pressed, before.hovered),
        cells_show(hits, nodes, store_after, Aspect::Focused, before.hovered),
        forall|t: Option<NodeId>| #[trigger]
            cells_show(hits, nodes, store, Aspect::Hover, t) ==> cells_show(
                hits,
                nodes,
                store_after,
                Aspect::Hover,
                t,
            ),
{
    let target = before.hovered;
    setting_shows(hits, nodes, store, Aspect::Pressed, target);
    let first = synced(hits, nodes, Aspect::Pressed, target, store, hits.len());
    setting_shows(hits, nodes, first, Aspect::Focused, target);
}

/// A release ends the press: nothing holds it or looks pressed, and the topmost
/// node under the pointer is hovered again. The focus stays where the press
/// put it.
pub proof fn releases_end_the_press<N: Num>(
    before: InputState<N>,
    after: InputState<N>,
    hits: Seq<HitEntry<N>>,
    nodes: Seq<Option<Node<N>>>,
    store: Seq<Cell<N>>,
    store_after: Seq<Cell<N>>,
    r: InputChange,
)
    requires
        cells_exist(hits, nodes, store.len()),
        cells_are_apart(hits, nodes),
        cells_show(hits, nodes, store, Aspect::Hover, before.hovered),
        press_ended(before, after, hits, nodes, store, store_after, r),
    ensures
        after.captured is None,
        after.focused == before.focused,
        after.cursor == before.cursor,
        before.cursor is Some ==> after.hovered == first_hit(
            hits,
            before.cursor->0[0],
            before.cursor->0[1],
            0,
        ),
        before.cursor is None ==> after.hovered == before.hovered,
        cells_show(hits, nodes, store_after, Aspect::Pressed, None),
        cells_show(hits, nodes, store_after, Aspect::Hover, after.hovered),
        forall|t: Option<NodeId>| #[trigger]
            cells_show(hits, nodes, store, Aspect::Focused, t) ==> cells_show(
                hits,
                nodes,
                store_after,
                Aspect::Focused,
                t,
            ),
{
    setting_shows(hits, nodes, store, Aspect::Pressed, None);
    let first = synced(hits, nodes, Aspect::Pressed, None, store, hits.len());
    setting_shows(hits, nodes, first, Aspect::Hover, after.hovered);
}

/// The bar that takes a press is the last one whose track and clip have the
/// point.
pub proof fn the_innermost_bar_is_pressed<N: Num>(
    value: spec_fn(N) -> real,
    bars: Seq<ScrollbarHit<N>>,
    x: N,
    y: N,
)
    requires
        computes_exactly(value),
    ensures
        match last_bar(bars, x, y, bars.len()) {
            Some(k) => {
                &&& 0 <= k < bars.len()
                &&& within(value, bars[k].track, x, y)
                &&& within(value, bars[k].clip_rect, x, y)
                &&& forall|j: int|
                    k < j < bars.len() ==> !(within(value, bars[j].track, x, y) && within(
                        value,
                        (#[trigger] bars[j]).clip_rect,
                        x,
                        y,
                    ))
            },
            None => forall|j: int|
                0 <= j < bars.len() ==> !(within(value, bars[j].track, x, y) && within(
                    value,
                    (#[trigger] bars[j]).clip_rect,
                    x,
                    y,
                )),
        },
{
    last_bar_is_last(value, bars, x, y, bars.len());
}

proof fn last_bar_is_last<N: Num>(
    value: spec_fn(N) -> real,
    bars: Seq<ScrollbarHit<N>>,
    x: N,
    y: N,
    n: nat,
)
    requires
        computes_exactly(value),
        n <= bars.len(),
    ensures
        match last_bar(bars, x, y, n) {
            Some(k) => {
                &&& 0 <= k < n
                &&& within(value, bars[k].track, x, y)
                &&& within(value, bars[k].clip_rect, x, y)
                &&& forall|j: int|
                    k < j < n ==> !(within(value, bars[j].track, x, y) && within(
                        value,
                        (#[trigger] bars[j]).clip_rect,
                        x,
                        y,
                    ))
            },
            None => forall|j: int|
                0 <= j < n ==> !(within(value, bars[j].track, x, y) && within(
                    value,
                    (#[trigger] bars[j]).clip_rect,
                    x,
                    y,
                )),
        },
    decreases n,
{
    if n > 0 {
        last_bar_is_last(value, bars, x, y, (n - 1) as nat);
        let b = bars[n - 1];
        assert(b.under(x, y) == (within(value, b.track, x, y) && within(
            value,
            b.clip_rect,
            x,
            y,
        )));
    }
}

/// Number of an axis: 0 is horizontal, 1 vertical.
pub open spec fn axis_index(axis: ScrollAxis) -> int {
    if axis is X {
        0
    } else {
        1
    }
}

/// A press on the track beside the thumb scrolls to where the middle of the
/// thumb comes under the pointer, as far as the thumb travels: the content is
/// then as far along its way as the thumb is along its own. The other axis
/// stays, and so do all other nodes.
pub proof fn thumbs_come_under_the_pointer<N: Num>(
    value: spec_fn(N) -> real,
    b: ScrollbarHit<N>,
    nodes: Seq<Option<Node<N>>>,
    cursor: [N; 2],
)
    requires
        computes_exactly(value),
        !within(value, b.thumb, cursor[0], cursor[1]),
        value(b.track_travel) > 0real,
        live(nodes, b.node_id),
        at_ease(value, node_at(nodes, b.node_id)),
        scrolls_along(node_at(nodes, b.node_id), axis_index(b.axis)),
        0real <= value(b.max_offset) <= limit(
            value,
            node_at(nodes, b.node_id),
            axis_index(b.axis),
        ),
    ensures
        ({
            let k = axis_index(b.axis);
            let (press, after) = bar_pressed(b, nodes, cursor);
            let (n, m) = (node_at(nodes, b.node_id), node_at(after, b.node_id));
            let thumb = value(b.thumb[k + 2]) - value(b.thumb[k]);
            let ahead = value(cursor[k]) - value(b.track[k]) - thumb / 2real;
            let way = value(b.track_travel);
            &&& press is JumpedToPosition
            &&& 0real <= ahead <= way ==> aim(value, m, k) * way == ahead * value(b.max_offset)
            &&& ahead < 0real ==> aim(value, m, k) == 0real
            &&& ahead > way ==> aim(value, m, k) == value(b.max_offset)
            &&& aim(value, m, 1 - k) == aim(value, n, 1 - k)
            &&& m.scroll->0.current == n.scroll->0.current
            &&& forall|j: int|
                0 <= j < nodes.len() && j != b.node_id.index ==> #[trigger] after[j] == nodes[j]
        }),
{
    fractions_are_exact(value);
    let k = axis_index(b.axis);
    let n = node_at(nodes, b.node_id);
    let max = scroll_range(n);
    assert(value(max[0]) == limit(value, n, 0));
    assert(value(max[1]) == limit(value, n, 1));
    let thumb = value(b.thumb[k + 2]) - value(b.thumb[k]);
    let half = value(N::fraction(1, 2));
    assert(thumb * half == thumb / 2real) by (nonlinear_arith)
        requires
            half * 2real == 1real,
    ;
    let ahead = value(cursor[k]) - value(b.track[k]) - thumb / 2real;
    let way = value(b.track_travel);
    let pointer = crate::input::component(b.axis, cursor);
    let track_min = crate::input::component(b.axis, [b.track[0], b.track[1]]);
    let raw = pointer.difference(track_min).difference(
        crate::input::thumb_len(b).product(N::fraction(1, 2)),
    );
    assert(value(raw) == ahead);
    let q = value(raw.quotient(b.track_travel));
    assert(q * way == ahead);
    assert((ahead < 0real <==> q < 0real) && (ahead > way <==> q > 1real)) by (nonlinear_arith)
        requires
            q * way == ahead,
            way > 0real,
    ;
    let m = value(b.max_offset);
    assert((q * m) * way == ahead * m) by (nonlinear_arith)
        requires
            q * way == ahead,
    ;
    assert(0real * m == 0real && 1real * m == m) by (nonlinear_arith);
    assert(0real <= q <= 1real ==> 0real <= q * m <= m) by (nonlinear_arith)
        requires
            0real <= m,
    ;
    let o = value(offset_at(b, pointer));
    assert(0real <= o <= m);
}

/// A press on the thumb takes hold of it: the bar is held from there on, and
/// nothing scrolls.
pub proof fn thumbs_are_grabbed<N: Num>(
    value: spec_fn(N) -> real,
    b: ScrollbarHit<N>,
    nodes: Seq<Option<Node<N>>>,
    cursor: [N; 2],
)
    requires
        computes_exactly(value),
        within(value, b.thumb, cursor[0], cursor[1]),
        live(nodes, b.node_id),
        node_at(nodes, b.node_id).scroll is Some,
    ensures
        ({
            let k = axis_index(b.axis);
            let (press, after) = bar_pressed(b, nodes, cursor);
            let (n, m) = (node_at(nodes, b.node_id), node_at(after, b.node_id));
            &&& press == (ScrollbarPress::StartDrag {
                node_id: b.node_id,
                axis: b.axis,
                pointer_origin: cursor[k],
                scroll_origin: n.scroll->0.current[k],
                track_travel: b.track_travel,
                max_offset: b.max_offset,
            })
            &&& m.scroll->0.bar_active[k]
            &&& m.scroll->0.bar_active[1 - k] == n.scroll->0.bar_active[1 - k]
            &&& m.scroll->0.target == n.scroll->0.target
            &&& m.scroll->0.current == n.scroll->0.current
            &&& forall|j: int|
                0 <= j < nodes.len() && j != b.node_id.index ==> #[trigger] after[j] == nodes[j]
        }),
{
}

/// A thumb that is dragged stays under the pointer: the content moves as much
/// farther along its way as the thumb along its own. Where the pointer is back,
/// so is the content.
pub proof fn thumbs_stay_under_the_pointer<N: Num>(
    value: spec_fn(N) -> real,
    pointer: N,
    pointer_origin: N,
    scroll_origin: N,
    track_travel: N,
    max_offset: N,
)
    requires
        computes_exactly(value),
        value(track_travel) > 0real,
    ensures
        ({
            let p = value(
                drag_position(pointer, pointer_origin, scroll_origin, track_travel, max_offset),
            );
            &&& (p - value(scroll_origin)) * value(track_travel) == (value(pointer) - value(
                pointer_origin,
            )) * value(max_offset)
            &&& value(pointer) == value(pointer_origin) ==> p == value(scroll_origin)
        }),
{
    let q = value(max_offset.quotient(track_travel));
    let (t, m) = (value(track_travel), value(max_offset));
    let d = value(pointer) - value(pointer_origin);
    assert(q * t == m);
    assert((d * q) * t == d * m) by (nonlinear_arith)
        requires
            q * t == m,
    ;
    assert(0real * q == 0real) by (nonlinear_arith);
}

/// Content that is put at a place is there at once, as far as it reaches, and
/// is going nowhere else. The other axis stays.
pub proof fn dragged_content_is_there_at_once<N: Num>(
    value: spec_fn(N) -> real,
    n: Node<N>,
    axis: ScrollAxis,
    pos: N,
)
    requires
        computes_exactly(value),
        n.scroll is Some,
    ensures
        ({
            let k = axis_index(axis);
            let (s, t) = (n.scroll->0, jumped(n, axis, pos).scroll->0);
            let p = value(pos);
            &&& t.target[k] == t.current[k]
            &&& 0real <= p <= limit(value, n, k) ==> value(t.current[k]) == p
            &&& p < 0real ==> value(t.current[k]) == 0real
            &&& p > limit(value, n, k) ==> value(t.current[k]) == limit(value, n, k)
            &&& t.target[1 - k] == s.target[1 - k]
            &&& t.current[1 - k] == s.current[1 - k]
        }),
{
    fractions_are_exact(value);
    let max = scroll_range(n);
    assert(value(max[0]) == limit(value, n, 0));
    assert(value(max[1]) == limit(value, n, 1));
}

/// The end of a drag lets go of the one bar. Content with no step to rest on
/// stays where it is.
pub proof fn a_drag_that_ends_lets_go<N: Num>(
    value: spec_fn(N) -> real,
    nodes: Seq<Option<Node<N>>>,
    id: NodeId,
    axis: ScrollAxis,
)
    requires
        computes_exactly(value),
        live(nodes, id),
        node_at(nodes, id).scroll is Some,
        at_ease(value, node_at(nodes, id)),
        0real <= value(node_at(nodes, id).scroll->0.current[axis_index(axis)]) <= limit(
            value,
            node_at(nodes, id),
            axis_index(axis),
        ),
        scrolls_along(node_at(nodes, id), axis_index(axis)),
    ensures
        ({
            let k = axis_index(axis);
            let after = drag_ended(nodes, id, axis);
            let (s, t) = (node_at(nodes, id).scroll->0, node_at(after, id).scroll->0);
            &&& !t.bar_active[k]
            &&& t.bar_active[1 - k] == s.bar_active[1 - k]
            &&& t.current == s.current
            &&& value(t.target[k]) == value(s.current[k])
            &&& forall|j: int|
                0 <= j < nodes.len() && j != id.index ==> #[trigger] after[j] == nodes[j]
        }),
{
    fractions_are_exact(value);
    let n = node_at(nodes, id);
    let max = scroll_range(n);
    assert(value(max[0]) == limit(value, n, 0));
    assert(value(max[1]) == limit(value, n, 1));
}

/// A bar is marked as hovered where the pointer is on its visible track, and
/// one that the pointer comes over is shown in full.
pub proof fn bars_under_the_pointer_are_marked<N: Num>(
    value: spec_fn(N) -> real,
    before: Seq<Option<Node<N>>>,
    after: Seq<Option<Node<N>>>,
    cursor: Option<[N; 2]>,
    bars: Seq<ScrollbarHit<N>>,
    k: int,
)
    requires
        computes_exactly(value),
        hover_applied(before, after, cursor, bars, bars.len() as int),
        0 <= k < bars.len(),
        live(before, bars[k].node_id),
        node_at(before, bars[k].node_id).scroll is Some,
    ensures
        ({
            let id = bars[k].node_id;
            let (s, t) = (node_at(before, id).scroll->0, node_at(after, id).scroll->0);
            &&& cursor is None ==> t.bar_hover == [false, false]
            &&& cursor is Some && within(value, bars[k].track, cursor->0[0], cursor->0[1])
                && within(value, bars[k].clip_rect, cursor->0[0], cursor->0[1])
                ==> t.bar_hover[axis_index(bars[k].axis)]
            &&& forall|a: int|
                0 <= a < 2 && #[trigger] t.bar_hover[a] ==> exists|j: int|
                    0 <= j < bars.len() && (#[trigger] bars[j]).node_id == id && axis_index(
                        bars[j].axis,
                    ) == a && within(value, bars[j].track, cursor->0[0], cursor->0[1]) && within(
                        value,
                        bars[j].clip_rect,
                        cursor->0[0],
                        cursor->0[1],
                    )
            &&& (t.bar_hover[0] || t.bar_hover[1]) && t.bar_hover != s.bar_hover ==> value(
                t.bar_alpha,
            ) == 1real
            &&& t.target == s.target && t.current == s.current && t.bar_active == s.bar_active
        }),
{
    fractions_are_exact(value);
    let id = bars[k].node_id;
    assert(crate::input::has_bar(bars, id, bars.len() as int));
    let t = node_at(after, id).scroll->0;
    assert(t.bar_hover =~= crate::input::hover_flags(cursor, bars, id));
    if let Some(c) = cursor {
        assert forall|j: int| 0 <= j < bars.len() implies (#[trigger] bars[j]).under(c[0], c[1])
            == (within(value, bars[j].track, c[0], c[1]) && within(
            value,
            bars[j].clip_rect,
            c[0],
            c[1],
        )) by {}
    } else {
        assert(t.bar_hover =~= [false, false]);
    }
}

/// With a step, content comes to rest on a multiple of it, and on the one that
/// is nearest to where it was to go; or else at an end.
pub proof fn content_rests_on_the_nearest_step<N: Num>(
    value: spec_fn(N) -> real,
    v: N,
    step: N,
    max: N,
)
    requires
        computes_exactly(value),
        value(step) > 0real,
        0real <= value(max),
    ensures
        ({
            let (a, r, s, m) = (value(v), value(snapped(v, step, max)), value(step), value(max));
            &&& 0real <= r <= m
            &&& a >= m ==> r == m
            &&& a < m && r < m ==> exists|k: int| r == (#[trigger] steps(k)) * s
            &&& 0real <= a < m && r < m ==> -s <= 2real * (a - r) <= s
            &&& 0real <= a < m && r == m ==> 2real * (m - a) <= s
        }),
{
    fractions_are_exact(value);
    let p = crate::num::held(v, crate::num::zero(), max);
    let (a, s, m) = (value(p), value(step), value(max));
    if a < m {
        let q = p.quotient(step);
        let w = q.rounded();
        assert(nearest_is(value(q), value(w)));
        let k = choose|k: int| #[trigger] stands_for(value(w), k);
        let x = value(w) * s;
        assert(x == steps(k) * s);
        assert(value(q) * s == a);
        assert(-s <= 2real * (a - x) <= s) by (nonlinear_arith)
            requires
                value(q) * s == a,
                x == value(w) * s,
                -1real <= 2real * (value(q) - value(w)) <= 1real,
                s > 0real,
        ;
        if x < 0real {
            assert(0real == steps(0) * s) by (nonlinear_arith)
                requires
                    steps(0) == 0real,
            ;
        }
    }
}

/// So many steps.
pub open spec fn steps(k: int) -> real {
    k as real
}

/// The nodes after their target was asked to be elsewhere rest where they may:
/// with `snap`, on a multiple of the step or at the end of the content; without,
/// wherever that is, as far as the content reaches. An axis that does not scroll
/// stays.
pub proof fn targets_rest_where_they_may<N: Num>(
    value: spec_fn(N) -> real,
    n: Node<N>,
    to: [N; 2],
    k: int,
)
    requires
        computes_exactly(value),
        n.scroll is Some,
        k == 0 || k == 1,
    ensures
        ({
            let s = n.scroll->0;
            let step = value(s.snap_step) * value(s.scale);
            let max = limit(value, n, k);
            let a = value(to[k]);
            let free = aim(value, aimed(n, to, false), k);
            let rest = aim(value, aimed(n, to, true), k);
            &&& scrolls_along(n, k) ==> {
                &&& 0real <= a <= max ==> free == a
                &&& a < 0real ==> free == 0real
                &&& a > max ==> free == max
                &&& step <= 0real ==> rest == free
                &&& 0real <= rest <= max
                &&& step > 0real && a >= max ==> rest == max
                &&& step > 0real && a < max && rest < max ==> exists|j: int|
                    rest == (#[trigger] steps(j)) * step
                &&& step > 0real && 0real <= a < max && rest < max ==> -step <= 2real * (a - rest)
                    <= step
            }
            &&& !scrolls_along(n, k) ==> free == aim(value, n, k) && rest == aim(value, n, k)
        }),
{
    fractions_are_exact(value);
    let s = n.scroll->0;
    let max = scroll_range(n);
    assert(value(max[0]) == limit(value, n, 0));
    assert(value(max[1]) == limit(value, n, 1));
    let step = s.snap_step.product(s.scale);
    if value(step) > 0real {
        content_rests_on_the_nearest_step(value, to[k], step, max[k]);
    }
}

} // verus!
