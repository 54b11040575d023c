//! The window: its edges, its pointer shape, its size and its scale.
use vstd::prelude::*;

use crate::node::tree::{live, node_at, CursorShape, Node, NodeTree, WindowAction};
use crate::node::{HitEntry, NodeId};
use crate::num::{
    computes_exactly, fractions_are_exact, nearest_is, stands_for, whole_is, zero, Num,
};

verus! {

/// Pixels at the edge of the window that resize it.
pub const RESIZE_GUTTER: i32 = 6;

/// Nanoseconds after a change of scale in which a resize is due to it.
pub const DPI_WINDOW: u64 = 500_000_000;

/// Logical pixels that a line of the wheel scrolls.
pub const WHEEL_LINE: i32 = 50;

/// How the window is made.
#[derive(Clone, Debug)]
pub struct AppConfig<N> {
    pub title: String,
    pub width: u32,
    pub height: u32,
    pub decorations: bool,
    pub transparent: bool,
    pub blur: bool,
    /// Directory that screenshots go to.
    pub capture_dir: String,
    /// Radius of the window corners in logical pixels.
    pub window_corner_radius: N,
    /// Width, height and RGBA pixels.
    pub window_icon: Option<(u32, u32, Vec<u8>)>,
}

impl<N: Num> AppConfig<N> {
    /// A transparent, blurred window without decorations and with square
    /// corners.
    pub fn new(title: String, width: u32, height: u32) -> (r: Self)
        ensures
            r.title == title,
            r.width == width,
            r.height == height,
            !r.decorations,
            r.transparent,
            r.blur,
            r.capture_dir@ == "debug_captures"@,
            r.window_corner_radius == zero::<N>(),
            r.window_icon is None,
    {
        AppConfig {
            title,
            width,
            height,
            decorations: false,
            transparent: true,
            blur: true,
            capture_dir: "debug_captures".to_owned(),
            window_corner_radius: N::of_ratio(0, 1),
            window_icon: None,
        }
    }

    /// The radius of the corners: none while the window is maximised.
    pub fn corner_radius(&self, maximized: bool) -> (r: N)
        ensures
            r == (if maximized {
                zero::<N>()
            } else {
                self.window_corner_radius
            }),
    {
        if maximized {
            N::of_ratio(0, 1)
        } else {
            self.window_corner_radius
        }
    }
}

/// An edge or a corner of the window.
#[derive(Copy, Clone, Debug, PartialEq, Eq, Structural)]
pub enum Edge {
    North,
    South,
    East,
    West,
    NorthWest,
    NorthEast,
    SouthWest,
    SouthEast,
}

/// The edge that a point is at. A corner comes before its edges, top before
/// bottom and left before right.
pub open spec fn edge_of<N: Num>(x: N, y: N, width: N, height: N) -> Option<Edge> {
    let g = N::fraction(RESIZE_GUTTER, 1);
    let l = x.below(g);
    let r = width.difference(g).below(x);
    let t = y.below(g);
    let b = height.difference(g).below(y);
    if t && l {
        Some(Edge::NorthWest)
    } else if t && r {
        Some(Edge::NorthEast)
    } else if b && l {
        Some(Edge::SouthWest)
    } else if b && r {
        Some(Edge::SouthEast)
    } else if t {
        Some(Edge::North)
    } else if b {
        Some(Edge::South)
    } else if l {
        Some(Edge::West)
    } else if r {
        Some(Edge::East)
    } else {
        None
    }
}

/// The edge that a press at a point would resize; none while the window is
/// maximised.
pub fn edge_at<N: Num>(x: N, y: N, surface: [u32; 2], maximized: bool) -> (r: Option<Edge>)
    ensures
        r == (if maximized {
            None
        } else {
            edge_of(x, y, N::natural(surface[0] as u64), N::natural(surface[1] as u64))
        }),
{
    if maximized {
        return None;
    }
    let g: N = N::of_ratio(RESIZE_GUTTER, 1);
    let w: N = N::of_u64(surface[0] as u64);
    let h: N = N::of_u64(surface[1] as u64);
    let l: bool = x.lt(g);
    let r: bool = w.minus(g).lt(x);
    let t: bool = y.lt(g);
    let b: bool = h.minus(g).lt(y);
    match (t, b, l, r) {
        (true, _, true, _) => Some(Edge::NorthWest),
        (true, _, _, true) => Some(Edge::NorthEast),
        (_, true, true, _) => Some(Edge::SouthWest),
        (_, true, _, true) => Some(Edge::SouthEast),
        (true, _, _, _) => Some(Edge::North),
        (_, true, _, _) => Some(Edge::South),
        (_, _, true, _) => Some(Edge::West),
        (_, _, _, true) => Some(Edge::East),
        _ => None,
    }
}

/// The pointer shape at an edge.
pub open spec fn edge_shape(e: Edge) -> CursorShape {
    match e {
        Edge::North => CursorShape::NResize,
        Edge::South => CursorShape::SResize,
        Edge::East => CursorShape::EResize,
        Edge::West => CursorShape::WResize,
        Edge::NorthWest => CursorShape::NwResize,
        Edge::NorthEast => CursorShape::NeResize,
        Edge::SouthWest => CursorShape::SwResize,
        Edge::SouthEast => CursorShape::SeResize,
    }
}

fn shape_of_edge(e: Edge) -> (r: CursorShape)
    ensures
        r == edge_shape(e),
{
    match e {
        Edge::North => CursorShape::NResize,
        Edge::South => CursorShape::SResize,
        Edge::East => CursorShape::EResize,
        Edge::West => CursorShape::WResize,
        Edge::NorthWest => CursorShape::NwResize,
        Edge::NorthEast => CursorShape::NeResize,
        Edge::SouthWest => CursorShape::SwResize,
        Edge::SouthEast => CursorShape::SeResize,
    }
}

/// The window control that a node stands for.
pub open spec fn action_of<N>(nodes: Seq<Option<Node<N>>>, id: Option<NodeId>) -> Option<
    WindowAction,
> {
    match id {
        Some(i) => if live(nodes, i) {
            node_at(nodes, i).window_action
        } else {
            None
        },
        None => None,
    }
}

/// The window control under the pointer.
pub fn hovered_window_action<N: Num>(tree: &NodeTree<N>, hovered: Option<NodeId>) -> (r: Option<
    WindowAction,
>)
    ensures
        r == action_of(tree.nodes(), hovered),
{
    match hovered {
        Some(id) => match tree.get(id) {
            Some(n) => n.window_action,
            None => None,
        },
        None => None,
    }
}

/// The pointer shape that a node asks for: its own, else the pointing hand
/// where it can be clicked.
pub open spec fn shape_asked<N>(n: Node<N>) -> Option<CursorShape> {
    if n.cursor is Some {
        n.cursor
    } else if n.handlers.click {
        Some(CursorShape::Pointer)
    } else {
        None
    }
}

/// What the topmost entry at or after `i` under a point asks for, among those
/// that ask for a shape.
pub open spec fn entry_shape<N: Num>(
    hits: Seq<HitEntry<N>>,
    nodes: Seq<Option<Node<N>>>,
    x: N,
    y: N,
    i: nat,
) -> Option<CursorShape>
    decreases hits.len() - i,
{
    if i >= hits.len() {
        None
    } else if hits[i as int].holds(x, y) && live(nodes, hits[i as int].node_id) && shape_asked(
        node_at(nodes, hits[i as int].node_id),
    ) is Some {
        shape_asked(node_at(nodes, hits[i as int].node_id))
    } else {
        entry_shape(hits, nodes, x, y, i + 1)
    }
}

/// The pointer shape that the nodes under a point ask for.
pub fn hovered_node_cursor<N: Num>(tree: &NodeTree<N>, hits: &Vec<HitEntry<N>>, x: N, y: N) -> (r:
    Option<CursorShape>)
    ensures
        r == entry_shape(hits@, tree.nodes(), x, y, 0),
{
    let mut i: usize = 0;
    while i < hits.len()
        invariant
            i <= hits@.len(),
            entry_shape(hits@, tree.nodes(), x, y, i as nat) == entry_shape(
                hits@,
                tree.nodes(),
                x,
                y,
                0,
            ),
        decreases hits.len() - i,
    {
        if hits[i].contains(x, y) {
            if let Some(n) = tree.get(hits[i].node_id) {
                if n.cursor.is_some() {
                    return n.cursor;
                }
                if n.handlers.click {
                    return Some(CursorShape::Pointer);
                }
            }
        }
        i = i + 1;
    }
    None
}

/// The pointer shape at a point: that of an edge of the window, else that of
/// a window control, else what a node asks for.
pub open spec fn shape_at<N: Num>(
    edge: Option<Edge>,
    action: Option<WindowAction>,
    asked: Option<CursorShape>,
) -> CursorShape {
    if edge is Some {
        edge_shape(edge->0)
    } else if action is Some {
        if action->0 is DragMove {
            CursorShape::Move
        } else {
            CursorShape::Pointer
        }
    } else if asked is Some {
        asked->0
    } else {
        CursorShape::Default
    }
}

/// Picks the pointer shape. The result is the shape to set, if it is not the
/// one that is set already.
pub fn refresh_cursor<N: Num>(
    last: &mut CursorShape,
    edge: Option<Edge>,
    tree: &NodeTree<N>,
    hits: &Vec<HitEntry<N>>,
    hovered: Option<NodeId>,
    x: N,
    y: N,
) -> (r: Option<CursorShape>)
    ensures
        ({
            let shape = shape_at::<N>(
                edge,
                action_of(tree.nodes(), hovered),
                entry_shape(hits@, tree.nodes(), x, y, 0),
            );
            &&& *final(last) == shape
            &&& r == (if shape == *old(last) {
                None
            } else {
                Some(shape)
            })
        }),
{
    let shape: CursorShape = match edge {
        Some(e) => shape_of_edge(e),
        None => match hovered_window_action(tree, hovered) {
            Some(WindowAction::DragMove) => CursorShape::Move,
            Some(_) => CursorShape::Pointer,
            None => match hovered_node_cursor(tree, hits, x, y) {
                Some(c) => c,
                None => CursorShape::Default,
            },
        },
    };
    if shape == *last {
        return None;
    }
    *last = shape;
    Some(shape)
}

/// Whether a press counts as one outside of all floating layers: it hit
/// nothing, or a node that lets it count.
pub fn press_is_outside<N: Num>(tree: &NodeTree<N>, captured: Option<NodeId>) -> (r: bool)
    ensures
        r == (match captured {
            None => true,
            Some(id) => live(tree.nodes(), id) && node_at(tree.nodes(), id).dismiss_transparent,
        }),
{
    match captured {
        None => true,
        Some(id) => match tree.get(id) {
            Some(n) => n.dismiss_transparent,
            None => false,
        },
    }
}

/// Whether the hook for presses outside is to be told of a press: there is
/// one, and the press counts.
pub fn unhandled_press_fires<N: Num>(
    tree: &NodeTree<N>,
    captured: Option<NodeId>,
    hook: bool,
) -> (r: bool)
    ensures
        r == (hook && match captured {
            None => true,
            Some(id) => live(tree.nodes(), id) && node_at(tree.nodes(), id).dismiss_transparent,
        }),
{
    hook && press_is_outside(tree, captured)
}

/// The physical size of a window.
pub open spec fn physical_size<N: Num>(logical: [u32; 2], scale: N) -> [u32; 2] {
    [
        N::natural(logical[0] as u64).product(scale).rounded().whole(),
        N::natural(logical[1] as u64).product(scale).rounded().whole(),
    ]
}

/// The smallest scale that sizes are divided by.
pub open spec fn smallest_scale<N: Num>() -> N {
    N::fraction(1, 8_388_608)
}

/// The logical size of a window.
pub open spec fn logical_size_of<N: Num>(size: [u32; 2], scale: N) -> [u32; 2] {
    let s = scale.larger(smallest_scale());
    [
        N::natural(size[0] as u64).quotient(s).rounded().whole(),
        N::natural(size[1] as u64).quotient(s).rounded().whole(),
    ]
}

/// The logical size of a window of a physical size.
pub fn logical_size<N: Num>(size: [u32; 2], scale: N) -> (r: [u32; 2])
    ensures
        r == logical_size_of(size, scale),
{
    let s: N = scale.max(N::of_ratio(1, 8_388_608));
    [
        N::of_u64(size[0] as u64).over(s).round().to_u32(),
        N::of_u64(size[1] as u64).over(s).round().to_u32(),
    ]
}

/// What a resize does.
#[derive(Copy, Clone, Debug)]
pub struct ResizeOutcome {
    pub logical: [u32; 2],
    /// The size to ask for in place of the one that came.
    pub force: Option<[u32; 2]>,
    /// Whether the window is to go back to where it was before the scale
    /// changed.
    pub restore_position: bool,
}

/// The resize comes from a change of scale.
pub open spec fn scale_just_changed(last: Option<u64>, now: u64) -> bool {
    last is Some && (now < last->0 || now - last->0 < DPI_WINDOW)
}

/// The window has a new physical size. If its scale has just changed, the
/// logical size stays and a size that does not go with it is sent back;
/// otherwise the logical size follows.
pub fn on_resized<N: Num>(
    logical: [u32; 2],
    scale: N,
    size: [u32; 2],
    last_scale_change: Option<u64>,
    now: u64,
) -> (r: ResizeOutcome)
    ensures
        ({
            let want = physical_size(logical, scale);
            let changed = scale_just_changed(last_scale_change, now);
            &&& r.restore_position == changed
            &&& r.force == (if changed && size != want {
                Some(want)
            } else {
                None
            })
            &&& r.logical == (if !changed && size != want {
                logical_size_of(size, scale)
            } else {
                logical
            })
        }),
{
    let recent: bool = match last_scale_change {
        Some(t) => now < t || now - t < DPI_WINDOW,
        None => false,
    };
    let want: [u32; 2] = [
        N::of_u64(logical[0] as u64).times(scale).round().to_u32(),
        N::of_u64(logical[1] as u64).times(scale).round().to_u32(),
    ];
    let other: bool = size[0] != want[0] || size[1] != want[1];
    proof {
        if !other {
            assert(size =~= want);
        }
    }
    if recent {
        let force: Option<[u32; 2]> = if other {
            Some(want)
        } else {
            None
        };
        ResizeOutcome { logical, force, restore_position: true }
    } else if other {
        ResizeOutcome {
            logical: logical_size(size, scale),
            force: None,
            restore_position: false,
        }
    } else {
        ResizeOutcome { logical, force: None, restore_position: false }
    }
}

/// Whether a scale differs from the one in use.
pub fn scale_changed<N: Num>(scale: N, in_use: N) -> (r: bool)
    ensures
        r == smallest_scale::<N>().below(scale.difference(in_use).magnitude()),
{
    N::of_ratio(1, 8_388_608).lt(scale.minus(in_use).abs())
}

/// A movement of the wheel.
#[derive(Copy, Clone, Debug)]
pub enum WheelDelta<N> {
    Lines([N; 2]),
    Pixels([N; 2]),
}

/// The movement in lines.
pub open spec fn wheel_in_lines<N: Num>(d: WheelDelta<N>, scale: N) -> [N; 2] {
    let line = N::fraction(WHEEL_LINE, 1).product(scale);
    match d {
        WheelDelta::Lines(l) => l,
        WheelDelta::Pixels(p) => [p[0].quotient(line), p[1].quotient(line)],
    }
}

/// The movement of the content in pixels: the wheel turned forward moves it
/// back.
pub open spec fn wheel_in_pixels<N: Num>(d: WheelDelta<N>, scale: N) -> [N; 2] {
    let line = N::fraction(WHEEL_LINE, 1).product(scale);
    match d {
        WheelDelta::Lines(l) => [l[0].negation().product(line), l[1].negation().product(line)],
        WheelDelta::Pixels(p) => [p[0].negation(), p[1].negation()],
    }
}

/// The movement of the wheel in lines, and what it moves the content by.
pub fn wheel_amounts<N: Num>(d: WheelDelta<N>, scale: N) -> (r: ([N; 2], [N; 2]))
    ensures
        r.0 == wheel_in_lines(d, scale),
        r.1 == wheel_in_pixels(d, scale),
{
    let line: N = N::of_ratio(WHEEL_LINE, 1).times(scale);
    match d {
        WheelDelta::Lines(l) => (l, [l[0].negated().times(line), l[1].negated().times(line)]),
        WheelDelta::Pixels(p) => (
            [p[0].over(line), p[1].over(line)],
            [p[0].negated(), p[1].negated()],
        ),
    }
}

/// The edge lies at the top.
pub open spec fn at_top(e: Edge) -> bool {
    e is North || e is NorthWest || e is NorthEast
}

/// The edge lies at the bottom.
pub open spec fn at_bottom(e: Edge) -> bool {
    e is South || e is SouthWest || e is SouthEast
}

/// The edge lies at the left.
pub open spec fn at_left(e: Edge) -> bool {
    e is West || e is NorthWest || e is SouthWest
}

/// The edge lies at the right.
pub open spec fn at_right(e: Edge) -> bool {
    e is East || e is NorthEast || e is SouthEast
}

/// In exact numbers, the edge of a window that is not too small runs along the
/// last six pixels before each of its sides. A point is on a side of the edge
/// where it is within these pixels, and in a corner where it is within those of
/// two sides.
pub proof fn edges_are_near_the_sides<N: Num>(
    value: spec_fn(N) -> real,
    x: N,
    y: N,
    width: N,
    height: N,
)
    requires
        computes_exactly(value),
        value(width) >= 12real,
        value(height) >= 12real,
    ensures
        ({
            let e = edge_of(x, y, width, height);
            let (px, py, w, h) = (value(x), value(y), value(width), value(height));
            &&& e is None <==> 6real <= px <= w - 6real && 6real <= py <= h - 6real
            &&& e is Some ==> {
                &&& at_left(e->0) <==> px < 6real
                &&& at_right(e->0) <==> w - px < 6real
                &&& at_top(e->0) <==> py < 6real
                &&& at_bottom(e->0) <==> h - py < 6real
            }
        }),
{
    fractions_are_exact(value);
    assert((6i32 as real) == 6real);
}

/// The pointer over an edge has the shape that points to it.
pub proof fn edges_have_their_shapes(e: Edge)
    ensures
        edge_shape(e) is NResize <==> at_top(e) && !at_left(e) && !at_right(e),
        edge_shape(e) is SResize <==> at_bottom(e) && !at_left(e) && !at_right(e),
        edge_shape(e) is WResize <==> at_left(e) && !at_top(e) && !at_bottom(e),
        edge_shape(e) is EResize <==> at_right(e) && !at_top(e) && !at_bottom(e),
        edge_shape(e) is NwResize <==> at_top(e) && at_left(e),
        edge_shape(e) is NeResize <==> at_top(e) && at_right(e),
        edge_shape(e) is SwResize <==> at_bottom(e) && at_left(e),
        edge_shape(e) is SeResize <==> at_bottom(e) && at_right(e),
{
}

/// The edge of the window comes before the window control under the pointer,
/// and that before what nodes ask for. Of the controls, the one that moves the
/// window has the shape for it.
pub proof fn edges_come_before_controls<N: Num>(
    edge: Option<Edge>,
    action: Option<WindowAction>,
    asked: Option<CursorShape>,
    other: Option<CursorShape>,
    control: Option<WindowAction>,
)
    ensures
        edge is Some ==> shape_at::<N>(edge, action, asked) == edge_shape(edge->0),
        edge is None && action is Some ==> shape_at::<N>(edge, action, asked) == shape_at::<N>(
            None,
            action,
            other,
        ),
        shape_at::<N>(None, Some(WindowAction::DragMove), asked) is Move,
        control is Some && !(control->0 is DragMove) ==> shape_at::<N>(None, control, asked)
            is Pointer,
        asked is Some ==> shape_at::<N>(None, None, asked) == asked->0,
        shape_at::<N>(None, None, None) is Default,
{
}

/// A node that asks for a pointer shape gets it; one that can be clicked and
/// asks for none gets the hand. The first entry under the pointer whose node
/// asks for anything decides.
pub proof fn the_topmost_shape_is_shown<N: Num>(
    hits: Seq<HitEntry<N>>,
    nodes: Seq<Option<Node<N>>>,
    x: N,
    y: N,
    i: nat,
    k: int,
)
    requires
        i <= k < hits.len(),
        hits[k].holds(x, y),
        live(nodes, hits[k].node_id),
        ({
            let n = node_at(nodes, hits[k].node_id);
            n.cursor is Some || n.handlers.click
        }),
        forall|j: int|
            i <= j < k ==> !(#[trigger] hits[j]).holds(x, y) || !live(nodes, hits[j].node_id) || (
            node_at(nodes, hits[j].node_id).cursor is None && !node_at(
                nodes,
                hits[j].node_id,
            ).handlers.click),
    ensures
        ({
            let n = node_at(nodes, hits[k].node_id);
            let r = entry_shape(hits, nodes, x, y, i);
            &&& n.cursor is Some ==> r == n.cursor
            &&& n.cursor is None ==> r == Some(CursorShape::Pointer)
        }),
    decreases k - i,
{
    if i < k {
        let h = hits[i as int];
        the_topmost_shape_is_shown(hits, nodes, x, y, i + 1, k);
    }
}

/// A whole number without its fraction is itself.
proof fn whole_of_whole(v: real, k: int, n: u32)
    requires
        whole_is(v, n),
        stands_for(v, k),
        0 <= k <= u32::MAX,
    ensures
        n == k,
{
    if n != u32::MAX {
        assert(n as int <= k < n as int + 1);
    }
}

/// In exact numbers, the physical size of a window is the logical one times the
/// scale, to the nearest pixel.
pub proof fn sizes_are_scaled_to_the_nearest_pixel<N: Num>(
    value: spec_fn(N) -> real,
    logical: [u32; 2],
    scale: N,
    k: int,
)
    requires
        computes_exactly(value),
        value(scale) > 0real,
        k == 0 || k == 1,
        (logical[k] as real) * value(scale) < u32::MAX as real,
    ensures
        ({
            let d = (logical[k] as real) * value(scale) - (physical_size(
                logical,
                scale,
            )[k] as real);
            -1real <= 2real * d <= 1real
        }),
{
    let l = N::natural(logical[k] as u64);
    let v = l.product(scale);
    let r = v.rounded();
    assert(value(l) == logical[k] as real);
    assert(value(v) == (logical[k] as real) * value(scale));
    assert(value(v) >= 0real) by (nonlinear_arith)
        requires
            value(v) == (logical[k] as real) * value(scale),
            (logical[k] as real) >= 0real,
            value(scale) > 0real,
    ;
    assert(nearest_is(value(v), value(r)));
    let w = choose|w: int| #[trigger] stands_for(value(r), w);
    assert(whole_is(value(r), r.whole()));
    assert(0 <= w <= u32::MAX);
    whole_of_whole(value(r), w, r.whole());
}

/// In exact numbers, at a scale of one or more, the logical size of a window
/// survives being turned to pixels and back.
pub proof fn logical_sizes_survive<N: Num>(
    value: spec_fn(N) -> real,
    logical: [u32; 2],
    scale: N,
    k: int,
)
    requires
        computes_exactly(value),
        value(scale) >= 1real,
        k == 0 || k == 1,
        (logical[k] as real) * value(scale) < u32::MAX as real,
    ensures
        logical_size_of(physical_size(logical, scale), scale)[k] == logical[k],
{
    sizes_are_scaled_to_the_nearest_pixel(value, logical, scale, k);
    let (l, s) = (logical[k] as real, value(scale));
    let size = physical_size(logical, scale);
    let p = N::natural(size[k] as u64);
    assert(value(p) == size[k] as real);
    let least = value(smallest_scale::<N>());
    assert(least * (8_388_608i32 as real) == 1i32 as real);
    assert((8_388_608i32 as real) == 8_388_608real);
    assert(least <= 1real) by (nonlinear_arith)
        requires
            least * 8_388_608real == 1real,
    ;
    let by = scale.larger(smallest_scale());
    assert(value(by) == s);
    let q = p.quotient(by);
    assert(value(q) * s == value(p));
    let r = q.rounded();
    assert(nearest_is(value(q), value(r)));
    let w = choose|w: int| #[trigger] stands_for(value(r), w);
    let d = value(q) - l;
    assert(-1real <= 2real * (l * s - value(p)) <= 1real);
    assert(-1real <= 2real * (d * s) <= 1real) by (nonlinear_arith)
        requires
            -1real <= 2real * (l * s - value(p)) <= 1real,
            value(q) * s == value(p),
            d == value(q) - l,
    ;
    if s > 1real {
        assert(-1real < 2real * d < 1real) by (nonlinear_arith)
            requires
                -1real <= 2real * (d * s) <= 1real,
                s > 1real,
        ;
        assert(-1real < value(r) - l < 1real);
        assert(w == logical[k] as int);
    } else {
        assert(s == 1real);
        assert(l * 1real == l);
        let e = (logical[k] as int) - (size[k] as int);
        assert(l - value(p) == e as real);
        assert(e == 0);
        assert(value(q) * 1real == value(q));
        assert(w == logical[k] as int);
    }
    assert(whole_is(value(r), r.whole()));
    whole_of_whole(value(r), w, r.whole());
}

/// A resize that follows a change of scale within half a second keeps the
/// logical size.
pub proof fn scale_changes_count_for_half_a_second(last: u64, now: u64)
    requires
        last <= now,
    ensures
        scale_just_changed(Some(last), now) <==> 2 * (now - last) < 1_000_000_000,
        !scale_just_changed(None, now),
{
}

/// In exact numbers, the two measures of a wheel movement say the same: the
/// content moves against the wheel by 50 logical pixels to the line. What was
/// given is kept in its own measure.
pub proof fn wheel_measures_agree<N: Num>(
    value: spec_fn(N) -> real,
    d: WheelDelta<N>,
    scale: N,
    k: int,
)
    requires
        computes_exactly(value),
        value(scale) > 0real,
        k == 0 || k == 1,
    ensures
        value(wheel_in_pixels(d, scale)[k]) == -(value(wheel_in_lines(d, scale)[k]) * (50real
            * value(scale))),
        d matches WheelDelta::Lines(l) ==> wheel_in_lines(d, scale) == l,
        d matches WheelDelta::Pixels(p) ==> value(wheel_in_pixels(d, scale)[k]) == -value(p[k]),
{
    fractions_are_exact(value);
    assert((50i32 as real) == 50real);
    let line = N::fraction(WHEEL_LINE, 1).product(scale);
    assert(value(line) == 50real * value(scale));
    match d {
        WheelDelta::Lines(l) => {
            let (a, b) = (value(l[k]), value(line));
            assert((-a) * b == -(a * b)) by (nonlinear_arith);
        },
        WheelDelta::Pixels(p) => {
            let q = p[k].quotient(line);
            assert(value(q) * value(line) == value(p[k]));
        },
    }
}

} // verus!
