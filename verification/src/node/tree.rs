//! The scene tree.
//!
//! Nodes are added under a root or a parent and keep the id they were given.
//! A child is always added after its parent, so walking from child to parent
//! only ever goes to smaller ids.
use vstd::prelude::*;

use crate::editor::EditorState;
use crate::gpu::ImageHandle;
use crate::layout::style::plain_style;
use crate::layout::{LayoutStyle, Len};
use crate::lazy_list::LazyListState;
use crate::node::dirty;
use crate::node::NodeId;
use crate::num::{eq2, equals2, one, zero, Num};
use crate::signal::SignalId;

verus! {

/// Text that a node shows. Sizes are logical pixels.
#[derive(Clone, Debug)]
pub struct TextContent<N> {
    pub content: String,
    pub font_size: N,
    pub line_height: N,
    pub max_width: Option<N>,
}

/// Scroll position of a container, and the look of its bars. Offsets are
/// physical pixels; pairs hold the horizontal axis first.
#[derive(Copy, Clone, Debug)]
pub struct ScrollState<N> {
    /// Where the content is.
    pub current: [N; 2],
    /// Where it is going.
    pub target: [N; 2],
    /// Whether the content may be pulled past its ends.
    pub overscroll: bool,
    /// The content comes to rest on multiples of this many logical pixels;
    /// zero lets it rest anywhere.
    pub snap_step: N,
    /// Physical pixels to a logical one, as of the last layout.
    pub scale: N,
    pub bar_active: [bool; 2],
    pub bar_hover: [bool; 2],
    pub bar_alpha: N,
}

/// A window control that a node stands for.
#[derive(Copy, Clone, Debug, PartialEq, Eq, Structural)]
pub enum WindowAction {
    DragMove,
    Close,
    Minimize,
    ToggleMaximize,
}

/// A pointer shape.
#[derive(Copy, Clone, Debug, PartialEq, Eq, Structural)]
pub enum CursorShape {
    Default,
    Pointer,
    Move,
    Text,
    Grab,
    Grabbing,
    Crosshair,
    NotAllowed,
    NResize,
    SResize,
    EResize,
    WResize,
    NwResize,
    NeResize,
    SwResize,
    SeResize,
    EwResize,
    NsResize,
    NeswResize,
    NwseResize,
    ColResize,
    RowResize,
}

/// Cells that follow whether a node is hovered, pressed or focused.
#[derive(Copy, Clone, Debug)]
pub struct Interact {
    pub hover: Option<SignalId>,
    pub pressed: Option<SignalId>,
    pub focused: Option<SignalId>,
}

/// Which events a node handles.
#[derive(Copy, Clone, Debug)]
pub struct Handlers {
    pub click: bool,
    pub right_click: bool,
    pub drag: bool,
    pub drag_end: bool,
    pub drop: bool,
    pub wheel: bool,
    pub hover_move: bool,
    /// Nanoseconds of hovering after which the dwell handler runs.
    pub dwell: Option<u64>,
}

/// A node of the scene.
#[derive(Clone, Debug)]
pub struct Node<N> {
    pub parent: Option<NodeId>,
    pub children: Vec<NodeId>,
    pub visible: bool,
    /// Left, top, width, height in physical pixels.
    pub rect: [N; 4],
    /// Extent of the content in physical pixels.
    pub content_size: [N; 2],
    pub layout: LayoutStyle<N>,
    pub color: [N; 4],
    pub opacity: N,
    pub border_radius: [N; 4],
    pub text: Option<TextContent<N>>,
    pub image: Option<ImageHandle>,
    pub scroll: Option<ScrollState<N>>,
    pub editor: Option<EditorState<N>>,
    pub lazy_list: Option<LazyListState<N>>,
    pub interact: Interact,
    pub handlers: Handlers,
    /// Payload that a drag of the node carries.
    pub drag_payload: Option<u64>,
    /// Whether the node follows the pointer while dragged.
    pub drag_follow: bool,
    /// Whether a press on the node also counts as a press outside.
    pub dismiss_transparent: bool,
    pub window_action: Option<WindowAction>,
    pub cursor: Option<CursorShape>,
    /// Whether the node shows a texture supplied from outside.
    pub external: bool,
    pub hover_hint: Option<String>,
    /// Hint text that changes with the scene; it goes before the other one.
    pub hover_hint_text: Option<String>,
    /// Cell that drives the opacity of the node's layer.
    pub layer_opacity: Option<SignalId>,
    /// Cell that drives the horizontal offset of the node's layer.
    pub layer_offset_x: Option<SignalId>,
}

/// A node without children that shows nothing and handles nothing.
pub open spec fn is_blank<N: Num>(n: Node<N>) -> bool {
    &&& n.parent is None
    &&& n.children@.len() == 0
    &&& n.visible
    &&& n.rect == [zero::<N>(), zero(), zero(), zero()]
    &&& n.content_size == [zero::<N>(), zero()]
    &&& n.layout == plain_style::<N>()
    &&& n.color == [zero::<N>(), zero(), zero(), zero()]
    &&& n.opacity == one::<N>()
    &&& n.border_radius == [zero::<N>(), zero(), zero(), zero()]
    &&& n.scroll is None
    &&& n.editor is None
    &&& n.lazy_list is None
    &&& n.interact == (Interact { hover: None, pressed: None, focused: None })
    &&& n.handlers == no_handlers()
    &&& n.drag_payload is None
    &&& !n.drag_follow
    &&& !n.dismiss_transparent
    &&& n.window_action is None
    &&& n.cursor is None
    &&& !n.external
    &&& n.hover_hint is None
    &&& n.hover_hint_text is None
    &&& n.layer_opacity is None
    &&& n.layer_offset_x is None
}

pub open spec fn no_handlers() -> Handlers {
    Handlers {
        click: false,
        right_click: false,
        drag: false,
        drag_end: false,
        drop: false,
        wheel: false,
        hover_move: false,
        dwell: None,
    }
}

impl<N: Num> Node<N> {
    /// A plain rectangle.
    pub fn rect() -> (r: Node<N>)
        ensures
            is_blank(r),
            r.text is None,
            r.image is None,
    {
        let z: N = N::of_ratio(0, 1);
        Node {
            parent: None,
            children: Vec::new(),
            visible: true,
            rect: [z, z, z, z],
            content_size: [z, z],
            layout: LayoutStyle::default(),
            color: [z, z, z, z],
            opacity: N::of_ratio(1, 1),
            border_radius: [z, z, z, z],
            text: None,
            image: None,
            scroll: None,
            editor: None,
            lazy_list: None,
            interact: Interact { hover: None, pressed: None, focused: None },
            handlers: Handlers {
                click: false,
                right_click: false,
                drag: false,
                drag_end: false,
                drop: false,
                wheel: false,
                hover_move: false,
                dwell: None,
            },
            drag_payload: None,
            drag_follow: false,
            dismiss_transparent: false,
            window_action: None,
            cursor: None,
            external: false,
            hover_hint: None,
            hover_hint_text: None,
            layer_opacity: None,
            layer_offset_x: None,
        }
    }

    /// An image.
    pub fn image(handle: ImageHandle) -> (r: Node<N>)
        ensures
            is_blank(r),
            r.text is None,
            r.image == Some(handle),
    {
        let mut n: Node<N> = Node::rect();
        n.image = Some(handle);
        n
    }

    /// A line of text, set one and a quarter times as high as its size.
    pub fn text(content: String, font_size: N) -> (r: Node<N>)
        ensures
            is_blank(r),
            r.image is None,
            r.text is Some,
            r.text->0.content@ == content@,
            r.text->0.font_size == font_size,
            r.text->0.line_height == font_size.product(N::fraction(5, 4)),
            r.text->0.max_width is None,
    {
        let mut n: Node<N> = Node::rect();
        n.text = Some(
            TextContent {
                content,
                font_size,
                line_height: font_size.times(N::of_ratio(5, 4)),
                max_width: None,
            },
        );
        n
    }
}

/// The scene tree.
pub struct NodeTree<N> {
    nodes: Vec<Option<Node<N>>>,
    roots: Vec<NodeId>,
    dirty: u32,
}

/// The parts of a tree: its nodes by id, with gaps where nodes were removed,
/// and its roots in order.
pub open spec fn live<N>(nodes: Seq<Option<Node<N>>>, id: NodeId) -> bool {
    id.index < nodes.len() && nodes[id.index as int] is Some
}

/// The node behind a live id.
pub open spec fn node_at<N>(nodes: Seq<Option<Node<N>>>, id: NodeId) -> Node<N> {
    nodes[id.index as int]->0
}

/// A forest: every node is listed once, by its parent or as a root, and
/// comes after its parent.
#[verifier::opaque]
pub open spec fn forest<N>(nodes: Seq<Option<Node<N>>>, roots: Seq<NodeId>) -> bool {
    &&& nodes.len() <= u32::MAX
    &&& forall|p: NodeId, k: int|
        #![trigger node_at(nodes, p).children@[k]]
        live(nodes, p) && 0 <= k < node_at(nodes, p).children@.len() ==> child_ok(nodes, p, k)
    &&& forall|p: NodeId| #[trigger]
        live(nodes, p) ==> node_at(nodes, p).children@.no_duplicates()
    &&& forall|c: NodeId| #[trigger]
        live(nodes, c) ==> match node_at(nodes, c).parent {
            Some(p) => live(nodes, p) && p.index < c.index && node_at(
                nodes,
                p,
            ).children@.contains(c),
            None => roots.contains(c),
        }
    &&& forall|k: int|
        0 <= k < roots.len() ==> live(nodes, #[trigger] roots[k]) && node_at(
            nodes,
            roots[k],
        ).parent is None
    &&& roots.no_duplicates()
}

/// The `k`-th child of `p` is a later node that names `p` as its parent.
pub open spec fn child_ok<N>(nodes: Seq<Option<Node<N>>>, p: NodeId, k: int) -> bool {
    let c = node_at(nodes, p).children@[k];
    live(nodes, c) && p.index < c.index && node_at(nodes, c).parent == Some(p)
}

/// The children of a node in a forest.
pub(crate) proof fn forest_child<N>(
    nodes: Seq<Option<Node<N>>>,
    roots: Seq<NodeId>,
    p: NodeId,
    k: int,
)
    requires
        forest(nodes, roots),
        live(nodes, p),
        0 <= k < node_at(nodes, p).children@.len(),
    ensures
        child_ok(nodes, p, k),
{
    reveal(forest);
    assert(node_at(nodes, p).children@[k] == node_at(nodes, p).children@[k]);
}

/// The parent of a node in a forest.
pub(crate) proof fn forest_parent<N>(nodes: Seq<Option<Node<N>>>, roots: Seq<NodeId>, c: NodeId)
    requires
        forest(nodes, roots),
        live(nodes, c),
    ensures
        match node_at(nodes, c).parent {
            Some(p) => live(nodes, p) && p.index < c.index && node_at(
                nodes,
                p,
            ).children@.contains(c),
            None => roots.contains(c),
        },
        node_at(nodes, c).children@.no_duplicates(),
        nodes.len() <= u32::MAX,
{
    reveal(forest);
}

/// The roots of a forest.
pub(crate) proof fn forest_root<N>(nodes: Seq<Option<Node<N>>>, roots: Seq<NodeId>, k: int)
    requires
        forest(nodes, roots),
        0 <= k < roots.len(),
    ensures
        live(nodes, roots[k]),
        node_at(nodes, roots[k]).parent is None,
        roots.no_duplicates(),
{
    reveal(forest);
}

/// The size of a forest.
pub(crate) proof fn forest_size<N>(nodes: Seq<Option<Node<N>>>, roots: Seq<NodeId>)
    requires
        forest(nodes, roots),
    ensures
        nodes.len() <= u32::MAX,
{
    reveal(forest);
}

/// The ids of the nodes among the first `n`, in the order in which they were
/// added.
pub open spec fn live_ids<N>(nodes: Seq<Option<Node<N>>>, n: nat) -> Seq<NodeId>
    decreases n,
{
    if n == 0 {
        Seq::empty()
    } else {
        let before = live_ids(nodes, (n - 1) as nat);
        if nodes[n - 1] is Some {
            before.push(NodeId { index: (n - 1) as u32 })
        } else {
            before
        }
    }
}

/// The tree after one node was replaced, where the id is live.
pub open spec fn with_node<N>(
    nodes: Seq<Option<Node<N>>>,
    id: NodeId,
    n: Node<N>,
) -> Seq<Option<Node<N>>> {
    if live(nodes, id) {
        nodes.update(id.index as int, Some(n))
    } else {
        nodes
    }
}

/// A tree stays a forest when a node changes but not its parent or children.
pub(crate) proof fn relabel_keeps_forest<N: Num>(
    nodes: Seq<Option<Node<N>>>,
    roots: Seq<NodeId>,
    id: NodeId,
    n: Node<N>,
)
    requires
        forest(nodes, roots),
        live(nodes, id),
        n.parent == node_at(nodes, id).parent,
        n.children == node_at(nodes, id).children,
    ensures
        forest(nodes.update(id.index as int, Some(n)), roots),
{
    let after = nodes.update(id.index as int, Some(n));
    reveal(forest);
    assert forall|c: NodeId| live(after, c) == live(nodes, c) by {}
    assert forall|c: NodeId| live(nodes, c) implies node_at(after, c).children == node_at(
        nodes,
        c,
    ).children && node_at(after, c).parent == node_at(nodes, c).parent by {}
    assert forall|p: NodeId, k: int|
        #![trigger node_at(after, p).children@[k]]
        live(after, p) && 0 <= k < node_at(after, p).children@.len() implies child_ok(
        after,
        p,
        k,
    ) by {
        forest_child(nodes, roots, p, k);
    }
    assert forall|c: NodeId| #[trigger] live(after, c) implies match node_at(after, c).parent {
        Some(p) => live(after, p) && p.index < c.index && node_at(
            after,
            p,
        ).children@.contains(c),
        None => roots.contains(c),
    } by {
        forest_parent(nodes, roots, c);
    }
    assert forall|p: NodeId| #[trigger] live(after, p) implies node_at(
        after,
        p,
    ).children@.no_duplicates() by {
        forest_parent(nodes, roots, p);
    }
    assert forall|k: int| 0 <= k < roots.len() implies live(after, #[trigger] roots[k])
        && node_at(after, roots[k]).parent is None by {
        forest_root(nodes, roots, k);
    }
}

/// The four numbers are equal in pairs.
pub open spec fn equals4<N: Num>(a: [N; 4], b: [N; 4]) -> bool {
    &&& a[0].equals(b[0])
    &&& a[1].equals(b[1])
    &&& a[2].equals(b[2])
    &&& a[3].equals(b[3])
}

fn eq4<N: Num>(a: [N; 4], b: [N; 4]) -> (r: bool)
    ensures
        r == equals4(a, b),
{
    a[0].eq(b[0]) && a[1].eq(b[1]) && a[2].eq(b[2]) && a[3].eq(b[3])
}

/// Two lengths are the same.
pub open spec fn same_len<N: Num>(a: Len<N>, b: Len<N>) -> bool {
    match (a, b) {
        (Len::Px(x), Len::Px(y)) => x.equals(y),
        (Len::Pct(x), Len::Pct(y)) => x.equals(y),
        (Len::Fr(x), Len::Fr(y)) => x.equals(y),
        (Len::Auto, Len::Auto) => true,
        (Len::Fill, Len::Fill) => true,
        _ => false,
    }
}

fn len_eq<N: Num>(a: Len<N>, b: Len<N>) -> (r: bool)
    ensures
        r == same_len(a, b),
{
    match (a, b) {
        (Len::Px(x), Len::Px(y)) => x.eq(y),
        (Len::Pct(x), Len::Pct(y)) => x.eq(y),
        (Len::Fr(x), Len::Fr(y)) => x.eq(y),
        (Len::Auto, Len::Auto) => true,
        (Len::Fill, Len::Fill) => true,
        _ => false,
    }
}

/// The offset is already this one.
fn already_at<N: Num>(abs: Option<[N; 2]>, pos: [N; 2]) -> (r: bool)
    ensures
        r == (abs is Some && equals2(abs->0, pos)),
{
    match abs {
        Some(p) => eq2(p, pos),
        None => false,
    }
}

fn same_image(a: Option<ImageHandle>, b: Option<ImageHandle>) -> (r: bool)
    ensures
        r == (a == b),
{
    match (a, b) {
        (Some(x), Some(y)) => x == y,
        (None, None) => true,
        _ => false,
    }
}

/// Two strings have the same characters.
pub fn strings_equal(a: &String, b: &String) -> (r: bool)
    ensures
        r == (a@ == b@),
{
    *a == *b
}

/// Node `i` is `top` or below it.
pub open spec fn descends<N>(nodes: Seq<Option<Node<N>>>, top: NodeId, i: int) -> bool
    decreases i,
{
    &&& 0 <= i < nodes.len()
    &&& nodes[i] is Some
    &&& (i == top.index || match nodes[i]->0.parent {
        Some(p) => p.index < i && descends(nodes, top, p.index as int),
        None => false,
    })
}

/// The ids without `id`.
pub open spec fn unlisted(ids: Seq<NodeId>, id: NodeId) -> Seq<NodeId> {
    if ids.contains(id) {
        ids.remove(ids.index_of(id))
    } else {
        ids
    }
}

/// Node `i` of `after` is what is left of it when `top` was removed with all
/// below it.
pub open spec fn left_over<N>(
    nodes: Seq<Option<Node<N>>>,
    after: Seq<Option<Node<N>>>,
    top: NodeId,
    i: int,
) -> bool {
    if descends(nodes, top, i) {
        after[i] is None
    } else if nodes[i] is Some && node_at(nodes, top).parent == Some(NodeId { index: i as u32 }) {
        &&& after[i] is Some
        &&& after[i]->0.children@ == unlisted(nodes[i]->0.children@, top)
        &&& after[i]->0 == (Node { children: after[i]->0.children, ..nodes[i]->0 })
    } else {
        after[i] == nodes[i]
    }
}

/// The ids among the first `n` that are `top` or below it.
pub open spec fn descendant_ids<N>(nodes: Seq<Option<Node<N>>>, top: NodeId, n: nat) -> Seq<NodeId>
    decreases n,
{
    if n == 0 {
        Seq::empty()
    } else {
        let before = descendant_ids(nodes, top, (n - 1) as nat);
        if descends(nodes, top, n - 1) {
            before.push(NodeId { index: (n - 1) as u32 })
        } else {
            before
        }
    }
}

proof fn unlisted_keeps_others(ids: Seq<NodeId>, id: NodeId)
    requires
        ids.no_duplicates(),
    ensures
        unlisted(ids, id).no_duplicates(),
        forall|c: NodeId| #[trigger] unlisted(ids, id).contains(c) <==> ids.contains(c) && c != id,
{
    let rest = unlisted(ids, id);
    if ids.contains(id) {
        let k = ids.index_of(id);
        assert forall|j: int| 0 <= j < rest.len() implies #[trigger] rest[j] == ids[if j < k {
            j
        } else {
            j + 1
        }] by {}
        assert forall|c: NodeId| #[trigger] rest.contains(c) <==> ids.contains(c) && c != id by {
            if rest.contains(c) {
                let j = choose|j: int| 0 <= j < rest.len() && rest[j] == c;
                let i = if j < k {
                    j
                } else {
                    j + 1
                };
                assert(ids[i] == c);
            }
            if ids.contains(c) && c != id {
                let i = choose|i: int| 0 <= i < ids.len() && ids[i] == c;
                assert(i != k);
                let j = if i < k {
                    i
                } else {
                    i - 1
                };
                assert(rest[j] == c);
            }
        }
        assert forall|a: int, b: int| 0 <= a < rest.len() && 0 <= b < rest.len() && a
            != b implies rest[a] != rest[b] by {
            assert(rest[a] == ids[if a < k {
                a
            } else {
                a + 1
            }]);
            assert(rest[b] == ids[if b < k {
                b
            } else {
                b + 1
            }]);
        }
    }
}

/// A forest stays one when a node is removed with all below it.
proof fn removal_keeps_forest<N>(
    nodes: Seq<Option<Node<N>>>,
    roots: Seq<NodeId>,
    after: Seq<Option<Node<N>>>,
    top: NodeId,
)
    requires
        forest(nodes, roots),
        live(nodes, top),
        after.len() == nodes.len(),
        forall|i: int| 0 <= i < nodes.len() ==> #[trigger] left_over(nodes, after, top, i),
    ensures
        forest(after, unlisted(roots, top)),
{
    reveal(forest);
    unlisted_keeps_others(roots, top);
    assert(descends(nodes, top, top.index as int));
    assert forall|c: NodeId| #[trigger] live(after, c) implies live(nodes, c) && !descends(
        nodes,
        top,
        c.index as int,
    ) && node_at(after, c).parent == node_at(nodes, c).parent by {
        assert(left_over(nodes, after, top, c.index as int));
    }
    assert forall|c: NodeId| live(nodes, c) && !descends(
        nodes,
        top,
        c.index as int,
    ) implies #[trigger] live(after, c) by {
        assert(left_over(nodes, after, top, c.index as int));
    }
    assert forall|p: NodeId| #[trigger] live(after, p) implies node_at(
        after,
        p,
    ).children@.no_duplicates() && (forall|c: NodeId| #[trigger]
        node_at(after, p).children@.contains(c) <==> node_at(nodes, p).children@.contains(c) && c
            != top) by {
        assert(left_over(nodes, after, top, p.index as int));
        assert(NodeId { index: p.index as int as u32 } == p);
        unlisted_keeps_others(node_at(nodes, p).children@, top);
        if node_at(nodes, top).parent != Some(p) {
            assert forall|c: NodeId| node_at(nodes, p).children@.contains(c) implies c != top by {
                let k = choose|k: int|
                    0 <= k < node_at(nodes, p).children@.len() && node_at(nodes, p).children@[k]
                        == c;
                assert(child_ok(nodes, p, k));
            }
        }
    }
    assert forall|p: NodeId, k: int|
        #![trigger node_at(after, p).children@[k]]
        live(after, p) && 0 <= k < node_at(after, p).children@.len() implies child_ok(
        after,
        p,
        k,
    ) by {
        let c = node_at(after, p).children@[k];
        assert(node_at(after, p).children@.contains(c));
        assert(node_at(nodes, p).children@.contains(c));
        let j = choose|j: int|
            0 <= j < node_at(nodes, p).children@.len() && node_at(nodes, p).children@[j] == c;
        assert(child_ok(nodes, p, j));
        assert(!descends(nodes, top, c.index as int));
        assert(live(after, c));
    }
    assert forall|c: NodeId| #[trigger] live(after, c) implies match node_at(after, c).parent {
        Some(p) => live(after, p) && p.index < c.index && node_at(
            after,
            p,
        ).children@.contains(c),
        None => unlisted(roots, top).contains(c),
    } by {
        assert(live(nodes, c));
        match node_at(nodes, c).parent {
            Some(p) => {
                assert(live(nodes, p));
                assert(!descends(nodes, top, p.index as int));
                assert(live(after, p));
                assert(c != top);
                assert(node_at(after, p).children@.contains(c));
            },
            None => {
                assert(c != top);
            },
        }
    }
    let left = unlisted(roots, top);
    assert forall|k: int| 0 <= k < left.len() implies live(after, #[trigger] left[k]) && node_at(
        after,
        left[k],
    ).parent is None by {
        let c = left[k];
        assert(left.contains(c));
        assert(roots.contains(c));
        let j = choose|j: int| 0 <= j < roots.len() && roots[j] == c;
        assert(live(nodes, roots[j]));
        assert(!descends(nodes, top, c.index as int));
        assert(live(after, c));
    }
}

/// Nothing before a node is below it.
pub(crate) proof fn parent_is_not_below<N>(nodes: Seq<Option<Node<N>>>, top: NodeId, i: int)
    requires
        i < top.index,
    ensures
        !descends(nodes, top, i),
    decreases i,
{
    if 0 <= i < nodes.len() && nodes[i] is Some {
        if let Some(p) = nodes[i]->0.parent {
            if p.index < i {
                parent_is_not_below(nodes, top, p.index as int);
            }
        }
    }
}

/// Takes `id` out of a list.
fn unlist(ids: &mut Vec<NodeId>, id: NodeId)
    requires
        old(ids)@.no_duplicates(),
    ensures
        final(ids)@ == unlisted(old(ids)@, id),
{
    let mut i: usize = 0;
    while i < ids.len()
        invariant
            i <= ids@.len(),
            ids@ == old(ids)@,
            ids@.no_duplicates(),
            forall|j: int| 0 <= j < i ==> ids@[j] != id,
        decreases ids.len() - i,
    {
        if ids[i] == id {
            proof {
                assert(ids@.contains(id));
                let k = ids@.index_of(id);
                assert(ids@[k] == ids@[i as int]);
            }
            ids.remove(i);
            return;
        }
        i = i + 1;
    }
}

/// A node of another parent.
pub open spec fn with_child<N>(n: Node<N>, m: Node<N>, c: NodeId) -> bool {
    &&& m.children@ == n.children@.push(c)
    &&& m == (Node { children: m.children, ..n })
}

impl<N: Num> NodeTree<N> {
    /// The nodes by id, with gaps where nodes were removed.
    pub closed spec fn nodes(&self) -> Seq<Option<Node<N>>> {
        self.nodes@
    }

    /// The roots in order.
    pub closed spec fn root_ids(&self) -> Seq<NodeId> {
        self.roots@
    }

    /// What changed since the tree was last drawn.
    pub closed spec fn dirty_mask(&self) -> u32 {
        self.dirty
    }

    /// The tree has the same nodes, roots and marks as another.
    pub open spec fn looks_like(&self, other: Self) -> bool {
        &&& self.nodes() == other.nodes()
        &&& self.root_ids() == other.root_ids()
        &&& self.dirty_mask() == other.dirty_mask()
    }

    /// The tree is a forest.
    pub open spec fn wf(&self) -> bool {
        forest(self.nodes(), self.root_ids())
    }

    /// A tree without nodes.
    pub fn new() -> (r: NodeTree<N>)
        ensures
            r.wf(),
            r.nodes() == Seq::<Option<Node<N>>>::empty(),
            r.root_ids() == Seq::<NodeId>::empty(),
            r.dirty_mask() == dirty::NONE,
    {
        proof {
            reveal(forest);
        }
        NodeTree { nodes: Vec::new(), roots: Vec::new(), dirty: dirty::NONE }
    }

    /// One past the largest id.
    pub fn capacity(&self) -> (r: usize)
        ensures
            r == self.nodes().len(),
    {
        self.nodes.len()
    }

    /// The node behind an id, if it is still there.
    pub fn get(&self, id: NodeId) -> (r: Option<&Node<N>>)
        ensures
            match r {
                Some(n) => live(self.nodes(), id) && *n == node_at(self.nodes(), id),
                None => !live(self.nodes(), id),
            },
    {
        let i: usize = id.index as usize;
        if i < self.nodes.len() {
            match &self.nodes[i] {
                Some(n) => Some(n),
                None => None,
            }
        } else {
            None
        }
    }

    /// The roots in order.
    pub fn roots(&self) -> (r: &Vec<NodeId>)
        ensures
            r@ == self.root_ids(),
    {
        &self.roots
    }

    /// The parent of a node; a root or a removed node has none.
    pub fn parent(&self, id: NodeId) -> (r: Option<NodeId>)
        ensures
            r == if live(self.nodes(), id) {
                node_at(self.nodes(), id).parent
            } else {
                None
            },
    {
        match self.get(id) {
            Some(n) => n.parent,
            None => None,
        }
    }

    /// The ids of all nodes, in the order in which they were added.
    pub fn iter_ids(&self) -> (r: Vec<NodeId>)
        requires
            self.wf(),
        ensures
            r@ == live_ids(self.nodes(), self.nodes().len()),
    {
        proof {
            forest_size(self.nodes@, self.roots@);
        }
        let mut out: Vec<NodeId> = Vec::new();
        let mut i: usize = 0;
        while i < self.nodes.len()
            invariant
                i <= self.nodes@.len(),
                self.nodes@.len() <= u32::MAX,
                out@ == live_ids(self.nodes@, i as nat),
            decreases self.nodes@.len() - i,
        {
            if self.nodes[i].is_some() {
                out.push(NodeId { index: i as u32 });
            }
            i += 1;
        }
        out
    }

    /// The number of nodes.
    pub fn len(&self) -> (r: usize)
        requires
            self.wf(),
        ensures
            r == live_ids(self.nodes(), self.nodes().len()).len(),
    {
        self.iter_ids().len()
    }

    /// Adds a root behind the others. The node must not have a parent or
    /// children yet.
    pub fn add_root(&mut self, node: Node<N>) -> (r: NodeId)
        requires
            old(self).wf(),
            old(self).nodes().len() < u32::MAX,
            node.parent is None,
            node.children@.len() == 0,
        ensures
            final(self).wf(),
            r.index == old(self).nodes().len(),
            final(self).nodes() == old(self).nodes().push(Some(node)),
            final(self).root_ids() == old(self).root_ids().push(r),
            final(self).dirty_mask() == old(self).dirty_mask() | dirty::TREE,
    {
        let ghost nodes = self.nodes@;
        let ghost roots = self.roots@;
        let id: NodeId = NodeId { index: self.nodes.len() as u32 };
        self.nodes.push(Some(node));
        self.roots.push(id);
        self.dirty = self.dirty | dirty::TREE;
        proof {
            reveal(forest);
            let after = self.nodes@;
            assert forall|c: NodeId| #[trigger] live(after, c) implies match node_at(
                after,
                c,
            ).parent {
                Some(p) => live(after, p) && p.index < c.index && node_at(
                    after,
                    p,
                ).children@.contains(c),
                None => self.roots@.contains(c),
            } by {
                if c == id {
                    assert(self.roots@[roots.len() as int] == c);
                } else {
                    assert(live(nodes, c));
                    match node_at(nodes, c).parent {
                        Some(p) => {},
                        None => {
                            let k = roots.index_of(c);
                            assert(self.roots@[k] == c);
                        },
                    }
                }
            }
            assert forall|p: NodeId, k: int|
                #![trigger node_at(after, p).children@[k]]
                live(after, p) && 0 <= k < node_at(after, p).children@.len() implies child_ok(
                after,
                p,
                k,
            ) by {
                assert(live(nodes, p));
                assert(child_ok(nodes, p, k));
            }
            assert forall|p: NodeId| #[trigger] live(after, p) implies node_at(
                after,
                p,
            ).children@.no_duplicates() by {
                if p != id {
                    assert(live(nodes, p));
                }
            }
        }
        id
    }

    /// Adds a child behind the other children of `parent`. The node must not
    /// have a parent or children yet.
    pub fn add_child(&mut self, parent: NodeId, node: Node<N>) -> (r: NodeId)
        requires
            old(self).wf(),
            old(self).nodes().len() < u32::MAX,
            live(old(self).nodes(), parent),
            node.parent is None,
            node.children@.len() == 0,
        ensures
            final(self).wf(),
            r.index == old(self).nodes().len(),
            final(self).nodes().len() == old(self).nodes().len() + 1,
            final(self).nodes()[r.index as int] == Some(Node { parent: Some(parent), ..node }),
            live(final(self).nodes(), parent),
            with_child(
                node_at(old(self).nodes(), parent),
                node_at(final(self).nodes(), parent),
                r,
            ),
            forall|i: int|
                0 <= i < old(self).nodes().len() && i != parent.index ==> #[trigger] final(self).nodes()[i] == old(self).nodes()[i],
            final(self).root_ids() == old(self).root_ids(),
            final(self).dirty_mask() == old(self).dirty_mask() | dirty::TREE,
    {
        let ghost nodes = self.nodes@;
        let id: NodeId = NodeId { index: self.nodes.len() as u32 };
        let mut child: Node<N> = node;
        child.parent = Some(parent);
        if let Some(p) = &mut self.nodes[parent.index as usize] {
            p.children.push(id);
        }
        let ghost linked = self.nodes@;
        self.nodes.push(Some(child));
        self.dirty = self.dirty | dirty::TREE;
        proof {
            reveal(forest);
            let after = self.nodes@;
            let kids = node_at(nodes, parent).children@;
            assert(node_at(after, parent).children@ == kids.push(id));
            assert(node_at(after, parent).children@[kids.len() as int] == id);
            assert forall|c: NodeId| #[trigger] live(after, c) implies match node_at(
                after,
                c,
            ).parent {
                Some(p) => live(after, p) && p.index < c.index && node_at(
                    after,
                    p,
                ).children@.contains(c),
                None => self.roots@.contains(c),
            } by {
                if c != id {
                    assert(live(nodes, c));
                    match node_at(nodes, c).parent {
                        Some(p) => {
                            if p == parent {
                                let k = kids.index_of(c);
                                assert(node_at(after, parent).children@[k] == c);
                            }
                        },
                        None => {},
                    }
                }
            }
            assert forall|p: NodeId, k: int|
                #![trigger node_at(after, p).children@[k]]
                live(after, p) && 0 <= k < node_at(after, p).children@.len() implies child_ok(
                after,
                p,
                k,
            ) by {
                assert(live(nodes, p));
                if p == parent && k == kids.len() {
                } else {
                    assert(node_at(after, p).children@[k] == node_at(nodes, p).children@[k]);
                    assert(child_ok(nodes, p, k));
                }
            }
            assert forall|p: NodeId| #[trigger] live(after, p) implies node_at(
                after,
                p,
            ).children@.no_duplicates() by {
                if p != id {
                    assert(live(nodes, p));
                    if p == parent {
                        assert forall|i: int, j: int|
                            0 <= i < kids.len() + 1 && 0 <= j < kids.len() + 1 && i
                                != j implies kids.push(id)[i] != kids.push(id)[j] by {
                            if i < kids.len() {
                                assert(child_ok(nodes, p, i));
                            }
                            if j < kids.len() {
                                assert(child_ok(nodes, p, j));
                            }
                        }
                    }
                }
            }
            assert forall|k: int| 0 <= k < self.roots@.len() implies live(
                after,
                #[trigger] self.roots@[k],
            ) && node_at(after, self.roots@[k]).parent is None by {
                assert(live(nodes, self.roots@[k]));
            }
        }
        id
    }

    /// Sets the rectangle of a node.
    pub fn set_rect(&mut self, id: NodeId, rect: [N; 4])
        requires
            live(old(self).nodes(), id),
        ensures
            final(self).nodes() == old(self).nodes().update(
                id.index as int,
                Some(Node { rect, ..node_at(old(self).nodes(), id) }),
            ),
            final(self).root_ids() == old(self).root_ids(),
            final(self).dirty_mask() == old(self).dirty_mask(),
    {
        let ghost before = self.nodes@;
        if let Some(n) = &mut self.nodes[id.index as usize] {
            n.rect = rect;
        }
        assert(self.nodes@ =~= before.update(
            id.index as int,
            Some(Node { rect, ..node_at(before, id) }),
        ));
    }

    /// Sets the content extent and the scroll state of a node.
    pub fn set_extent(&mut self, id: NodeId, content_size: [N; 2], scroll: Option<ScrollState<N>>)
        requires
            live(old(self).nodes(), id),
        ensures
            final(self).nodes() == old(self).nodes().update(
                id.index as int,
                Some(Node { content_size, scroll, ..node_at(old(self).nodes(), id) }),
            ),
            final(self).root_ids() == old(self).root_ids(),
            final(self).dirty_mask() == old(self).dirty_mask(),
    {
        let ghost before = self.nodes@;
        if let Some(n) = &mut self.nodes[id.index as usize] {
            n.content_size = content_size;
            n.scroll = scroll;
        }
        assert(self.nodes@ =~= before.update(
            id.index as int,
            Some(Node { content_size, scroll, ..node_at(before, id) }),
        ));
    }

    /// Sets the scroll state of a node.
    pub fn set_scroll(&mut self, id: NodeId, scroll: Option<ScrollState<N>>)
        requires
            live(old(self).nodes(), id),
        ensures
            final(self).nodes() == old(self).nodes().update(
                id.index as int,
                Some(Node { scroll, ..node_at(old(self).nodes(), id) }),
            ),
            final(self).root_ids() == old(self).root_ids(),
            final(self).dirty_mask() == old(self).dirty_mask(),
    {
        let ghost before = self.nodes@;
        if let Some(n) = &mut self.nodes[id.index as usize] {
            n.scroll = scroll;
        }
        assert(self.nodes@ =~= before.update(
            id.index as int,
            Some(Node { scroll, ..node_at(before, id) }),
        ));
    }

    /// Sets the colour of a node. Returns whether that changed anything.
    pub fn set_color(&mut self, id: NodeId, color: [N; 4]) -> (r: bool)
        requires
            old(self).wf(),
        ensures
            final(self).wf(),
            r == (live(old(self).nodes(), id) && !equals4(node_at(old(self).nodes(), id).color, color)),
            final(self).nodes() == (if r {
                old(self).nodes().update(
                    id.index as int,
                    Some(Node { color, ..node_at(old(self).nodes(), id) }),
                )
            } else {
                old(self).nodes()
            }),
            final(self).root_ids() == old(self).root_ids(),
            final(self).dirty_mask() == (if r {
                old(self).dirty_mask() | (dirty::VISUAL | dirty::BACKDROP)
            } else {
                old(self).dirty_mask()
            }),
    {
        let i: usize = id.index as usize;
        if i >= self.nodes.len() {
            return false;
        }
        let ghost before = self.nodes@;
        let changes: bool = match &self.nodes[i] {
            Some(n) => !eq4(n.color, color),
            None => false,
        };
        if !changes {
            return false;
        }
        if let Some(n) = &mut self.nodes[i] {
            n.color = color;
        }
        self.dirty = self.dirty | (dirty::VISUAL | dirty::BACKDROP);
        proof {
            let n = Node { color, ..node_at(before, id) };
            assert(self.nodes@ =~= before.update(id.index as int, Some(n)));
            relabel_keeps_forest(before, self.roots@, id, n);
        }
        true
    }

    /// Sets the opacity of a node. Returns whether that changed anything.
    pub fn set_opacity(&mut self, id: NodeId, opacity: N) -> (r: bool)
        requires
            old(self).wf(),
        ensures
            final(self).wf(),
            r == (live(old(self).nodes(), id) && !node_at(old(self).nodes(), id).opacity.equals(opacity)),
            final(self).nodes() == (if r {
                old(self).nodes().update(
                    id.index as int,
                    Some(Node { opacity, ..node_at(old(self).nodes(), id) }),
                )
            } else {
                old(self).nodes()
            }),
            final(self).root_ids() == old(self).root_ids(),
            final(self).dirty_mask() == (if r {
                old(self).dirty_mask() | (dirty::VISUAL | dirty::BACKDROP)
            } else {
                old(self).dirty_mask()
            }),
    {
        let i: usize = id.index as usize;
        if i >= self.nodes.len() {
            return false;
        }
        let ghost before = self.nodes@;
        let changes: bool = match &self.nodes[i] {
            Some(n) => !n.opacity.eq(opacity),
            None => false,
        };
        if !changes {
            return false;
        }
        if let Some(n) = &mut self.nodes[i] {
            n.opacity = opacity;
        }
        self.dirty = self.dirty | (dirty::VISUAL | dirty::BACKDROP);
        proof {
            let n = Node { opacity, ..node_at(before, id) };
            assert(self.nodes@ =~= before.update(id.index as int, Some(n)));
            relabel_keeps_forest(before, self.roots@, id, n);
        }
        true
    }

    /// Shows or hides a node with all below it. Returns whether that changed anything.
    pub fn set_visible(&mut self, id: NodeId, visible: bool) -> (r: bool)
        requires
            old(self).wf(),
        ensures
            final(self).wf(),
            r == (live(old(self).nodes(), id) && node_at(old(self).nodes(), id).visible != visible),
            final(self).nodes() == (if r {
                old(self).nodes().update(
                    id.index as int,
                    Some(Node { visible, ..node_at(old(self).nodes(), id) }),
                )
            } else {
                old(self).nodes()
            }),
            final(self).root_ids() == old(self).root_ids(),
            final(self).dirty_mask() == (if r {
                old(self).dirty_mask() | (dirty::VISUAL | dirty::TRANSFORM)
            } else {
                old(self).dirty_mask()
            }),
    {
        let i: usize = id.index as usize;
        if i >= self.nodes.len() {
            return false;
        }
        let ghost before = self.nodes@;
        let changes: bool = match &self.nodes[i] {
            Some(n) => n.visible != visible,
            None => false,
        };
        if !changes {
            return false;
        }
        if let Some(n) = &mut self.nodes[i] {
            n.visible = visible;
        }
        self.dirty = self.dirty | (dirty::VISUAL | dirty::TRANSFORM);
        proof {
            let n = Node { visible, ..node_at(before, id) };
            assert(self.nodes@ =~= before.update(id.index as int, Some(n)));
            relabel_keeps_forest(before, self.roots@, id, n);
        }
        true
    }

    /// Sets the picture of a node. Returns whether that changed anything.
    pub fn set_image(&mut self, id: NodeId, image: Option<ImageHandle>) -> (r: bool)
        requires
            old(self).wf(),
        ensures
            final(self).wf(),
            r == (live(old(self).nodes(), id) && node_at(old(self).nodes(), id).image != image),
            final(self).nodes() == (if r {
                old(self).nodes().update(
                    id.index as int,
                    Some(Node { image, ..node_at(old(self).nodes(), id) }),
                )
            } else {
                old(self).nodes()
            }),
            final(self).root_ids() == old(self).root_ids(),
            final(self).dirty_mask() == (if r {
                old(self).dirty_mask() | (dirty::VISUAL | dirty::BACKDROP)
            } else {
                old(self).dirty_mask()
            }),
    {
        let i: usize = id.index as usize;
        if i >= self.nodes.len() {
            return false;
        }
        let ghost before = self.nodes@;
        let changes: bool = match &self.nodes[i] {
            Some(n) => !same_image(n.image, image),
            None => false,
        };
        if !changes {
            return false;
        }
        if let Some(n) = &mut self.nodes[i] {
            n.image = image;
        }
        self.dirty = self.dirty | (dirty::VISUAL | dirty::BACKDROP);
        proof {
            let n = Node { image, ..node_at(before, id) };
            assert(self.nodes@ =~= before.update(id.index as int, Some(n)));
            relabel_keeps_forest(before, self.roots@, id, n);
        }
        true
    }

    /// Sets the width of a node. Returns whether that changed anything.
    pub fn set_layout_width(&mut self, id: NodeId, width: Len<N>) -> (r: bool)
        requires
            old(self).wf(),
        ensures
            final(self).wf(),
            r == (live(old(self).nodes(), id) && !same_len(node_at(old(self).nodes(), id).layout.width, width)),
            final(self).nodes() == (if r {
                old(self).nodes().update(
                    id.index as int,
                    Some(Node { layout: LayoutStyle { width, ..node_at(old(self).nodes(), id).layout }, ..node_at(old(self).nodes(), id) }),
                )
            } else {
                old(self).nodes()
            }),
            final(self).root_ids() == old(self).root_ids(),
            final(self).dirty_mask() == (if r {
                old(self).dirty_mask() | dirty::TRANSFORM
            } else {
                old(self).dirty_mask()
            }),
    {
        let i: usize = id.index as usize;
        if i >= self.nodes.len() {
            return false;
        }
        let ghost before = self.nodes@;
        let changes: bool = match &self.nodes[i] {
            Some(n) => !len_eq(n.layout.width, width),
            None => false,
        };
        if !changes {
            return false;
        }
        if let Some(n) = &mut self.nodes[i] {
            n.layout.width = width;
        }
        self.dirty = self.dirty | dirty::TRANSFORM;
        proof {
            let n = Node { layout: LayoutStyle { width, ..node_at(before, id).layout }, ..node_at(before, id) };
            assert(self.nodes@ =~= before.update(id.index as int, Some(n)));
            relabel_keeps_forest(before, self.roots@, id, n);
        }
        true
    }

    /// Sets the height of a node. Returns whether that changed anything.
    pub fn set_layout_height(&mut self, id: NodeId, height: Len<N>) -> (r: bool)
        requires
            old(self).wf(),
        ensures
            final(self).wf(),
            r == (live(old(self).nodes(), id) && !same_len(node_at(old(self).nodes(), id).layout.height, height)),
            final(self).nodes() == (if r {
                old(self).nodes().update(
                    id.index as int,
                    Some(Node { layout: LayoutStyle { height, ..node_at(old(self).nodes(), id).layout }, ..node_at(old(self).nodes(), id) }),
                )
            } else {
                old(self).nodes()
            }),
            final(self).root_ids() == old(self).root_ids(),
            final(self).dirty_mask() == (if r {
                old(self).dirty_mask() | dirty::TRANSFORM
            } else {
                old(self).dirty_mask()
            }),
    {
        let i: usize = id.index as usize;
        if i >= self.nodes.len() {
            return false;
        }
        let ghost before = self.nodes@;
        let changes: bool = match &self.nodes[i] {
            Some(n) => !len_eq(n.layout.height, height),
            None => false,
        };
        if !changes {
            return false;
        }
        if let Some(n) = &mut self.nodes[i] {
            n.layout.height = height;
        }
        self.dirty = self.dirty | dirty::TRANSFORM;
        proof {
            let n = Node { layout: LayoutStyle { height, ..node_at(before, id).layout }, ..node_at(before, id) };
            assert(self.nodes@ =~= before.update(id.index as int, Some(n)));
            relabel_keeps_forest(before, self.roots@, id, n);
        }
        true
    }

    /// Takes a node out of the flow, to this offset. Returns whether that changed anything.
    pub fn set_layout_pos_abs(&mut self, id: NodeId, pos: [N; 2]) -> (r: bool)
        requires
            old(self).wf(),
        ensures
            final(self).wf(),
            r == (live(old(self).nodes(), id) && !(node_at(old(self).nodes(), id).layout.abs is Some && equals2(node_at(old(self).nodes(), id).layout.abs->0, pos))),
            final(self).nodes() == (if r {
                old(self).nodes().update(
                    id.index as int,
                    Some(Node { layout: LayoutStyle { abs: Some(pos), ..node_at(old(self).nodes(), id).layout }, ..node_at(old(self).nodes(), id) }),
                )
            } else {
                old(self).nodes()
            }),
            final(self).root_ids() == old(self).root_ids(),
            final(self).dirty_mask() == (if r {
                old(self).dirty_mask() | dirty::TRANSFORM
            } else {
                old(self).dirty_mask()
            }),
    {
        let i: usize = id.index as usize;
        if i >= self.nodes.len() {
            return false;
        }
        let ghost before = self.nodes@;
        let changes: bool = match &self.nodes[i] {
            Some(n) => !already_at(n.layout.abs, pos),
            None => false,
        };
        if !changes {
            return false;
        }
        if let Some(n) = &mut self.nodes[i] {
            n.layout.abs = Some(pos);
        }
        self.dirty = self.dirty | dirty::TRANSFORM;
        proof {
            let n = Node { layout: LayoutStyle { abs: Some(pos), ..node_at(before, id).layout }, ..node_at(before, id) };
            assert(self.nodes@ =~= before.update(id.index as int, Some(n)));
            relabel_keeps_forest(before, self.roots@, id, n);
        }
        true
    }

    /// Sets the size of a node in logical pixels. Returns whether that changed anything.
    pub fn set_layout_size_px(&mut self, id: NodeId, size: [N; 2]) -> (r: bool)
        requires
            old(self).wf(),
        ensures
            final(self).wf(),
            r == (live(old(self).nodes(), id) && !(same_len(node_at(old(self).nodes(), id).layout.width, Len::Px(size[0])) && same_len(node_at(old(self).nodes(), id).layout.height, Len::Px(size[1])))),
            final(self).nodes() == (if r {
                old(self).nodes().update(
                    id.index as int,
                    Some(Node { layout: LayoutStyle { width: Len::Px(size[0]), height: Len::Px(size[1]), ..node_at(old(self).nodes(), id).layout }, ..node_at(old(self).nodes(), id) }),
                )
            } else {
                old(self).nodes()
            }),
            final(self).root_ids() == old(self).root_ids(),
            final(self).dirty_mask() == (if r {
                old(self).dirty_mask() | dirty::TRANSFORM
            } else {
                old(self).dirty_mask()
            }),
    {
        let i: usize = id.index as usize;
        if i >= self.nodes.len() {
            return false;
        }
        let ghost before = self.nodes@;
        let changes: bool = match &self.nodes[i] {
            Some(n) => !(len_eq(n.layout.width, Len::Px(size[0])) && len_eq(n.layout.height, Len::Px(size[1]))),
            None => false,
        };
        if !changes {
            return false;
        }
        if let Some(n) = &mut self.nodes[i] {
            n.layout.width = Len::Px(size[0]);
            n.layout.height = Len::Px(size[1]);
        }
        self.dirty = self.dirty | dirty::TRANSFORM;
        proof {
            let n = Node { layout: LayoutStyle { width: Len::Px(size[0]), height: Len::Px(size[1]), ..node_at(before, id).layout }, ..node_at(before, id) };
            assert(self.nodes@ =~= before.update(id.index as int, Some(n)));
            relabel_keeps_forest(before, self.roots@, id, n);
        }
        true
    }

    /// Replaces the text of a node that shows text. Returns whether that
    /// changed anything.
    pub fn set_text(&mut self, id: NodeId, content: String) -> (r: bool)
        requires
            old(self).wf(),
        ensures
            final(self).wf(),
            r == (live(old(self).nodes(), id) && node_at(old(self).nodes(), id).text is Some
                && node_at(old(self).nodes(), id).text->0.content@ != content@),
            !r ==> final(self).nodes() == old(self).nodes(),
            r ==> final(self).nodes() == old(self).nodes().update(
                id.index as int,
                Some(
                    Node {
                        text: Some(
                            TextContent {
                                content,
                                ..node_at(old(self).nodes(), id).text->0
                            },
                        ),
                        ..node_at(old(self).nodes(), id)
                    },
                ),
            ),
            final(self).root_ids() == old(self).root_ids(),
            final(self).dirty_mask() == (if r {
                old(self).dirty_mask() | (dirty::VISUAL | dirty::TRANSFORM)
            } else {
                old(self).dirty_mask()
            }),
    {
        let i: usize = id.index as usize;
        if i >= self.nodes.len() {
            return false;
        }
        let ghost before = self.nodes@;
        match &self.nodes[i] {
            Some(n) => match &n.text {
                Some(t) => {
                    if strings_equal(&t.content, &content) {
                        return false;
                    }
                },
                None => return false,
            },
            None => return false,
        }
        let ghost fresh = content;
        if let Some(n) = &mut self.nodes[i] {
            if let Some(t) = &mut n.text {
                t.content = content;
            }
        }
        self.dirty = self.dirty | (dirty::VISUAL | dirty::TRANSFORM);
        proof {
            let n = Node {
                text: Some(TextContent { content: fresh, ..node_at(before, id).text->0 }),
                ..node_at(before, id)
            };
            assert(self.nodes@ =~= before.update(id.index as int, Some(n)));
            relabel_keeps_forest(before, self.roots@, id, n);
        }
        true
    }

    /// Puts a node at a rectangle and shows or hides it, after layout.
    pub fn set_overlay(&mut self, id: NodeId, rect: Option<[N; 4]>, visible: bool)
        requires
            old(self).wf(),
        ensures
            final(self).wf(),
            final(self).nodes() == with_node(
                old(self).nodes(),
                id,
                Node {
                    rect: match rect {
                        Some(r) => r,
                        None => node_at(old(self).nodes(), id).rect,
                    },
                    visible,
                    ..node_at(old(self).nodes(), id)
                },
            ),
            final(self).root_ids() == old(self).root_ids(),
            final(self).dirty_mask() == old(self).dirty_mask(),
    {
        let i: usize = id.index as usize;
        if i >= self.nodes.len() {
            return;
        }
        let ghost before = self.nodes@;
        if self.nodes[i].is_none() {
            return;
        }
        if let Some(n) = &mut self.nodes[i] {
            if let Some(r) = rect {
                n.rect = r;
            }
            n.visible = visible;
        }
        proof {
            let n = Node {
                rect: match rect {
                    Some(r) => r,
                    None => node_at(before, id).rect,
                },
                visible,
                ..node_at(before, id)
            };
            assert(self.nodes@ =~= before.update(id.index as int, Some(n)));
            relabel_keeps_forest(before, self.roots@, id, n);
        }
    }

    /// Replaces the editor of a node.
    pub fn set_editor(&mut self, id: NodeId, editor: EditorState<N>)
        requires
            old(self).wf(),
            live(old(self).nodes(), id),
        ensures
            final(self).wf(),
            final(self).nodes() == old(self).nodes().update(
                id.index as int,
                Some(Node { editor: Some(editor), ..node_at(old(self).nodes(), id) }),
            ),
            final(self).root_ids() == old(self).root_ids(),
            final(self).dirty_mask() == old(self).dirty_mask(),
    {
        let ghost before = self.nodes@;
        let ghost given = editor;
        if let Some(n) = &mut self.nodes[id.index as usize] {
            n.editor = Some(editor);
        }
        proof {
            let n = Node { editor: Some(given), ..node_at(before, id) };
            assert(self.nodes@ =~= before.update(id.index as int, Some(n)));
            relabel_keeps_forest(before, self.roots@, id, n);
        }
    }

    /// Takes the editor out of a node.
    pub fn take_editor(&mut self, id: NodeId) -> (r: Option<EditorState<N>>)
        requires
            old(self).wf(),
        ensures
            final(self).wf(),
            r == (if live(old(self).nodes(), id) {
                node_at(old(self).nodes(), id).editor
            } else {
                None
            }),
            final(self).nodes() == with_node(
                old(self).nodes(),
                id,
                Node { editor: None, ..node_at(old(self).nodes(), id) },
            ),
            final(self).root_ids() == old(self).root_ids(),
            final(self).dirty_mask() == old(self).dirty_mask(),
    {
        let i: usize = id.index as usize;
        if i >= self.nodes.len() {
            return None;
        }
        let ghost before = self.nodes@;
        let mut taken: Option<EditorState<N>> = None;
        if self.nodes[i].is_none() {
            return None;
        }
        if let Some(n) = &mut self.nodes[i] {
            std::mem::swap(&mut taken, &mut n.editor);
        }
        proof {
            let n = Node { editor: None, ..node_at(before, id) };
            assert(self.nodes@ =~= before.update(id.index as int, Some(n)));
            relabel_keeps_forest(before, self.roots@, id, n);
        }
        taken
    }

    /// Replaces the row list of a node.
    pub fn set_lazy_list(&mut self, id: NodeId, list: LazyListState<N>)
        requires
            old(self).wf(),
            live(old(self).nodes(), id),
        ensures
            final(self).wf(),
            final(self).nodes() == old(self).nodes().update(
                id.index as int,
                Some(Node { lazy_list: Some(list), ..node_at(old(self).nodes(), id) }),
            ),
            final(self).root_ids() == old(self).root_ids(),
            final(self).dirty_mask() == old(self).dirty_mask(),
    {
        let ghost before = self.nodes@;
        let ghost given = list;
        if let Some(n) = &mut self.nodes[id.index as usize] {
            n.lazy_list = Some(list);
        }
        proof {
            let n = Node { lazy_list: Some(given), ..node_at(before, id) };
            assert(self.nodes@ =~= before.update(id.index as int, Some(n)));
            relabel_keeps_forest(before, self.roots@, id, n);
        }
    }

    /// Takes the row list out of a node.
    pub fn take_lazy_list(&mut self, id: NodeId) -> (r: Option<LazyListState<N>>)
        requires
            old(self).wf(),
        ensures
            final(self).wf(),
            r == (if live(old(self).nodes(), id) {
                node_at(old(self).nodes(), id).lazy_list
            } else {
                None
            }),
            final(self).nodes() == with_node(
                old(self).nodes(),
                id,
                Node { lazy_list: None, ..node_at(old(self).nodes(), id) },
            ),
            final(self).root_ids() == old(self).root_ids(),
            final(self).dirty_mask() == old(self).dirty_mask(),
    {
        let i: usize = id.index as usize;
        if i >= self.nodes.len() {
            return None;
        }
        let ghost before = self.nodes@;
        let mut taken: Option<LazyListState<N>> = None;
        if self.nodes[i].is_none() {
            return None;
        }
        if let Some(n) = &mut self.nodes[i] {
            std::mem::swap(&mut taken, &mut n.lazy_list);
        }
        proof {
            let n = Node { lazy_list: None, ..node_at(before, id) };
            assert(self.nodes@ =~= before.update(id.index as int, Some(n)));
            relabel_keeps_forest(before, self.roots@, id, n);
        }
        taken
    }

    /// Removes a node with all below it. The result are their ids.
    pub fn remove_subtree(&mut self, top: NodeId) -> (r: Vec<NodeId>)
        requires
            old(self).wf(),
        ensures
            final(self).wf(),
            final(self).nodes().len() == old(self).nodes().len(),
            !live(old(self).nodes(), top) ==> r@.len() == 0 && final(self).nodes() == old(
                self,
            ).nodes() && final(self).root_ids() == old(self).root_ids()
                && final(self).dirty_mask() == old(self).dirty_mask(),
            live(old(self).nodes(), top) ==> {
                &&& r@ == descendant_ids(old(self).nodes(), top, old(self).nodes().len())
                &&& forall|i: int|
                    0 <= i < old(self).nodes().len() ==> #[trigger] left_over(
                        old(self).nodes(),
                        final(self).nodes(),
                        top,
                        i,
                    )
                &&& final(self).root_ids() == unlisted(old(self).root_ids(), top)
                &&& final(self).dirty_mask() == old(self).dirty_mask() | dirty::TREE
            },
    {
        let n: usize = self.nodes.len();
        let above: Option<NodeId> = match self.get(top) {
            Some(node) => node.parent,
            None => return Vec::new(),
        };
        let ghost nodes = self.nodes@;
        let ghost roots = self.roots@;
        proof {
            forest_parent(nodes, roots, top);
        }
        let mut gone: Vec<bool> = Vec::new();
        let mut removed: Vec<NodeId> = Vec::new();
        let mut i: usize = 0;
        while i < n
            invariant
                i <= n,
                n == nodes.len(),
                n <= u32::MAX,
                self.nodes@ == nodes,
                gone@.len() == i,
                forall|j: int| 0 <= j < i ==> #[trigger] gone@[j] == descends(nodes, top, j),
                removed@ == descendant_ids(nodes, top, i as nat),
            decreases n - i,
        {
            let here: bool = match &self.nodes[i] {
                Some(node) => {
                    if i == top.index as usize {
                        true
                    } else {
                        match node.parent {
                            Some(p) => (p.index as usize) < i && gone[p.index as usize],
                            None => false,
                        }
                    }
                },
                None => false,
            };
            assert(here == descends(nodes, top, i as int));
            gone.push(here);
            if here {
                removed.push(NodeId { index: i as u32 });
            }
            i = i + 1;
        }
        let mut k: usize = 0;
        while k < n
            invariant
                k <= n,
                n == nodes.len(),
                gone@.len() == n,
                self.nodes@.len() == n,
                self.roots@ == roots,
                self.dirty == old(self).dirty,
                forall|j: int| 0 <= j < n ==> #[trigger] gone@[j] == descends(nodes, top, j),
                forall|j: int|
                    0 <= j < k ==> #[trigger] self.nodes@[j] == (if descends(nodes, top, j) {
                        None
                    } else {
                        nodes[j]
                    }),
                forall|j: int| k <= j < n ==> #[trigger] self.nodes@[j] == nodes[j],
            decreases n - k,
        {
            if gone[k] {
                self.nodes[k] = None;
            }
            k = k + 1;
        }
        match above {
            Some(p) => {
                proof {
                    forest_parent(nodes, roots, p);
                    assert(!descends(nodes, top, p.index as int)) by {
                        parent_is_not_below(nodes, top, p.index as int);
                    }
                    assert(!roots.contains(top)) by {
                        if roots.contains(top) {
                            forest_root(nodes, roots, roots.index_of(top));
                        }
                    }
                }
                let ghost half = self.nodes@;
                if let Some(node) = &mut self.nodes[p.index as usize] {
                    unlist(&mut node.children, top);
                }
                proof {
                    assert forall|j: int| 0 <= j < nodes.len() implies #[trigger] left_over(
                        nodes,
                        self.nodes@,
                        top,
                        j,
                    ) by {
                        assert(half[j] == (if descends(nodes, top, j) {
                            None
                        } else {
                            nodes[j]
                        }));
                        if j != p.index {
                            assert(self.nodes@[j] == half[j]);
                        }
                    }
                }
            },
            None => {
                proof {
                    reveal(forest);
                }
                unlist(&mut self.roots, top);
                proof {
                    assert forall|j: int| 0 <= j < nodes.len() implies #[trigger] left_over(
                        nodes,
                        self.nodes@,
                        top,
                        j,
                    ) by {}
                }
            },
        }
        self.dirty = self.dirty | dirty::TREE;
        proof {
            removal_keeps_forest(nodes, roots, self.nodes@, top);
        }
        removed
    }

    /// Puts a node at an offset out of the flow, within a layout that is
    /// under way. Returns whether it was elsewhere.
    pub fn place_abs(&mut self, id: NodeId, pos: [N; 2]) -> (r: bool)
        requires
            old(self).wf(),
        ensures
            final(self).wf(),
            r == (live(old(self).nodes(), id) && !(node_at(old(self).nodes(), id).layout.abs is Some
                && equals2(node_at(old(self).nodes(), id).layout.abs->0, pos))),
            final(self).nodes() == (if r {
                old(self).nodes().update(
                    id.index as int,
                    Some(
                        Node {
                            layout: LayoutStyle {
                                abs: Some(pos),
                                ..node_at(old(self).nodes(), id).layout
                            },
                            ..node_at(old(self).nodes(), id)
                        },
                    ),
                )
            } else {
                old(self).nodes()
            }),
            final(self).root_ids() == old(self).root_ids(),
            final(self).dirty_mask() == old(self).dirty_mask(),
    {
        let mask: u32 = self.dirty;
        let r: bool = self.set_layout_pos_abs(id, pos);
        self.dirty = mask;
        r
    }

    /// Takes what changed since the last call.
    pub fn take_dirty(&mut self) -> (r: u32)
        ensures
            r == old(self).dirty_mask(),
            final(self).dirty_mask() == dirty::NONE,
            final(self).nodes() == old(self).nodes(),
            final(self).root_ids() == old(self).root_ids(),
    {
        let mask: u32 = self.dirty;
        self.dirty = dirty::NONE;
        mask
    }

    /// Marks what changed.
    pub fn mark(&mut self, bits: u32)
        ensures
            final(self).dirty_mask() == old(self).dirty_mask() | bits,
            final(self).nodes() == old(self).nodes(),
            final(self).root_ids() == old(self).root_ids(),
    {
        self.dirty = self.dirty | bits;
    }

    /// Marks everything as changed.
    pub fn mark_all_dirty(&mut self)
        ensures
            final(self).dirty_mask() == dirty::VISUAL | dirty::TREE | dirty::BACKDROP
                | dirty::TRANSFORM | dirty::SCROLL,
            final(self).nodes() == old(self).nodes(),
            final(self).root_ids() == old(self).root_ids(),
    {
        self.dirty = dirty::VISUAL | dirty::TREE | dirty::BACKDROP | dirty::TRANSFORM
            | dirty::SCROLL;
    }
}

/// A child that is added comes last, and the children before it keep their
/// places.
pub proof fn added_children_come_last<N>(n: Node<N>, m: Node<N>, c: NodeId)
    requires
        with_child(n, m, c),
    ensures
        m.children@.len() == n.children@.len() + 1,
        m.children@.last() == c,
        m.children@.drop_last() == n.children@,
        m.parent == n.parent,
        m.layout == n.layout,
        m.rect == n.rect,
{
    assert(m.children@.drop_last() =~= n.children@);
}

/// A list without an id holds all others in their order, and not the id.
pub proof fn unlisted_ids_are_gone(ids: Seq<NodeId>, id: NodeId, other: NodeId)
    requires
        ids.no_duplicates(),
    ensures
        !unlisted(ids, id).contains(id),
        other != id ==> (unlisted(ids, id).contains(other) <==> ids.contains(other)),
        ids.contains(id) ==> unlisted(ids, id).len() == ids.len() - 1,
        !ids.contains(id) ==> unlisted(ids, id) == ids,
{
    if ids.contains(id) {
        let k = ids.index_of(id);
        let rest = ids.remove(k);
        assert(ids[k] == id);
        if rest.contains(id) {
            let j = choose|j: int| 0 <= j < rest.len() && rest[j] == id;
            assert(rest[j] == ids[if j < k {
                j
            } else {
                j + 1
            }]);
        }
        if rest.contains(other) {
            let j = choose|j: int| 0 <= j < rest.len() && rest[j] == other;
            assert(rest[j] == ids[if j < k {
                j
            } else {
                j + 1
            }]);
        }
        if ids.contains(other) && other != id {
            let j = choose|j: int| 0 <= j < ids.len() && ids[j] == other;
            assert(rest[if j < k {
                j
            } else {
                j - 1
            }] == other);
        }
    }
}

/// The ids that go with a node are those of the nodes below it and its own, each
/// once and in order.
pub proof fn subtrees_go_whole<N>(nodes: Seq<Option<Node<N>>>, top: NodeId, n: nat, id: NodeId)
    requires
        n <= nodes.len() <= u32::MAX,
    ensures
        descendant_ids(nodes, top, n).contains(id) <==> id.index < n && descends(
            nodes,
            top,
            id.index as int,
        ),
        forall|i: int|
            0 <= i < descendant_ids(nodes, top, n).len() ==> (#[trigger] descendant_ids(
                nodes,
                top,
                n,
            )[i]).index < n,
        forall|i: int, j: int|
            0 <= i < j < descendant_ids(nodes, top, n).len() ==> (#[trigger] descendant_ids(
                nodes,
                top,
                n,
            )[i]).index < (#[trigger] descendant_ids(nodes, top, n)[j]).index,
    decreases n,
{
    if n > 0 {
        subtrees_go_whole(nodes, top, (n - 1) as nat, id);
        let before = descendant_ids(nodes, top, (n - 1) as nat);
        let after = descendant_ids(nodes, top, n);
        if descends(nodes, top, n - 1) {
            assert(after.last().index == n - 1);
            if before.contains(id) {
                let j = choose|j: int| 0 <= j < before.len() && before[j] == id;
                assert(after[j] == id);
            }
            if id.index == n - 1 {
                assert(after[before.len() as int] == id);
            }
            if after.contains(id) && id.index != n - 1 {
                let j = choose|j: int| 0 <= j < after.len() && after[j] == id;
                assert(before[j] == id);
            }
        }
    }
}

/// A subtree that is removed takes all its nodes and no other; its parent no
/// longer lists it, and is otherwise as it was.
pub proof fn removal_takes_the_subtree<N>(
    nodes: Seq<Option<Node<N>>>,
    after: Seq<Option<Node<N>>>,
    top: NodeId,
    i: int,
)
    requires
        0 <= i < nodes.len() <= u32::MAX,
        left_over(nodes, after, top, i),
        nodes[i] is Some ==> nodes[i]->0.children@.no_duplicates(),
    ensures
        after[i] is Some <==> nodes[i] is Some && !descends(nodes, top, i),
        after[i] is Some ==> after[i]->0.rect == nodes[i]->0.rect && after[i]->0.layout
            == nodes[i]->0.layout && after[i]->0.parent == nodes[i]->0.parent,
        after[i] is Some && node_at(nodes, top).parent == Some(NodeId { index: i as u32 })
            ==> !after[i]->0.children@.contains(top),
        after[i] is Some && node_at(nodes, top).parent != Some(NodeId { index: i as u32 })
            ==> after[i] == nodes[i],
{
    if nodes[i] is Some {
        unlisted_ids_are_gone(nodes[i]->0.children@, top, top);
    }
}

} // verus!
