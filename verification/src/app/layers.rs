//! From the flattened scene to what the compositor draws.
use std::ops::Range;

use vstd::prelude::*;

use crate::gpu::image_atlas::{HandleSet, ImageAtlas, Placed};
use crate::gpu::instance::{is_glass, unclipped, ShapeInstance, SHAPE_KIND_GLASS, SHAPE_KIND_MASK};
use crate::gpu::layer::{
    composite_of, plain_layers_are_moved_and_scaled, shows_texel,
    windows_show_their_content_pixel_for_pixel, LayerDraw, ScrollWindow,
};
use crate::gpu::shapes::{build_image_instances, image_shapes, ImageRef};
use crate::gpu::ImageHandle;
use crate::layer::{
    layer_faded, layer_moved, state_of, Layer, LayerTree, PromotedRange, PromotedState,
};
use crate::node::dirty;
use crate::node::hit::LayerSpan;
use crate::node::tree::{forest_size, live, node_at, Node, NodeTree};
use crate::node::NodeId;
use crate::num::{computes_exactly, equals2, fractions_are_exact, one, zero, Num};
use crate::signal::{Cell, SignalId, Signals, Value};

verus! {

/// A picture of the tree.
pub open spec fn has_image<N>(nodes: Seq<Option<Node<N>>>, n: int, handle: u32) -> bool {
    exists|i: int|
        0 <= i < n && (#[trigger] nodes[i]) is Some && nodes[i]->0.image == Some(ImageHandle(handle))
}

/// The handles of all pictures in the tree.
pub fn collect_live_image_handles<N: Num>(tree: &NodeTree<N>) -> (r: HandleSet)
    requires
        tree.wf(),
    ensures
        forall|h: u32| #[trigger]
            r@.contains(h) <==> has_image(tree.nodes(), tree.nodes().len() as int, h),
{
    proof {
        forest_size(tree.nodes(), tree.root_ids());
    }
    let n: usize = tree.capacity();
    let mut out = HandleSet::new();
    let mut i: usize = 0;
    while i < n
        invariant
            i <= n,
            n == tree.nodes().len(),
            n <= u32::MAX,
            forall|h: u32| #[trigger]
                out@.contains(h) <==> has_image(tree.nodes(), i as int, h),
        decreases n - i,
    {
        let ghost before = out@;
        let id: NodeId = NodeId { index: i as u32 };
        let mut found: Option<ImageHandle> = None;
        if let Some(node) = tree.get(id) {
            found = node.image;
        }
        if let Some(h) = found {
            out.insert(h);
        }
        proof {
            let nodes = tree.nodes();
            assert forall|h: u32| #[trigger] out@.contains(h) <==> has_image(nodes, i + 1, h) by {
                if has_image(nodes, i as int, h) {
                    let j = choose|j: int|
                        0 <= j < i && (#[trigger] nodes[j]) is Some && nodes[j]->0.image == Some(
                            ImageHandle(h),
                        );
                    assert(nodes[j] is Some);
                }
                if has_image(nodes, i + 1, h) && !has_image(nodes, i as int, h) {
                    let j = choose|j: int|
                        0 <= j < i + 1 && (#[trigger] nodes[j]) is Some && nodes[j]->0.image
                            == Some(ImageHandle(h));
                    assert(j == i);
                }
                if found == Some(ImageHandle(h)) {
                    assert(nodes[i as int] is Some);
                }
            }
        }
        i = i + 1;
    }
    out
}

/// A piece of the flattened scene. Sizes of borders, corners and shadows are
/// logical pixels; the shapes of text are final.
#[derive(Debug)]
pub enum FlatEvent<N> {
    Shape(ShapeInstance<N>),
    Image(ImageRef<N>),
    Text(Vec<ShapeInstance<N>>),
}

pub open spec fn scaled4<N: Num>(v: [N; 4], scale: N) -> [N; 4] {
    [
        v[0].product(scale),
        v[1].product(scale),
        v[2].product(scale),
        v[3].product(scale),
    ]
}

/// A shape with its logical sizes made physical. Of glass the blur and the
/// refraction are such sizes too.
pub open spec fn scaled_shape<N: Num>(s: ShapeInstance<N>, scale: N) -> ShapeInstance<N> {
    let sized = ShapeInstance {
        border_radius: scaled4(s.border_radius, scale),
        border_width: s.border_width.product(scale),
        shadow_offset: [s.shadow_offset[0].product(scale), s.shadow_offset[1].product(scale)],
        shadow_blur: s.shadow_blur.product(scale),
        ..s
    };
    if is_glass(s) {
        ShapeInstance {
            backdrop_uv_rect: [
                s.backdrop_uv_rect[0].product(scale),
                s.backdrop_uv_rect[1].product(scale),
                s.backdrop_uv_rect[2],
                s.backdrop_uv_rect[3],
            ],
            roughness: s.roughness.product(scale),
            ..sized
        }
    } else {
        sized
    }
}

fn scale4<N: Num>(v: [N; 4], scale: N) -> (r: [N; 4])
    ensures
        r == scaled4(v, scale),
{
    [v[0].times(scale), v[1].times(scale), v[2].times(scale), v[3].times(scale)]
}

fn scale_shape<N: Num>(shape: &ShapeInstance<N>, scale: N) -> (r: ShapeInstance<N>)
    ensures
        r == scaled_shape(*shape, scale),
{
    let mut s = *shape;
    s.border_radius = scale4(s.border_radius, scale);
    s.border_width = s.border_width.times(scale);
    s.shadow_offset = [s.shadow_offset[0].times(scale), s.shadow_offset[1].times(scale)];
    s.shadow_blur = s.shadow_blur.times(scale);
    if shape.shape_kind & SHAPE_KIND_MASK == SHAPE_KIND_GLASS {
        let b = shape.backdrop_uv_rect;
        s.backdrop_uv_rect = [b[0].times(scale), b[1].times(scale), b[2], b[3]];
        s.roughness = s.roughness.times(scale);
    }
    s
}

/// The shapes of one piece.
pub open spec fn event_shapes<N: Num>(e: FlatEvent<N>, images: Map<u32, Placed<N>>, scale: N) -> Seq<
    ShapeInstance<N>,
> {
    match e {
        FlatEvent::Shape(s) => seq![scaled_shape(s, scale)],
        FlatEvent::Image(r) => image_shapes(
            seq![ImageRef { border_radius: scaled4(r.border_radius, scale), ..r }],
            images,
        ),
        FlatEvent::Text(glyphs) => glyphs@,
    }
}

/// The shapes of the first `n` pieces.
pub open spec fn expanded<N: Num>(
    events: Seq<FlatEvent<N>>,
    images: Map<u32, Placed<N>>,
    scale: N,
    n: nat,
) -> Seq<ShapeInstance<N>>
    decreases n,
{
    if n == 0 {
        Seq::empty()
    } else {
        expanded(events, images, scale, (n - 1) as nat) + event_shapes(
            events[n - 1],
            images,
            scale,
        )
    }
}

/// How many of the first `n` pieces are panes of glass.
pub open spec fn glass_among<N: Num>(events: Seq<FlatEvent<N>>, n: nat) -> nat
    decreases n,
{
    if n == 0 {
        0
    } else {
        glass_among(events, (n - 1) as nat) + (match events[n - 1] {
            FlatEvent::Shape(s) if is_glass(s) => 1nat,
            _ => 0,
        })
    }
}

/// The shapes of a scene.
#[derive(Debug)]
pub struct Expanded<N> {
    pub shapes: Vec<ShapeInstance<N>>,
    /// Where the shapes of each piece start, and where the last ones end.
    pub starts: Vec<u32>,
    pub glass_count: u32,
}

proof fn expanded_grows<N: Num>(
    events: Seq<FlatEvent<N>>,
    images: Map<u32, Placed<N>>,
    scale: N,
    m: nat,
    n: nat,
)
    requires
        m <= n,
    ensures
        expanded(events, images, scale, m).len() <= expanded(events, images, scale, n).len(),
    decreases n,
{
    if m < n {
        expanded_grows(events, images, scale, m, (n - 1) as nat);
    }
}

/// Turns the pieces of a scene into shapes, in the same order.
pub fn expand_events<N: Num>(events: &Vec<FlatEvent<N>>, atlas: &ImageAtlas<N>, scale: N) -> (r:
    Expanded<N>)
    requires
        events@.len() <= u32::MAX,
        expanded(events@, atlas.images(), scale, events@.len()).len() <= u32::MAX,
    ensures
        r.shapes@ == expanded(events@, atlas.images(), scale, events@.len()),
        r.starts@.len() == events@.len() + 1,
        forall|i: int|
            0 <= i <= events@.len() ==> #[trigger] r.starts@[i] == expanded(
                events@,
                atlas.images(),
                scale,
                i as nat,
            ).len(),
        r.glass_count == glass_among(events@, events@.len()),
{
    let ghost images = atlas.images();
    let n: usize = events.len();
    let mut out: Vec<ShapeInstance<N>> = Vec::new();
    let mut starts: Vec<u32> = Vec::new();
    let mut glass: u32 = 0;
    let mut i: usize = 0;
    while i < n
        invariant
            i <= n,
            n == events@.len(),
            n <= u32::MAX,
            images == atlas.images(),
            expanded(events@, images, scale, n as nat).len() <= u32::MAX,
            out@ == expanded(events@, images, scale, i as nat),
            starts@.len() == i,
            forall|j: int|
                0 <= j < i ==> #[trigger] starts@[j] == expanded(
                    events@,
                    images,
                    scale,
                    j as nat,
                ).len(),
            glass == glass_among(events@, i as nat),
            glass <= i,
        decreases n - i,
    {
        proof {
            expanded_grows(events@, images, scale, i as nat, n as nat);
        }
        starts.push(out.len() as u32);
        match &events[i] {
            FlatEvent::Shape(s) => {
                if s.shape_kind & SHAPE_KIND_MASK == SHAPE_KIND_GLASS {
                    glass = glass + 1;
                }
                let ghost before = out@;
                out.push(scale_shape(s, scale));
                assert(out@ =~= before + seq![scaled_shape(*s, scale)]);
            },
            FlatEvent::Image(r) => {
                let mut scaled = *r;
                scaled.border_radius = scale4(scaled.border_radius, scale);
                let one_ref = [scaled];
                let mut shapes = build_image_instances(atlas, one_ref.as_slice());
                assert(one_ref@ =~= seq![
                    ImageRef { border_radius: scaled4(r.border_radius, scale), ..*r },
                ]);
                out.append(&mut shapes);
            },
            FlatEvent::Text(glyphs) => {
                let mut copy = vstd::slice::slice_to_vec(glyphs.as_slice());
                out.append(&mut copy);
            },
        }
        i = i + 1;
    }
    proof {
        expanded_grows(events@, images, scale, n as nat, n as nat);
    }
    starts.push(out.len() as u32);
    Expanded { shapes: out, starts, glass_count: glass }
}

/// The range of shapes of a layer, if it is to be one: a layer for an outside
/// texture has no shapes but a place; any other has some.
pub open spec fn promoted_of<N>(s: LayerSpan<N>, starts: Seq<u32>) -> Option<PromotedRange<N>> {
    if s.events.start >= starts.len() {
        None
    } else {
        let start = starts[s.events.start as int];
        if s.external is Some {
            Some(
                PromotedRange {
                    node: s.node,
                    instances: Range { start, end: start },
                    scroll: None,
                    external: s.external,
                    edge_fade: s.edge_fade,
                    edge_fade_falloff: s.edge_fade_falloff,
                },
            )
        } else if s.events.end < starts.len() && starts[s.events.end as int] > start {
            Some(
                PromotedRange {
                    node: s.node,
                    instances: Range { start, end: starts[s.events.end as int] },
                    scroll: s.scroll,
                    external: None,
                    edge_fade: s.edge_fade,
                    edge_fade_falloff: s.edge_fade_falloff,
                },
            )
        } else {
            None
        }
    }
}

/// The ranges of the first `n` spans that are layers.
pub open spec fn promoted_upto<N>(spans: Seq<LayerSpan<N>>, starts: Seq<u32>, n: nat) -> Seq<
    PromotedRange<N>,
>
    decreases n,
{
    if n == 0 {
        Seq::empty()
    } else {
        let before = promoted_upto(spans, starts, (n - 1) as nat);
        match promoted_of(spans[n - 1], starts) {
            Some(r) => before.push(r),
            None => before,
        }
    }
}

/// Range `i` comes before range `j`.
pub open spec fn starts_before<N>(ranges: Seq<PromotedRange<N>>, i: int, j: int) -> bool {
    ranges[i].instances.start < ranges[j].instances.start || (ranges[i].instances.start
        == ranges[j].instances.start && i < j)
}

/// `order` lists all positions of `ranges` by where the ranges start; ranges
/// that start together keep their order.
pub open spec fn is_start_order<N>(ranges: Seq<PromotedRange<N>>, order: Seq<int>) -> bool {
    &&& order.len() == ranges.len()
    &&& forall|a: int| 0 <= a < order.len() ==> 0 <= #[trigger] order[a] < ranges.len()
    &&& forall|a: int, b: int|
        0 <= a < b < order.len() ==> starts_before(ranges, #[trigger] order[a], #[trigger] order[b])
    &&& forall|i: int| 0 <= i < ranges.len() ==> #[trigger] order.contains(i)
}

/// `sorted` is `ranges` in the order of their starts.
pub open spec fn sorted_by_start<N>(
    ranges: Seq<PromotedRange<N>>,
    sorted: Seq<PromotedRange<N>>,
    order: Seq<int>,
) -> bool {
    &&& is_start_order(ranges, order)
    &&& sorted.len() == order.len()
    &&& forall|a: int| 0 <= a < order.len() ==> #[trigger] sorted[a] == ranges[order[a]]
}

proof fn start_order_insert<N>(
    ranges: Seq<PromotedRange<N>>,
    sorted: Seq<PromotedRange<N>>,
    order: Seq<int>,
    r: PromotedRange<N>,
    pos: int,
)
    requires
        sorted_by_start(ranges, sorted, order),
        0 <= pos <= sorted.len(),
        forall|a: int| 0 <= a < pos ==> (#[trigger] sorted[a]).instances.start <= r.instances.start,
        forall|a: int|
            pos <= a < sorted.len() ==> (#[trigger] sorted[a]).instances.start > r.instances.start,
    ensures
        sorted_by_start(
            ranges.push(r),
            sorted.insert(pos, r),
            order.insert(pos, ranges.len() as int),
        ),
{
    let n = ranges.len() as int;
    let all = ranges.push(r);
    let s1 = sorted.insert(pos, r);
    let o1 = order.insert(pos, n);
    assert forall|a: int| 0 <= a < o1.len() implies 0 <= #[trigger] o1[a] < all.len() && s1[a]
        == all[o1[a]] by {
        if a < pos {
            assert(o1[a] == order[a]);
            assert(s1[a] == sorted[a]);
        } else if a > pos {
            assert(o1[a] == order[a - 1]);
            assert(s1[a] == sorted[a - 1]);
        }
    }
    assert forall|a: int, b: int| 0 <= a < b < o1.len() implies starts_before(
        all,
        #[trigger] o1[a],
        #[trigger] o1[b],
    ) by {
        let a0 = if a < pos {
            a
        } else {
            a - 1
        };
        let b0 = if b < pos {
            b
        } else {
            b - 1
        };
        if a == pos {
            assert(o1[b] == order[b0]);
            assert(sorted[b0] == ranges[order[b0]]);
        } else if b == pos {
            assert(o1[a] == order[a0]);
            assert(sorted[a0] == ranges[order[a0]]);
        } else {
            assert(o1[a] == order[a0]);
            assert(o1[b] == order[b0]);
            assert(starts_before(ranges, order[a0], order[b0]));
        }
    }
    assert forall|i: int| 0 <= i < all.len() implies #[trigger] o1.contains(i) by {
        if i == n {
            assert(o1[pos] == n);
        } else {
            assert(order.contains(i));
            let a = choose|a: int| 0 <= a < order.len() && order[a] == i;
            assert(o1[if a < pos {
                a
            } else {
                a + 1
            }] == i);
        }
    }
}

/// Turns the spans of a flattened scene into ranges of shapes, in the order
/// in which they are painted.
pub fn spans_to_instance_ranges<N: Num>(spans: &Vec<LayerSpan<N>>, starts: &Vec<u32>) -> (r: Vec<
    PromotedRange<N>,
>)
    ensures
        exists|order: Seq<int>| #[trigger]
            sorted_by_start(promoted_upto(spans@, starts@, spans@.len()), r@, order),
{
    let mut out: Vec<PromotedRange<N>> = Vec::new();
    let ghost mut order: Seq<int> = Seq::empty();
    let mut i: usize = 0;
    while i < spans.len()
        invariant
            i <= spans@.len(),
            sorted_by_start(promoted_upto(spans@, starts@, i as nat), out@, order),
        decreases spans.len() - i,
    {
        let s = &spans[i];
        let mut made: Option<PromotedRange<N>> = None;
        if s.events.start < starts.len() {
            let start: u32 = starts[s.events.start];
            if s.external.is_some() {
                made = Some(
                    PromotedRange {
                        node: s.node,
                        instances: Range { start, end: start },
                        scroll: None,
                        external: s.external,
                        edge_fade: s.edge_fade,
                        edge_fade_falloff: s.edge_fade_falloff,
                    },
                );
            } else if s.events.end < starts.len() && starts[s.events.end] > start {
                made = Some(
                    PromotedRange {
                        node: s.node,
                        instances: Range { start, end: starts[s.events.end] },
                        scroll: s.scroll,
                        external: None,
                        edge_fade: s.edge_fade,
                        edge_fade_falloff: s.edge_fade_falloff,
                    },
                );
            }
        }
        assert(made == promoted_of(*s, starts@));
        if let Some(range) = made {
            let ghost before = out@;
            let start: u32 = range.instances.start;
            let mut pos: usize = out.len();
            while pos > 0 && out[pos - 1].instances.start > start
                invariant
                    pos <= out@.len(),
                    out@ == before,
                    forall|a: int|
                        pos <= a < out@.len() ==> (#[trigger] out@[a]).instances.start > start,
                ensures
                    pos == 0 || out@[pos - 1].instances.start <= start,
                decreases pos,
            {
                pos = pos - 1;
            }
            proof {
                assert forall|a: int| 0 <= a < pos implies (
                #[trigger] before[a]).instances.start <= start by {
                    if a < pos - 1 {
                        assert(before[a] == promoted_upto(spans@, starts@, i as nat)[order[a]]);
                        assert(before[pos - 1] == promoted_upto(
                            spans@,
                            starts@,
                            i as nat,
                        )[order[pos - 1]]);
                        assert(starts_before(
                            promoted_upto(spans@, starts@, i as nat),
                            order[a],
                            order[pos - 1],
                        ));
                    }
                }
                start_order_insert(
                    promoted_upto(spans@, starts@, i as nat),
                    before,
                    order,
                    range,
                    pos as int,
                );
                order = order.insert(pos as int, before.len() as int);
            }
            out.insert(pos, range);
        }
        i = i + 1;
    }
    assert(sorted_by_start(promoted_upto(spans@, starts@, spans@.len()), out@, order));
    out
}

/// The window that a scroll layer is shown through: its viewport, with the
/// texture moved by how far the content is scrolled past the texture's start.
pub open spec fn scroll_window<N: Num>(s: crate::node::ScrollSpan<N>) -> ScrollWindow<N> {
    ScrollWindow {
        dst_origin: s.viewport_origin,
        dst_size: s.viewport,
        src_origin: [
            s.scroll[0].difference(s.tex_origin[0]),
            s.scroll[1].difference(s.tex_origin[1]),
        ],
        tex_size: s.content,
        clip_rect: [
            s.viewport_origin[0],
            s.viewport_origin[1],
            s.viewport_origin[0].sum(s.viewport[0]),
            s.viewport_origin[1].sum(s.viewport[1]),
        ],
    }
}

/// The window that an outside texture is shown through: all of it, in the
/// rectangle of its node.
pub open spec fn external_window<N: Num>(e: crate::node::ExternalSpan<N>) -> ScrollWindow<N> {
    ScrollWindow {
        dst_origin: e.origin,
        dst_size: e.size,
        src_origin: [zero(), zero()],
        tex_size: e.size,
        clip_rect: e.clip,
    }
}

/// How a layer is drawn.
pub open spec fn draw_of<N: Num>(l: Layer<N>) -> LayerDraw<N> {
    LayerDraw {
        instances: Range { start: l.instances.start as u32, end: l.instances.end as u32 },
        offset: l.offset,
        scale: l.scale,
        opacity: l.opacity,
        z: l.z,
        window: match l.external {
            Some(e) => Some(external_window(e)),
            None => match l.window {
                Some(s) => Some(scroll_window(s)),
                None => None,
            },
        },
        external: match l.external {
            Some(_) => l.root,
            None => None,
        },
        corner_radius: match l.external {
            Some(e) => e.radius,
            None => zero(),
        },
        round_rect: None,
        edge_fade: l.edge_fade,
        edge_fade_falloff: if zero::<N>().below(l.edge_fade_falloff) {
            l.edge_fade_falloff
        } else {
            one()
        },
    }
}

/// Turns a layer into how it is drawn.
pub fn layer_to_draw<N: Num>(l: &Layer<N>) -> (r: LayerDraw<N>)
    requires
        l.instances.start <= u32::MAX,
        l.instances.end <= u32::MAX,
    ensures
        r == draw_of(*l),
{
    let z: N = N::of_ratio(0, 1);
    let window: Option<ScrollWindow<N>> = match l.window {
        Some(s) => Some(
            ScrollWindow {
                dst_origin: s.viewport_origin,
                dst_size: s.viewport,
                src_origin: [
                    s.scroll[0].minus(s.tex_origin[0]),
                    s.scroll[1].minus(s.tex_origin[1]),
                ],
                tex_size: s.content,
                clip_rect: [
                    s.viewport_origin[0],
                    s.viewport_origin[1],
                    s.viewport_origin[0].plus(s.viewport[0]),
                    s.viewport_origin[1].plus(s.viewport[1]),
                ],
            },
        ),
        None => None,
    };
    let (window, external, corner_radius): (Option<ScrollWindow<N>>, Option<NodeId>, N) =
        match l.external {
        Some(e) => (
            Some(
                ScrollWindow {
                    dst_origin: e.origin,
                    dst_size: e.size,
                    src_origin: [z, z],
                    tex_size: e.size,
                    clip_rect: e.clip,
                },
            ),
            l.root,
            e.radius,
        ),
        None => (window, None, z),
    };
    let falloff: N = if z.lt(l.edge_fade_falloff) {
        l.edge_fade_falloff
    } else {
        N::of_ratio(1, 1)
    };
    LayerDraw {
        instances: Range { start: l.instances.start as u32, end: l.instances.end as u32 },
        offset: l.offset,
        scale: l.scale,
        opacity: l.opacity,
        z: l.z,
        window,
        external,
        corner_radius,
        round_rect: None,
        edge_fade: l.edge_fade,
        edge_fade_falloff: falloff,
    }
}

/// How a layer is drawn in its tree: the corners of a promoted node that has
/// a radius are cut once, from the composited layer.
pub open spec fn rounded_draw<N: Num>(l: Layer<N>, nodes: Seq<Option<Node<N>>>, scale: N) -> LayerDraw<
    N,
> {
    let d = draw_of(l);
    if d.external is None && d.window is None && l.root is Some && live(nodes, l.root->0)
        && zero::<N>().below(node_at(nodes, l.root->0).border_radius[0]) {
        let n = node_at(nodes, l.root->0);
        let r = n.rect;
        LayerDraw {
            corner_radius: n.border_radius[0].product(scale),
            round_rect: Some([r[0], r[1], r[0].sum(r[2]), r[1].sum(r[3])]),
            ..d
        }
    } else {
        d
    }
}

/// How all layers are drawn.
pub fn layer_draws<N: Num>(layers: &LayerTree<N>, tree: &NodeTree<N>, scale: N) -> (r: Vec<
    LayerDraw<N>,
>)
    requires
        forall|i: int|
            0 <= i < layers.list().len() ==> (#[trigger] layers.list()[i]).instances.start
                <= u32::MAX && layers.list()[i].instances.end <= u32::MAX,
    ensures
        r@.len() == layers.list().len(),
        forall|i: int|
            0 <= i < r@.len() ==> #[trigger] r@[i] == rounded_draw(
                layers.list()[i],
                tree.nodes(),
                scale,
            ),
{
    let list = layers.layers();
    let z: N = N::of_ratio(0, 1);
    let mut out: Vec<LayerDraw<N>> = Vec::new();
    let mut i: usize = 0;
    while i < list.len()
        invariant
            i <= list@.len(),
            list@ == layers.list(),
            z == zero::<N>(),
            out@.len() == i,
            forall|j: int|
                0 <= j < list@.len() ==> (#[trigger] list@[j]).instances.start <= u32::MAX
                    && list@[j].instances.end <= u32::MAX,
            forall|j: int|
                0 <= j < i ==> #[trigger] out@[j] == rounded_draw(list@[j], tree.nodes(), scale),
        decreases list.len() - i,
    {
        let mut draw = layer_to_draw(&list[i]);
        if draw.external.is_none() && draw.window.is_none() {
            if let Some(id) = list[i].root {
                if let Some(n) = tree.get(id) {
                    let radius: N = n.border_radius[0];
                    if z.lt(radius) {
                        let q = n.rect;
                        draw.corner_radius = radius.times(scale);
                        draw.round_rect = Some([q[0], q[1], q[0].plus(q[2]), q[1].plus(q[3])]);
                    }
                }
            }
        }
        out.push(draw);
        i = i + 1;
    }
    out
}

/// A layer whose composite state follows a cell.
#[derive(Copy, Clone, Debug, PartialEq, Eq, Structural)]
pub struct LayerBind {
    pub node: NodeId,
    pub cell: SignalId,
}

/// The layers and the composite states behind them.
pub struct LayerView<N> {
    pub list: Seq<Layer<N>>,
    pub states: Map<u32, PromotedState<N>>,
}

/// The layers after the opacity of one was set.
pub open spec fn opacity_set<N: Num>(v: LayerView<N>, node: NodeId, opacity: N) -> LayerView<N> {
    let st = state_of(v.states, node);
    let changes = !st.opacity.equals(opacity);
    LayerView {
        list: if changes {
            Seq::new(v.list.len(), |i: int| layer_faded(v.list[i], node, opacity))
        } else {
            v.list
        },
        states: v.states.insert(
            node.index,
            if changes {
                PromotedState { opacity, ..st }
            } else {
                st
            },
        ),
    }
}

/// The layers after the offset of one was set.
pub open spec fn offset_set<N: Num>(v: LayerView<N>, node: NodeId, offset: [N; 2]) -> LayerView<N> {
    let st = state_of(v.states, node);
    let changes = !equals2(st.offset, offset);
    LayerView {
        list: if changes {
            Seq::new(v.list.len(), |i: int| layer_moved(v.list[i], node, offset))
        } else {
            v.list
        },
        states: v.states.insert(
            node.index,
            if changes {
                PromotedState { offset, ..st }
            } else {
                st
            },
        ),
    }
}

/// The number in a cell; zero for a cell of another shape.
pub open spec fn scalar_of<N: Num>(c: Cell<N>) -> N {
    match c.value {
        Value::Scalar(v) => v,
        _ => zero(),
    }
}

/// The layers after the first `n` opacity binds were followed.
pub open spec fn opacities_pumped<N: Num>(
    v: LayerView<N>,
    binds: Seq<LayerBind>,
    store: Seq<Cell<N>>,
    n: nat,
) -> LayerView<N>
    decreases n,
{
    if n == 0 {
        v
    } else {
        opacity_set(
            opacities_pumped(v, binds, store, (n - 1) as nat),
            binds[n - 1].node,
            scalar_of(store[binds[n - 1].cell.index as int]),
        )
    }
}

/// The layers after the first `n` offset binds were followed; the cells hold
/// logical pixels.
pub open spec fn offsets_pumped<N: Num>(
    v: LayerView<N>,
    binds: Seq<LayerBind>,
    store: Seq<Cell<N>>,
    scale: N,
    n: nat,
) -> LayerView<N>
    decreases n,
{
    if n == 0 {
        v
    } else {
        offset_set(
            offsets_pumped(v, binds, store, scale, (n - 1) as nat),
            binds[n - 1].node,
            [
                scalar_of(store[binds[n - 1].cell.index as int]).product(scale),
                zero::<N>().product(scale),
            ],
        )
    }
}

/// Following opacity bind `i`, after those before it, changes a layer.
pub open spec fn opacity_moves<N: Num>(
    v: LayerView<N>,
    binds: Seq<LayerBind>,
    store: Seq<Cell<N>>,
    i: int,
) -> bool {
    let st = state_of(opacities_pumped(v, binds, store, i as nat).states, binds[i].node);
    !st.opacity.equals(scalar_of(store[binds[i].cell.index as int]))
}

/// Following offset bind `i`, after those before it, changes a layer.
pub open spec fn offset_moves<N: Num>(
    v: LayerView<N>,
    binds: Seq<LayerBind>,
    store: Seq<Cell<N>>,
    scale: N,
    i: int,
) -> bool {
    let st = state_of(offsets_pumped(v, binds, store, scale, i as nat).states, binds[i].node);
    !equals2(
        st.offset,
        [
            scalar_of(store[binds[i].cell.index as int]).product(scale),
            zero::<N>().product(scale),
        ],
    )
}

/// The cells of the binds are in a store of `cells` cells.
pub open spec fn layer_binds_ok(binds: Seq<LayerBind>, cells: nat) -> bool {
    forall|i: int| 0 <= i < binds.len() ==> (#[trigger] binds[i]).cell.index < cells
}

fn scalar<N: Num>(signals: &Signals<N>, cell: SignalId) -> (r: N)
    requires
        cell.index < signals@.len(),
    ensures
        r == scalar_of(signals@[cell.index as int]),
{
    match signals.get(cell) {
        Value::Scalar(v) => v,
        _ => N::of_ratio(0, 1),
    }
}

/// Makes the opacities of layers follow their cells. The result says whether
/// any changed.
pub fn pump_layer_opacity_binds<N: Num>(
    layers: &mut LayerTree<N>,
    binds: &Vec<LayerBind>,
    signals: &Signals<N>,
) -> (r: bool)
    requires
        layer_binds_ok(binds@, signals@.len()),
    ensures
        ({
            let v = LayerView { list: old(layers).list(), states: old(layers).states() };
            let after = opacities_pumped(v, binds@, signals@, binds@.len());
            &&& final(layers).list() == after.list
            &&& final(layers).states() == after.states
            &&& r == exists|i: int|
                0 <= i < binds@.len() && #[trigger] opacity_moves(v, binds@, signals@, i)
        }),
        final(layers).epoch() == old(layers).epoch(),
        final(layers).waiting() == (old(layers).waiting() || r),
{
    let ghost v = LayerView { list: layers.list(), states: layers.states() };
    let mut changed: bool = false;
    let mut i: usize = 0;
    while i < binds.len()
        invariant
            i <= binds@.len(),
            layer_binds_ok(binds@, signals@.len()),
            layers.list() == opacities_pumped(v, binds@, signals@, i as nat).list,
            layers.states() == opacities_pumped(v, binds@, signals@, i as nat).states,
            changed == exists|j: int|
                0 <= j < i && #[trigger] opacity_moves(v, binds@, signals@, j),
            layers.epoch() == old(layers).epoch(),
            layers.waiting() == (old(layers).waiting() || changed),
        decreases binds.len() - i,
    {
        let ghost here = LayerView { list: layers.list(), states: layers.states() };
        let b = binds[i];
        let o: N = scalar(signals, b.cell);
        if layers.set_opacity(b.node, o) {
            assert(opacity_moves(v, binds@, signals@, i as int));
            changed = true;
        } else {
            assert(!opacity_moves(v, binds@, signals@, i as int));
        }
        assert(layers.list() =~= opacity_set(here, b.node, o).list);
        i = i + 1;
    }
    changed
}

/// Makes the horizontal offsets of layers follow their cells. The result says
/// whether any changed.
pub fn pump_layer_offset_binds<N: Num>(
    layers: &mut LayerTree<N>,
    binds: &Vec<LayerBind>,
    signals: &Signals<N>,
    scale: N,
) -> (r: bool)
    requires
        layer_binds_ok(binds@, signals@.len()),
    ensures
        ({
            let v = LayerView { list: old(layers).list(), states: old(layers).states() };
            let after = offsets_pumped(v, binds@, signals@, scale, binds@.len());
            &&& final(layers).list() == after.list
            &&& final(layers).states() == after.states
            &&& r == exists|i: int|
                0 <= i < binds@.len() && #[trigger] offset_moves(v, binds@, signals@, scale, i)
        }),
        final(layers).epoch() == old(layers).epoch(),
        final(layers).waiting() == (old(layers).waiting() || r),
{
    let ghost v = LayerView { list: layers.list(), states: layers.states() };
    let mut changed: bool = false;
    let mut i: usize = 0;
    while i < binds.len()
        invariant
            i <= binds@.len(),
            layer_binds_ok(binds@, signals@.len()),
            layers.list() == offsets_pumped(v, binds@, signals@, scale, i as nat).list,
            layers.states() == offsets_pumped(v, binds@, signals@, scale, i as nat).states,
            changed == exists|j: int|
                0 <= j < i && #[trigger] offset_moves(v, binds@, signals@, scale, j),
            layers.epoch() == old(layers).epoch(),
            layers.waiting() == (old(layers).waiting() || changed),
        decreases binds.len() - i,
    {
        let ghost here = LayerView { list: layers.list(), states: layers.states() };
        let b = binds[i];
        let x: N = scalar(signals, b.cell).times(scale);
        let y: N = N::of_ratio(0, 1).times(scale);
        if layers.set_offset(b.node, [x, y]) {
            assert(offset_moves(v, binds@, signals@, scale, i as int));
            changed = true;
        } else {
            assert(!offset_moves(v, binds@, signals@, scale, i as int));
        }
        assert(layers.list() =~= offset_set(here, b.node, [x, y]).list);
        i = i + 1;
    }
    changed
}

/// The opacity bind of a promoted node.
pub open spec fn opacity_bind<N>(nodes: Seq<Option<Node<N>>>, node: NodeId) -> Option<LayerBind> {
    if live(nodes, node) && node_at(nodes, node).layer_opacity is Some {
        Some(LayerBind { node, cell: node_at(nodes, node).layer_opacity->0 })
    } else {
        None
    }
}

/// The offset bind of a promoted node.
pub open spec fn offset_bind<N>(nodes: Seq<Option<Node<N>>>, node: NodeId) -> Option<LayerBind> {
    if live(nodes, node) && node_at(nodes, node).layer_offset_x is Some {
        Some(LayerBind { node, cell: node_at(nodes, node).layer_offset_x->0 })
    } else {
        None
    }
}

/// The binds of the first `n` promoted nodes: opacities and offsets.
pub open spec fn binds_of<N>(
    promoted: Seq<PromotedRange<N>>,
    nodes: Seq<Option<Node<N>>>,
    n: nat,
) -> (Seq<LayerBind>, Seq<LayerBind>)
    decreases n,
{
    if n == 0 {
        (Seq::empty(), Seq::empty())
    } else {
        let (o, x) = binds_of(promoted, nodes, (n - 1) as nat);
        (
            match opacity_bind(nodes, promoted[n - 1].node) {
                Some(b) => o.push(b),
                None => o,
            },
            match offset_bind(nodes, promoted[n - 1].node) {
                Some(b) => x.push(b),
                None => x,
            },
        )
    }
}

/// Collects the layers whose opacity or offset follows a cell.
pub fn collect_layer_binds<N: Num>(promoted: &Vec<PromotedRange<N>>, tree: &NodeTree<N>) -> (r: (
    Vec<LayerBind>,
    Vec<LayerBind>,
))
    ensures
        (r.0@, r.1@) == binds_of(promoted@, tree.nodes(), promoted@.len()),
{
    let mut opacities: Vec<LayerBind> = Vec::new();
    let mut offsets: Vec<LayerBind> = Vec::new();
    let mut i: usize = 0;
    while i < promoted.len()
        invariant
            i <= promoted@.len(),
            (opacities@, offsets@) == binds_of(promoted@, tree.nodes(), i as nat),
        decreases promoted.len() - i,
    {
        let node: NodeId = promoted[i].node;
        if let Some(n) = tree.get(node) {
            if let Some(cell) = n.layer_opacity {
                opacities.push(LayerBind { node, cell });
            }
            if let Some(cell) = n.layer_offset_x {
                offsets.push(LayerBind { node, cell });
            }
        }
        i = i + 1;
    }
    (opacities, offsets)
}

/// What a flush of the tree has to do.
#[derive(Copy, Clone, Debug, PartialEq, Eq, Structural)]
pub struct FlushPlan {
    pub mask: u32,
    /// Whether the tree is laid out.
    pub layout: bool,
    /// Whether what glass shows through has changed.
    pub backdrop: bool,
}

/// Nothing to do where nothing changed; a layout where nodes came, went or
/// moved.
pub open spec fn flush_of(mask: u32) -> Option<FlushPlan> {
    if mask == 0 {
        None
    } else {
        Some(
            FlushPlan {
                mask,
                layout: mask & (dirty::TREE | dirty::TRANSFORM) != 0,
                backdrop: mask & dirty::BACKDROP != 0,
            },
        )
    }
}

/// Takes what changed in the tree and says what a flush has to do.
pub fn take_flush<N: Num>(tree: &mut NodeTree<N>) -> (r: Option<FlushPlan>)
    ensures
        r == flush_of(old(tree).dirty_mask()),
        final(tree).dirty_mask() == dirty::NONE,
        final(tree).nodes() == old(tree).nodes(),
        final(tree).root_ids() == old(tree).root_ids(),
{
    let mask: u32 = tree.take_dirty();
    if mask == 0 {
        return None;
    }
    Some(
        FlushPlan {
            mask,
            layout: mask & (dirty::TREE | dirty::TRANSFORM) != 0,
            backdrop: mask & dirty::BACKDROP != 0,
        },
    )
}

/// Right after a flush there is nothing to flush.
pub proof fn flushed_tree_is_clean()
    ensures
        flush_of(dirty::NONE) is None,
{
}

/// Layers that are drawn come in the order in which their shapes are painted.
pub proof fn promoted_ranges_are_in_order<N>(
    ranges: Seq<PromotedRange<N>>,
    sorted: Seq<PromotedRange<N>>,
    order: Seq<int>,
    a: int,
    b: int,
)
    requires
        sorted_by_start(ranges, sorted, order),
        0 <= a < b < sorted.len(),
    ensures
        sorted[a].instances.start <= sorted[b].instances.start,
{
    assert(sorted[a] == ranges[order[a]]);
    assert(sorted[b] == ranges[order[b]]);
    assert(starts_before(ranges, order[a], order[b]));
}

/// In exact numbers, a scroll layer shows its content where the scroll offset
/// puts it: the point `p` from the corner of the viewport shows the texel at
/// the offset, counted from the corner of the texture, and `p`; nothing is
/// shown outside the viewport.
pub proof fn scrolled_layers_show_the_scrolled_content<N: Num>(
    value: spec_fn(N) -> real,
    l: Layer<N>,
    nodes: Seq<Option<Node<N>>>,
    scale: N,
    surface: [N; 2],
    axis: int,
    p: real,
    texel: real,
)
    requires
        computes_exactly(value),
        l.external is None,
        l.window is Some,
        0 <= axis < 2,
        value(l.window->0.viewport[axis]) > 0real,
    ensures
        ({
            let s = l.window->0;
            let d = rounded_draw(l, nodes, scale);
            let u = composite_of(d, surface);
            let o = value(s.viewport_origin[axis]);
            &&& shows_texel(value, u, axis, o + p, texel) <==> texel == (value(s.scroll[axis])
                - value(s.tex_origin[axis])) + p
            &&& value(u.dst_origin[axis]) == o
            &&& value(u.dst_size[axis]) == value(s.viewport[axis])
            &&& value(u.tex_size[axis]) == value(s.content[axis])
            &&& value(u.clip_rect[axis]) == o
            &&& value(u.clip_rect[axis + 2]) == o + value(s.viewport[axis])
            &&& u.opacity == l.opacity
            &&& u.edge_fade == l.edge_fade
            &&& d.external is None
            &&& d.z == l.z
        }),
{
    let d = rounded_draw(l, nodes, scale);
    windows_show_their_content_pixel_for_pixel(value, d, surface, axis, p, texel);
}

/// In exact numbers, a texture from outside fills the rectangle of its node,
/// from its own corner on, cut to the clip and the radius that the node has.
pub proof fn outside_textures_fill_their_nodes<N: Num>(
    value: spec_fn(N) -> real,
    l: Layer<N>,
    nodes: Seq<Option<Node<N>>>,
    scale: N,
    surface: [N; 2],
    axis: int,
    p: real,
    texel: real,
)
    requires
        computes_exactly(value),
        l.external is Some,
        0 <= axis < 2,
        value(l.external->0.size[axis]) > 0real,
    ensures
        ({
            let e = l.external->0;
            let d = rounded_draw(l, nodes, scale);
            let u = composite_of(d, surface);
            &&& shows_texel(value, u, axis, value(e.origin[axis]) + p, texel) <==> texel == p
            &&& value(u.dst_size[axis]) == value(e.size[axis])
            &&& value(u.tex_size[axis]) == value(e.size[axis])
            &&& u.clip_rect == e.clip
            &&& u.corner_radius == e.radius
            &&& u.opacity == l.opacity
            &&& d.external == l.root
            &&& d.z == l.z
        }),
{
    fractions_are_exact(value);
    let d = rounded_draw(l, nodes, scale);
    windows_show_their_content_pixel_for_pixel(value, d, surface, axis, p, texel);
}

/// In exact numbers, any other layer is the surface moved by its offset and
/// scaled by its scale; where its node has rounded corners, it is cut to the
/// rectangle of the node by the radius at the scale of the screen. A layer
/// keeps its shapes and its place in the stack.
pub proof fn other_layers_are_moved_and_scaled<N: Num>(
    value: spec_fn(N) -> real,
    l: Layer<N>,
    nodes: Seq<Option<Node<N>>>,
    scale: N,
    surface: [N; 2],
    axis: int,
    q: real,
    screen: real,
)
    requires
        computes_exactly(value),
        l.external is None,
        l.window is None,
        0 <= axis < 2,
        value(surface[axis]) > 0real,
    ensures
        ({
            let d = rounded_draw(l, nodes, scale);
            let u = composite_of(d, surface);
            &&& shows_texel(value, u, axis, screen, q) <==> screen == value(l.offset[axis]) + value(
                l.scale[axis],
            ) * q
            &&& u.opacity == l.opacity
            &&& d.external is None
            &&& d.z == l.z
            &&& l.root is Some && live(nodes, l.root->0) && value(
                node_at(nodes, l.root->0).border_radius[0],
            ) > 0real ==> {
                let n = node_at(nodes, l.root->0);
                &&& value(u.clip_rect[axis]) == value(n.rect[axis])
                &&& value(u.clip_rect[axis + 2]) == value(n.rect[axis]) + value(n.rect[axis + 2])
                &&& value(u.corner_radius) == value(n.border_radius[0]) * value(scale)
            }
            &&& l.root is None ==> u.clip_rect == unclipped::<N>()
        }),
{
    fractions_are_exact(value);
    let d = rounded_draw(l, nodes, scale);
    plain_layers_are_moved_and_scaled(value, d, surface, axis, q, screen);
}

/// A layer is drawn from its own shapes, and its edges fade as it says, or
/// evenly where it says nothing.
pub proof fn layers_keep_their_shapes<N: Num>(
    value: spec_fn(N) -> real,
    l: Layer<N>,
    nodes: Seq<Option<Node<N>>>,
    scale: N,
)
    requires
        computes_exactly(value),
        l.instances.start <= u32::MAX,
        l.instances.end <= u32::MAX,
    ensures
        ({
            let d = rounded_draw(l, nodes, scale);
            &&& d.instances.start == l.instances.start
            &&& d.instances.end == l.instances.end
            &&& d.edge_fade == l.edge_fade
            &&& value(d.edge_fade_falloff) == (if value(l.edge_fade_falloff) > 0real {
                value(l.edge_fade_falloff)
            } else {
                1real
            })
        }),
{
    fractions_are_exact(value);
}

/// In exact numbers, the sizes of a shape grow with the scale of the screen,
/// and what is a place, a colour or a kind stays; at the scale of one nothing
/// changes.
pub proof fn shapes_are_scaled_evenly<N: Num>(
    value: spec_fn(N) -> real,
    s: ShapeInstance<N>,
    scale: N,
    i: int,
)
    requires
        computes_exactly(value),
        0 <= i < 4,
    ensures
        ({
            let r = scaled_shape(s, scale);
            let k = value(scale);
            &&& value(r.border_radius[i]) == value(s.border_radius[i]) * k
            &&& value(r.border_width) == value(s.border_width) * k
            &&& i < 2 ==> value(r.shadow_offset[i]) == value(s.shadow_offset[i]) * k
            &&& value(r.shadow_blur) == value(s.shadow_blur) * k
            &&& r.position == s.position
            &&& r.size == s.size
            &&& r.color == s.color
            &&& r.shape_kind == s.shape_kind
            &&& r.clip_rect == s.clip_rect
            &&& is_glass(s) && i < 2 ==> value(r.backdrop_uv_rect[i]) == value(
                s.backdrop_uv_rect[i],
            ) * k
            &&& is_glass(s) ==> value(r.roughness) == value(s.roughness) * k
            &&& !is_glass(s) || i >= 2 ==> r.backdrop_uv_rect[i] == s.backdrop_uv_rect[i]
            &&& !is_glass(s) ==> r.roughness == s.roughness
        }),
{
}

/// The shapes of a piece stand between where they are said to start and where
/// those of the next piece do, in the order of the pieces; the shapes of text
/// are final.
pub proof fn pieces_keep_their_order<N: Num>(
    events: Seq<FlatEvent<N>>,
    images: Map<u32, Placed<N>>,
    scale: N,
    i: int,
)
    requires
        0 <= i < events.len(),
    ensures
        ({
            let all = expanded(events, images, scale, events.len());
            let from = expanded(events, images, scale, i as nat).len() as int;
            let to = expanded(events, images, scale, (i + 1) as nat).len() as int;
            &&& 0 <= from <= to <= all.len()
            &&& match events[i] {
                FlatEvent::Shape(s) => to == from + 1 && all[from].position == s.position
                    && all[from].shape_kind == s.shape_kind && all[from].color == s.color,
                FlatEvent::Text(glyphs) => all.subrange(from, to) == glyphs@,
                FlatEvent::Image(_) => to <= from + 1,
            }
        }),
{
    let n = events.len();
    let all = expanded(events, images, scale, n);
    let before = expanded(events, images, scale, i as nat);
    let here = expanded(events, images, scale, (i + 1) as nat);
    expanded_is_a_prefix(events, images, scale, i as nat, n);
    expanded_is_a_prefix(events, images, scale, (i + 1) as nat, n);
    assert(here == before + event_shapes(events[i], images, scale));
    let (from, to) = (before.len() as int, here.len() as int);
    assert(all.subrange(from, to) =~= event_shapes(events[i], images, scale)) by {
        assert forall|k: int| from <= k < to implies all[k] == here[k] by {
            assert(all.take(to)[k] == here[k]);
        }
    }
    match events[i] {
        FlatEvent::Shape(s) => {
            assert(all[from] == all.subrange(from, to)[0]);
        },
        FlatEvent::Image(r) => {
            let one_ref = seq![ImageRef { border_radius: scaled4(r.border_radius, scale), ..r }];
            crate::gpu::shapes::image_shapes_are_few(one_ref, images);
        },
        _ => {},
    }
}

proof fn expanded_is_a_prefix<N: Num>(
    events: Seq<FlatEvent<N>>,
    images: Map<u32, Placed<N>>,
    scale: N,
    m: nat,
    n: nat,
)
    requires
        m <= n,
    ensures
        expanded(events, images, scale, m).len() <= expanded(events, images, scale, n).len(),
        expanded(events, images, scale, n).take(
            expanded(events, images, scale, m).len() as int,
        ) == expanded(events, images, scale, m),
    decreases n,
{
    let a = expanded(events, images, scale, m);
    if m < n {
        expanded_is_a_prefix(events, images, scale, m, (n - 1) as nat);
        let b = expanded(events, images, scale, (n - 1) as nat);
        let c = expanded(events, images, scale, n);
        assert(c.take(a.len() as int) =~= b.take(a.len() as int));
    } else {
        assert(a.take(a.len() as int) =~= a);
    }
}

/// Panes of glass are counted one by one: a shape more that is glass adds one,
/// any other piece none.
pub proof fn glass_is_counted<N: Num>(events: Seq<FlatEvent<N>>, e: FlatEvent<N>)
    ensures
        ({
            let more = events.push(e);
            glass_among(more, more.len()) == glass_among(events, events.len()) + (if e
                matches FlatEvent::Shape(s) && s.shape_kind & SHAPE_KIND_MASK
                == SHAPE_KIND_GLASS {
                1nat
            } else {
                0
            })
        }),
        glass_among(Seq::<FlatEvent<N>>::empty(), 0) == 0,
{
    glass_of_a_prefix(events, events.push(e), events.len());
}

proof fn glass_of_a_prefix<N: Num>(a: Seq<FlatEvent<N>>, b: Seq<FlatEvent<N>>, n: nat)
    requires
        n <= a.len() <= b.len(),
        forall|k: int| 0 <= k < a.len() ==> a[k] == b[k],
    ensures
        glass_among(a, n) == glass_among(b, n),
    decreases n,
{
    if n > 0 {
        glass_of_a_prefix(a, b, (n - 1) as nat);
    }
}

/// The ranges of promoted subtrees are those of the shapes that their pieces
/// became; one without shapes is no layer unless it shows a texture from
/// outside, and that one has no shapes.
pub proof fn promoted_pieces_keep_their_shapes<N: Num>(
    s: LayerSpan<N>,
    starts: Seq<u32>,
)
    requires
        s.events.start < s.events.end < starts.len(),
    ensures
        match promoted_of(s, starts) {
            Some(r) => {
                &&& r.node == s.node
                &&& r.instances.start == starts[s.events.start as int]
                &&& s.external is None ==> r.instances.end == starts[s.events.end as int]
                    && r.instances.start < r.instances.end && r.scroll == s.scroll
                &&& s.external is Some ==> r.instances.end == r.instances.start
                &&& r.external == s.external
                &&& r.edge_fade == s.edge_fade
                &&& r.edge_fade_falloff == s.edge_fade_falloff
            },
            None => s.external is None && starts[s.events.end as int]
                <= starts[s.events.start as int],
        },
{
}

/// In exact numbers, a layer that follows a cell has the cell's value: its
/// opacity the number itself, its offset across the screen the number at the
/// scale of the screen. A cell that is followed last wins.
pub proof fn layers_follow_their_cells<N: Num>(
    value: spec_fn(N) -> real,
    v: LayerView<N>,
    binds: Seq<LayerBind>,
    store: Seq<Cell<N>>,
    scale: N,
)
    requires
        computes_exactly(value),
        binds.len() > 0,
        store[binds.last().cell.index as int].value is Scalar,
    ensures
        ({
            let x = value(store[binds.last().cell.index as int].value->Scalar_0);
            let faded = opacities_pumped(v, binds, store, binds.len());
            let moved = offsets_pumped(v, binds, store, scale, binds.len());
            let node = binds.last().node;
            &&& value(state_of(faded.states, node).opacity) == x
            &&& value(state_of(moved.states, node).offset[0]) == x * value(scale)
            &&& value(state_of(moved.states, node).offset[1]) == 0real
        }),
{
    fractions_are_exact(value);
    let n = (binds.len() - 1) as nat;
    let (faded, moved) = (
        opacities_pumped(v, binds, store, n),
        offsets_pumped(v, binds, store, scale, n),
    );
    assert(0real * value(scale) == 0real) by (nonlinear_arith);
}

/// A flush has something to do if and only if something changed. It lays the
/// tree out where nodes came, went or moved, and tells of the backdrop where
/// what glass shows through changed; other changes ask for neither.
pub proof fn flushes_do_what_is_marked(mask: u32)
    ensures
        mask != 0 <==> flush_of(mask) is Some,
        flush_of(mask | dirty::TREE) matches Some(p) && p.layout,
        flush_of(mask | dirty::TRANSFORM) matches Some(p) && p.layout,
        flush_of(mask | dirty::BACKDROP) matches Some(p) && p.backdrop,
        flush_of(mask | dirty::VISUAL) matches Some(p) && (flush_of(mask) matches Some(q)
            ==> p.layout == q.layout && p.backdrop == q.backdrop),
        flush_of(mask | dirty::SCROLL) matches Some(p) && (flush_of(mask) matches Some(q)
            ==> p.layout == q.layout && p.backdrop == q.backdrop),
        flush_of(dirty::VISUAL | dirty::SCROLL) matches Some(p) && !p.layout && !p.backdrop,
{
    assert((mask | 2) & (2u32 | 8u32) != 0 && (mask | 8) & (2u32 | 8u32) != 0 && (mask | 4) & 4 != 0 && (mask
        | 1) & (2u32 | 8u32) == mask & (2u32 | 8u32) && (mask | 1) & 4 == mask & 4 && (mask | 16) & (2u32 | 8u32)
        == mask & (2u32 | 8u32) && (mask | 16) & 4 == mask & 4 && (mask | 2) != 0 && (mask | 8) != 0 && (mask | 4) != 0 && (mask | 1) != 0 && (mask | 16) != 0 && (1u32 | 16u32) & (2u32 | 8u32) == 0 && (1u32
        | 16u32) & 4 == 0 && (1u32 | 16u32) != 0) by (bit_vector);
}

/// In exact numbers, a promoted node with round corners has them cut once, along
/// its own rectangle and with its radius in physical pixels. Windows and outside
/// textures have theirs from elsewhere, and other layers have none.
pub proof fn round_nodes_are_cut_once<N: Num>(
    value: spec_fn(N) -> real,
    l: Layer<N>,
    nodes: Seq<Option<Node<N>>>,
    scale: N,
)
    requires
        computes_exactly(value),
        l.root is Some,
        live(nodes, l.root->0),
        l.external is None,
        l.window is None,
    ensures
        ({
            let d = rounded_draw(l, nodes, scale);
            let n = node_at(nodes, l.root->0);
            let radius = value(n.border_radius[0]);
            &&& radius > 0real ==> {
                &&& value(d.corner_radius) == radius * value(scale)
                &&& d.round_rect matches Some(c)
                &&& c[0] == n.rect[0] && c[1] == n.rect[1]
                &&& value(c[2]) - value(c[0]) == value(n.rect[2])
                &&& value(c[3]) - value(c[1]) == value(n.rect[3])
            }
            &&& radius <= 0real ==> value(d.corner_radius) == 0real && d.round_rect is None
            &&& d.offset == l.offset && d.scale == l.scale && d.opacity == l.opacity && d.z == l.z
        }),
{
    fractions_are_exact(value);
}

/// The cells that layers follow are those of the promoted nodes: a node that has
/// a cell for its opacity or its offset is bound to it, and no other is.
pub proof fn promoted_nodes_are_bound_to_their_cells<N>(
    promoted: Seq<PromotedRange<N>>,
    nodes: Seq<Option<Node<N>>>,
    n: nat,
    b: LayerBind,
)
    requires
        n <= promoted.len(),
    ensures
        binds_of(promoted, nodes, n).0.contains(b) <==> live(nodes, b.node) && node_at(
            nodes,
            b.node,
        ).layer_opacity == Some(b.cell) && exists|i: int|
            0 <= i < n && (#[trigger] promoted[i]).node == b.node,
        binds_of(promoted, nodes, n).1.contains(b) <==> live(nodes, b.node) && node_at(
            nodes,
            b.node,
        ).layer_offset_x == Some(b.cell) && exists|i: int|
            0 <= i < n && (#[trigger] promoted[i]).node == b.node,
    decreases n,
{
    if n > 0 {
        promoted_nodes_are_bound_to_their_cells(promoted, nodes, (n - 1) as nat, b);
        let (o, x) = binds_of(promoted, nodes, (n - 1) as nat);
        let p = promoted[n - 1].node;
        match opacity_bind(nodes, p) {
            Some(d) => push_contains(o, d, b),
            None => {},
        }
        match offset_bind(nodes, p) {
            Some(d) => push_contains(x, d, b),
            None => {},
        }
        if exists|i: int| 0 <= i < n && (#[trigger] promoted[i]).node == b.node {
            let i = choose|i: int| 0 <= i < n && (#[trigger] promoted[i]).node == b.node;
            assert(i < n - 1 || p == b.node);
        }
        if exists|i: int| 0 <= i < n - 1 && (#[trigger] promoted[i]).node == b.node {
            let i = choose|i: int| 0 <= i < n - 1 && (#[trigger] promoted[i]).node == b.node;
            assert(promoted[i].node == b.node);
        }
        assert(promoted[n - 1].node == p);
    }
}

proof fn push_contains(s: Seq<LayerBind>, d: LayerBind, b: LayerBind)
    ensures
        s.push(d).contains(b) <==> s.contains(b) || d == b,
{
    let t = s.push(d);
    assert(t[s.len() as int] == d);
    if s.contains(b) {
        let j = choose|j: int| 0 <= j < s.len() && s[j] == b;
        assert(t[j] == b);
    }
    if t.contains(b) && d != b {
        let j = choose|j: int| 0 <= j < t.len() && t[j] == b;
        assert(s[j] == b);
    }
}

} // verus!
