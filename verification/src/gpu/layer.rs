//! What the compositor draws for each layer, and the pool of textures that
//! layers are drawn into.
//!
//! A layer without a window has a texture as large as the surface and is
//! drawn in screen coordinates. A layer with a [`ScrollWindow`] has a texture
//! as large as its content, is drawn in the coordinates of that content, and
//! shows a part of it on the screen.
//!
//! A texture remembers a signature of what was drawn into it. As long as the
//! signature stays the same the layer is not drawn again.
use std::ops::Range;

use vstd::prelude::*;

use crate::gpu::instance::{no_clip, unclipped, FrameUniform};
use crate::node::NodeId;
use crate::num::{
    ceiling_is, computes_exactly, fractions_are_exact, one, stands_for, whole_is, zero, Num,
};

verus! {

/// The part of a layer's texture that is shown, and where.
#[derive(Copy, Clone, Debug)]
pub struct ScrollWindow<N> {
    /// Top left on the screen.
    pub dst_origin: [N; 2],
    /// Size on the screen.
    pub dst_size: [N; 2],
    /// Where in the content the window starts: the scroll offset.
    pub src_origin: [N; 2],
    /// Size of the texture.
    pub tex_size: [N; 2],
    /// Left, top, right, bottom on the screen.
    pub clip_rect: [N; 4],
}

/// How one layer is drawn in a frame.
#[derive(Debug)]
pub struct LayerDraw<N> {
    /// The shapes of the layer, by their positions in painter order.
    pub instances: Range<u32>,
    /// Offset on the screen; for a layer without a window.
    pub offset: [N; 2],
    /// Scaling about the top left; for a layer without a window.
    pub scale: [N; 2],
    pub opacity: N,
    /// Lower is further back.
    pub z: i32,
    pub window: Option<ScrollWindow<N>>,
    /// The node whose outside texture is shown in place of drawn shapes.
    pub external: Option<NodeId>,
    /// Radius of the clipped corners of an outside texture, or of
    /// `round_rect`.
    pub corner_radius: N,
    /// The rectangle on the screen whose corners are cut, for a layer without
    /// a window: left, top, right, bottom.
    pub round_rect: Option<[N; 4]>,
    /// How much of each side fades out: top, right, bottom, left.
    pub edge_fade: [N; 4],
    pub edge_fade_falloff: N,
}

/// A layer of no shapes, composited as it is.
pub open spec fn identity_draw<N: Num>() -> LayerDraw<N> {
    let z = zero::<N>();
    let o = one::<N>();
    LayerDraw {
        instances: Range { start: 0u32, end: 0u32 },
        offset: [z, z],
        scale: [o, o],
        opacity: o,
        z: 0,
        window: None,
        external: None,
        corner_radius: z,
        round_rect: None,
        edge_fade: [z, z, z, z],
        edge_fade_falloff: o,
    }
}

impl<N: Num> Default for LayerDraw<N> {
    fn default() -> (r: Self)
        ensures
            r == identity_draw::<N>(),
    {
        let z = N::of_ratio(0, 1);
        let o = N::of_ratio(1, 1);
        LayerDraw {
            instances: Range { start: 0, end: 0 },
            offset: [z, z],
            scale: [o, o],
            opacity: o,
            z: 0,
            window: None,
            external: None,
            corner_radius: z,
            round_rect: None,
            edge_fade: [z, z, z, z],
            edge_fade_falloff: o,
        }
    }
}

/// `n`, but at least 1.
pub open spec fn positive(n: u32) -> u32 {
    if n == 0 {
        1
    } else {
        n
    }
}

fn at_least_one(n: u32) -> (r: u32)
    ensures
        r == positive(n),
{
    if n == 0 {
        1
    } else {
        n
    }
}

/// The size of the texture that a layer is drawn into.
pub open spec fn texture_size_of<N: Num>(
    window: Option<ScrollWindow<N>>,
    surface: [u32; 2],
) -> [u32; 2] {
    match window {
        Some(w) => [
            positive(w.tex_size[0].rounded_up().whole()),
            positive(w.tex_size[1].rounded_up().whole()),
        ],
        None => surface,
    }
}

impl<N: Num> LayerDraw<N> {
    pub fn texture_size(&self, surface: [u32; 2]) -> (r: [u32; 2])
        ensures
            r == texture_size_of(self.window, surface),
    {
        match self.window {
            Some(w) => [
                at_least_one(w.tex_size[0].ceil().to_u32()),
                at_least_one(w.tex_size[1].ceil().to_u32()),
            ],
            None => surface,
        }
    }
}

/// What the compositor is told of a layer: the rectangle `dst` on the screen
/// shows the part `src` of the texture, cut to `clip_rect`.
#[derive(Copy, Clone, Debug)]
pub struct CompositeUniform<N> {
    pub dst_origin: [N; 2],
    pub dst_size: [N; 2],
    pub src_origin: [N; 2],
    pub src_extent: [N; 2],
    pub tex_size: [N; 2],
    pub surface_size: [N; 2],
    pub clip_rect: [N; 4],
    pub opacity: N,
    pub corner_radius: N,
    pub edge_fade_falloff: N,
    /// Completes a row of four numbers; zero.
    pub pad: N,
    pub edge_fade: [N; 4],
}

/// A window is shown pixel for pixel and clipped to its own rectangle;
/// another layer is stretched over the offset and scaled surface, and clipped
/// only where it has corners to be cut.
pub open spec fn composite_of<N: Num>(
    draw: LayerDraw<N>,
    surface_size: [N; 2],
) -> CompositeUniform<N> {
    match draw.window {
        Some(w) => CompositeUniform {
            dst_origin: w.dst_origin,
            dst_size: w.dst_size,
            src_origin: w.src_origin,
            src_extent: w.dst_size,
            tex_size: w.tex_size,
            surface_size,
            clip_rect: w.clip_rect,
            opacity: draw.opacity,
            corner_radius: draw.corner_radius,
            edge_fade_falloff: draw.edge_fade_falloff,
            pad: zero(),
            edge_fade: draw.edge_fade,
        },
        None => CompositeUniform {
            dst_origin: draw.offset,
            dst_size: [
                surface_size[0].product(draw.scale[0]),
                surface_size[1].product(draw.scale[1]),
            ],
            src_origin: [zero(), zero()],
            src_extent: surface_size,
            tex_size: surface_size,
            surface_size,
            clip_rect: match draw.round_rect {
                Some(r) => r,
                None => unclipped(),
            },
            opacity: draw.opacity,
            corner_radius: match draw.round_rect {
                Some(_) => draw.corner_radius,
                None => zero(),
            },
            edge_fade_falloff: draw.edge_fade_falloff,
            pad: zero(),
            edge_fade: draw.edge_fade,
        },
    }
}

/// The composite parameters of a layer.
pub fn composite_uniform<N: Num>(draw: &LayerDraw<N>, surface_size: [N; 2]) -> (r: CompositeUniform<
    N,
>)
    ensures
        r == composite_of(*draw, surface_size),
{
    let z = N::of_ratio(0, 1);
    match draw.window {
        Some(w) => CompositeUniform {
            dst_origin: w.dst_origin,
            dst_size: w.dst_size,
            src_origin: w.src_origin,
            src_extent: w.dst_size,
            tex_size: w.tex_size,
            surface_size,
            clip_rect: w.clip_rect,
            opacity: draw.opacity,
            corner_radius: draw.corner_radius,
            edge_fade_falloff: draw.edge_fade_falloff,
            pad: N::of_ratio(0, 1),
            edge_fade: draw.edge_fade,
        },
        None => CompositeUniform {
            dst_origin: draw.offset,
            dst_size: [
                surface_size[0].times(draw.scale[0]),
                surface_size[1].times(draw.scale[1]),
            ],
            src_origin: [z, z],
            src_extent: surface_size,
            tex_size: surface_size,
            surface_size,
            clip_rect: match draw.round_rect {
                Some(r) => r,
                None => no_clip(),
            },
            opacity: draw.opacity,
            corner_radius: match draw.round_rect {
                Some(_) => draw.corner_radius,
                None => z,
            },
            edge_fade_falloff: draw.edge_fade_falloff,
            pad: N::of_ratio(0, 1),
            edge_fade: draw.edge_fade,
        },
    }
}

/// The frame parameters of a layer drawn in the coordinates of its content:
/// the target is its texture, whose corners are not those of the window.
pub fn layer_frame<N: Num>(screen_size: [N; 2], max_lod: N) -> (r: FrameUniform<N>)
    ensures
        r == (FrameUniform {
            screen_size,
            max_backdrop_lod: max_lod,
            window_corner_radius: zero(),
        }),
{
    FrameUniform {
        screen_size,
        max_backdrop_lod: max_lod,
        window_corner_radius: N::of_ratio(0, 1),
    }
}

/// A texture of the pool: its size, and the signature of what it holds.
#[derive(Copy, Clone, Debug, PartialEq, Eq, Structural)]
pub struct LayerSlot {
    pub width: u32,
    pub height: u32,
    pub sig: Option<u64>,
}

/// The texture pool, one texture for each layer.
#[derive(Debug)]
pub struct LayerResources {
    surface_size: [u32; 2],
    slots: Vec<LayerSlot>,
}

/// The size wanted of slot `i`: the one asked for, else that of the surface.
pub open spec fn wanted(sizes: Seq<[u32; 2]>, surface: [u32; 2], i: int) -> [u32; 2] {
    if i < sizes.len() {
        [positive(sizes[i][0]), positive(sizes[i][1])]
    } else {
        [positive(surface[0]), positive(surface[1])]
    }
}

/// Slot `i` has a texture of the size wanted of it.
pub open spec fn reusable(slots: Seq<LayerSlot>, want: [u32; 2], i: int) -> bool {
    i < slots.len() && slots[i].width == want[0] && slots[i].height == want[1]
}

/// Slot `i` after the pool was made to fit `sizes`.
pub open spec fn fitted(
    slots: Seq<LayerSlot>,
    sizes: Seq<[u32; 2]>,
    surface: [u32; 2],
    i: int,
) -> LayerSlot {
    let want = wanted(sizes, surface, i);
    if reusable(slots, want, i) {
        slots[i]
    } else {
        LayerSlot { width: want[0], height: want[1], sig: None }
    }
}

/// Bytes of the textures, four for each texel.
pub open spec fn texture_bytes(slots: Seq<LayerSlot>) -> int
    decreases slots.len(),
{
    if slots.len() == 0 {
        0
    } else {
        texture_bytes(slots.drop_last()) + slots.last().width * slots.last().height * 4
    }
}

proof fn texture_bytes_grow(slots: Seq<LayerSlot>, i: int)
    requires
        0 <= i <= slots.len(),
    ensures
        0 <= texture_bytes(slots.take(i)) <= texture_bytes(slots),
    decreases slots.len(),
{
    let n = slots.len() as int;
    if i < n {
        texture_bytes_grow(slots.drop_last(), i);
        assert(slots.drop_last().take(i) =~= slots.take(i));
        let w = slots.last().width;
        let h = slots.last().height;
        assert(0 <= w * h) by (nonlinear_arith)
            requires
                0 <= w,
                0 <= h,
        ;
    } else {
        assert(slots.take(i) =~= slots);
        if n > 0 {
            texture_bytes_grow(slots.drop_last(), n - 1);
            assert(slots.drop_last().take(n - 1) =~= slots.drop_last());
            let w = slots.last().width;
            let h = slots.last().height;
            assert(0 <= w * h) by (nonlinear_arith)
                requires
                    0 <= w,
                    0 <= h,
            ;
        }
    }
}

impl LayerResources {
    pub closed spec fn surface(self) -> [u32; 2] {
        self.surface_size
    }

    pub closed spec fn pool(self) -> Seq<LayerSlot> {
        self.slots@
    }

    /// A pool of one texture as large as the surface.
    pub fn new(width: u32, height: u32) -> (r: Self)
        ensures
            r.surface() == [positive(width), positive(height)],
            r.pool() == seq![
                LayerSlot { width: positive(width), height: positive(height), sig: None },
            ],
    {
        let w: u32 = at_least_one(width);
        let h: u32 = at_least_one(height);
        let mut slots: Vec<LayerSlot> = Vec::new();
        slots.push(LayerSlot { width: w, height: h, sig: None });
        let r = LayerResources { surface_size: [w, h], slots };
        assert(r.pool() =~= seq![LayerSlot { width: w, height: h, sig: None }]);
        r
    }

    /// Makes the pool have a texture of `sizes[i]` in slot `i`, and at least
    /// one. Textures of the right size are kept with what they hold. The
    /// result are the slots whose texture has to be made, in order.
    pub fn ensure(&mut self, sizes: &[[u32; 2]]) -> (r: Vec<usize>)
        ensures
            final(self).surface() == old(self).surface(),
            final(self).pool().len() == (if sizes@.len() == 0 {
                1
            } else {
                sizes@.len()
            }),
            forall|i: int|
                0 <= i < final(self).pool().len() ==> #[trigger] final(self).pool()[i] == fitted(
                    old(self).pool(),
                    sizes@,
                    old(self).surface(),
                    i,
                ),
            forall|i: int|
                0 <= i < final(self).pool().len() ==> (r@.contains(i as usize) <==> !reusable(
                    old(self).pool(),
                    #[trigger] wanted(sizes@, old(self).surface(), i),
                    i,
                )),
            forall|j: int| 0 <= j < r@.len() ==> #[trigger] r@[j] < final(self).pool().len(),
            forall|j: int, k: int| 0 <= j < k < r@.len() ==> r@[j] < r@[k],
    {
        let count: usize = if sizes.len() == 0 {
            1
        } else {
            sizes.len()
        };
        let ghost before = self.slots@;
        let mut made: Vec<usize> = Vec::new();
        let mut slots: Vec<LayerSlot> = Vec::new();
        let mut i: usize = 0;
        while i < count
            invariant
                i <= count,
                count == (if sizes@.len() == 0 {
                    1
                } else {
                    sizes@.len()
                }),
                self.slots@ == before,
                slots@.len() == i,
                forall|j: int|
                    0 <= j < i ==> #[trigger] slots@[j] == fitted(
                        before,
                        sizes@,
                        self.surface_size,
                        j,
                    ),
                forall|j: int|
                    0 <= j < i ==> (made@.contains(j as usize) <==> !reusable(
                        before,
                        #[trigger] wanted(sizes@, self.surface_size, j),
                        j,
                    )),
                forall|j: int| 0 <= j < made@.len() ==> #[trigger] made@[j] < i,
                forall|j: int, k: int| 0 <= j < k < made@.len() ==> made@[j] < made@[k],
            decreases count - i,
        {
            let asked: [u32; 2] = if i < sizes.len() {
                sizes[i]
            } else {
                self.surface_size
            };
            let want: [u32; 2] = [at_least_one(asked[0]), at_least_one(asked[1])];
            let ghost pre_made = made@;
            assert(want =~= wanted(sizes@, self.surface_size, i as int));
            if i < self.slots.len() && self.slots[i].width == want[0] && self.slots[i].height
                == want[1] {
                slots.push(self.slots[i]);
            } else {
                slots.push(LayerSlot { width: want[0], height: want[1], sig: None });
                made.push(i);
                assert(made@[pre_made.len() as int] == i);
                assert forall|j: usize| #[trigger] pre_made.contains(j) implies made@.contains(
                    j,
                ) by {
                    let k = choose|k: int| 0 <= k < pre_made.len() && pre_made[k] == j;
                    assert(made@[k] == j);
                }
                assert forall|j: usize| j != i && #[trigger] made@.contains(
                    j,
                ) implies pre_made.contains(j) by {
                    let k = choose|k: int| 0 <= k < made@.len() && made@[k] == j;
                    assert(pre_made[k] == j);
                }
            }
            i = i + 1;
        }
        self.slots = slots;
        made
    }

    /// The surface has a new size: nothing drawn so far is of use.
    pub fn resize(&mut self, width: u32, height: u32)
        ensures
            final(self).surface() == [positive(width), positive(height)],
            final(self).pool() == Seq::<LayerSlot>::empty(),
    {
        self.surface_size = [at_least_one(width), at_least_one(height)];
        self.slots.clear();
    }

    /// Whether slot `i` has to be drawn to show what `sig` stands for.
    pub fn needs_raster(&self, i: usize, sig: u64, force: bool) -> (r: bool)
        ensures
            r == (force || i >= self.pool().len() || self.pool()[i as int].sig != Some(sig)),
    {
        if force || i >= self.slots.len() {
            return true;
        }
        match self.slots[i].sig {
            Some(held) => held != sig,
            None => true,
        }
    }

    /// Slot `i` now holds what `sig` stands for.
    pub fn mark_rastered(&mut self, i: usize, sig: u64)
        ensures
            final(self).surface() == old(self).surface(),
            final(self).pool() == (if i < old(self).pool().len() {
                old(self).pool().update(
                    i as int,
                    LayerSlot { sig: Some(sig), ..old(self).pool()[i as int] },
                )
            } else {
                old(self).pool()
            }),
    {
        if i < self.slots.len() {
            let mut slot = self.slots[i];
            slot.sig = Some(sig);
            self.slots[i] = slot;
            assert(self.slots@ =~= old(self).slots@.update(i as int, slot));
        }
    }

    /// The number of textures.
    pub fn len(&self) -> (r: usize)
        ensures
            r == self.pool().len(),
    {
        self.slots.len()
    }

    /// The size of the texture in slot `i`.
    pub fn slot_size(&self, i: usize) -> (r: [u32; 2])
        requires
            i < self.pool().len(),
        ensures
            r == [self.pool()[i as int].width, self.pool()[i as int].height],
    {
        [self.slots[i].width, self.slots[i].height]
    }

    /// Bytes of the textures.
    pub fn memory_bytes(&self) -> (r: u64)
        requires
            texture_bytes(self.pool()) <= u64::MAX,
        ensures
            r == texture_bytes(self.pool()),
    {
        let mut total: u64 = 0;
        let mut i: usize = 0;
        while i < self.slots.len()
            invariant
                i <= self.slots@.len(),
                total == texture_bytes(self.slots@.take(i as int)),
                texture_bytes(self.slots@) <= u64::MAX,
            decreases self.slots.len() - i,
        {
            let w: u64 = self.slots[i].width as u64;
            let h: u64 = self.slots[i].height as u64;
            proof {
                let upto = self.slots@.take(i + 1);
                assert(upto.drop_last() =~= self.slots@.take(i as int));
                texture_bytes_grow(self.slots@, i + 1);
                assert(0 <= w * h) by (nonlinear_arith)
                    requires
                        0 <= w,
                        0 <= h,
                ;
            }
            total = total + w * h * 4;
            i = i + 1;
        }
        assert(self.slots@.take(i as int) =~= self.slots@);
        total
    }
}

/// The signatures held are those of the last drawing: a layer that was drawn
/// and asks for the same size and content again is not drawn again, and one
/// whose size changed is, whatever its content.
pub proof fn unchanged_layers_are_not_redrawn(
    slots: Seq<LayerSlot>,
    sizes: Seq<[u32; 2]>,
    surface: [u32; 2],
    i: int,
    sig: u64,
)
    requires
        0 <= i < slots.len(),
        slots[i].sig == Some(sig),
    ensures
        wanted(sizes, surface, i) == [slots[i].width, slots[i].height] ==> fitted(
            slots,
            sizes,
            surface,
            i,
        ).sig == Some(sig),
        wanted(sizes, surface, i) != [slots[i].width, slots[i].height] ==> fitted(
            slots,
            sizes,
            surface,
            i,
        ).sig is None,
{
    let want = wanted(sizes, surface, i);
    if want[0] == slots[i].width && want[1] == slots[i].height {
        assert(want =~= [slots[i].width, slots[i].height]);
    }
}

/// The point of the screen shows the texel, along an axis: the rectangle on
/// the screen is covered evenly by the part of the texture.
pub open spec fn shows_texel<N: Num>(
    value: spec_fn(N) -> real,
    u: CompositeUniform<N>,
    axis: int,
    screen: real,
    texel: real,
) -> bool {
    (texel - value(u.src_origin[axis])) * value(u.dst_size[axis]) == (screen - value(
        u.dst_origin[axis],
    )) * value(u.src_extent[axis])
}

/// In exact numbers, a window shows its texture pixel for pixel: the point `p`
/// from its corner on the screen shows the texel `p` from where the window
/// starts in the content, so that moving that start by `d` moves the texel at
/// every point by `d`, while the place on the screen and the clip stay. The
/// texture is as large as the window says.
pub proof fn windows_show_their_content_pixel_for_pixel<N: Num>(
    value: spec_fn(N) -> real,
    draw: LayerDraw<N>,
    surface: [N; 2],
    axis: int,
    p: real,
    texel: real,
)
    requires
        computes_exactly(value),
        draw.window is Some,
        0 <= axis < 2,
        value(draw.window->0.dst_size[axis]) > 0real,
    ensures
        ({
            let w = draw.window->0;
            let u = composite_of(draw, surface);
            &&& shows_texel(value, u, axis, value(w.dst_origin[axis]) + p, texel) <==> texel
                == value(w.src_origin[axis]) + p
            &&& value(u.dst_origin[axis]) == value(w.dst_origin[axis])
            &&& value(u.dst_size[axis]) == value(w.dst_size[axis])
            &&& value(u.tex_size[axis]) == value(w.tex_size[axis])
            &&& u.surface_size == surface
            &&& u.clip_rect == w.clip_rect
            &&& u.opacity == draw.opacity
            &&& u.corner_radius == draw.corner_radius
            &&& u.edge_fade == draw.edge_fade
            &&& u.edge_fade_falloff == draw.edge_fade_falloff
        }),
{
    let w = draw.window->0;
    let (a, h) = (texel - value(w.src_origin[axis]), value(w.dst_size[axis]));
    assert(a * h == p * h <==> a == p) by (nonlinear_arith)
        requires
            h > 0real,
    ;
}

/// In exact numbers, a layer without a window is the whole surface, moved and
/// scaled about its corner: the texel `q` shows at the offset and the scaled
/// `q`. Where it is neither moved nor scaled every point shows itself. It is
/// clipped only to the rectangle whose corners are cut.
pub proof fn plain_layers_are_moved_and_scaled<N: Num>(
    value: spec_fn(N) -> real,
    draw: LayerDraw<N>,
    surface: [N; 2],
    axis: int,
    q: real,
    screen: real,
)
    requires
        computes_exactly(value),
        draw.window is None,
        0 <= axis < 2,
        value(surface[axis]) > 0real,
    ensures
        ({
            let u = composite_of(draw, surface);
            let (o, k) = (value(draw.offset[axis]), value(draw.scale[axis]));
            &&& shows_texel(value, u, axis, screen, q) <==> screen == o + k * q
            &&& value(u.tex_size[axis]) == value(surface[axis])
            &&& u.surface_size == surface
            &&& u.opacity == draw.opacity
            &&& u.edge_fade == draw.edge_fade
            &&& u.edge_fade_falloff == draw.edge_fade_falloff
            &&& draw.round_rect matches Some(r) ==> u.clip_rect == r && u.corner_radius
                == draw.corner_radius
            &&& draw.round_rect is None ==> u.clip_rect == unclipped::<N>() && value(
                u.corner_radius,
            ) == 0real
        }),
{
    fractions_are_exact(value);
    let u = composite_of(draw, surface);
    let (o, k, s) = (
        value(draw.offset[axis]),
        value(draw.scale[axis]),
        value(surface[axis]),
    );
    assert(value(u.dst_size[axis]) == s * k);
    assert(value(u.src_origin[axis]) == 0real);
    assert(q * (s * k) == (screen - o) * s <==> screen == o + k * q) by (nonlinear_arith)
        requires
            s > 0real,
    ;
}

/// In exact numbers, the texture of a layer with a window holds all of its
/// content, with less than a texel to spare on each axis; it is never empty.
pub proof fn textures_hold_the_content<N: Num>(
    value: spec_fn(N) -> real,
    window: Option<ScrollWindow<N>>,
    surface: [u32; 2],
    axis: int,
)
    requires
        computes_exactly(value),
        0 <= axis < 2,
    ensures
        window is None ==> texture_size_of(window, surface) == surface,
        window matches Some(w) ==> {
            let n = texture_size_of(window, surface)[axis];
            let v = value(w.tex_size[axis]);
            &&& n >= 1
            &&& v <= u32::MAX as real ==> v <= n as real
            &&& n == 1 || (n as real) < v + 1real
        },
{
    if let Some(w) = window {
        let v = w.tex_size[axis];
        let up = v.rounded_up();
        assert(ceiling_is(value(v), value(up)));
        assert(whole_is(value(up), up.whole()));
        let k = choose|k: int| #[trigger] stands_for(value(up), k);
        assert(value(up) == k as real);
        let n = up.whole();
        if value(up) >= 0real {
            assert((n as int) as real <= k as real);
            assert(n as int <= k);
            if n != u32::MAX {
                assert((k as real) < ((n + 1) as real));
                assert(k == n as int);
            }
            if value(v) <= u32::MAX as real {
                assert((k as real) < (u32::MAX as int + 1) as real);
                assert(k <= u32::MAX as int);
            }
        }
    }
}

/// A texture of the size that is wanted is kept with what it holds; any other is
/// made anew in that size, and holds nothing. No texture is without texels.
pub proof fn textures_that_fit_are_kept(
    slots: Seq<LayerSlot>,
    sizes: Seq<[u32; 2]>,
    surface: [u32; 2],
    i: int,
)
    requires
        0 <= i < sizes.len(),
        sizes[i][0] > 0,
        sizes[i][1] > 0,
    ensures
        ({
            let s = fitted(slots, sizes, surface, i);
            let fits = i < slots.len() && slots[i].width == sizes[i][0] && slots[i].height
                == sizes[i][1];
            &&& s.width == sizes[i][0] && s.height == sizes[i][1]
            &&& fits ==> s == slots[i]
            &&& !fits ==> s.sig is None
        }),
        fitted(slots, sizes, surface, sizes.len() as int).width >= 1,
        fitted(slots, sizes, surface, sizes.len() as int).height >= 1,
{
}

/// A texture takes four bytes for each of its texels.
pub proof fn textures_take_four_bytes_a_texel(slots: Seq<LayerSlot>, s: LayerSlot)
    ensures
        texture_bytes(slots.push(s)) == texture_bytes(slots) + 4 * (s.width * s.height),
        texture_bytes(Seq::empty()) == 0,
{
    assert(slots.push(s).drop_last() =~= slots);
}

} // verus!
