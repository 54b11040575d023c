//! What the renderer knows between frames, and what it does in each.
//!
//! [`GpuContext`] holds no GPU object. Its methods take what the scene asks
//! for and answer with what is to be done: buffers to make, shapes to write,
//! textures to make, passes to encode.
use std::ops::Range;

use vstd::prelude::*;

use crate::gpu::external::{
    cleared, clips_kept, migrated, pushed, selected, streamed_over, ExternalTextures, Shown,
};
use crate::gpu::frame::{
    composite_sources, is_paint_order, pass_queries, plan_layers, queries_for, source_of,
    PassQueries, Scene, Source, Step, Walk, MAX_LAYERS,
};
use crate::gpu::glyph_atlas::{GlyphAtlas, GlyphWrite, PlacedGlyph};
use crate::gpu::image_atlas::{ImageAtlas, ImageHandle, ImageSource, Placed, TextureWrite};
use crate::gpu::instance::{FrameUniform, ShapeInstance};
use crate::gpu::layer::{
    composite_of, composite_uniform, fitted, identity_draw, layer_frame, positive, reusable,
    texture_bytes, texture_size_of, wanted, CompositeUniform, LayerDraw, LayerResources, LayerSlot,
    ScrollWindow,
};
use crate::gpu::packer::Region;
use crate::gpu::picture::{png_frame, rgba_bytes};
use crate::gpu::shapes::{
    build_image_instances, build_runs, image_shapes, runs_built, ImageRef, TextRun,
};
use crate::gpu::timing::{
    first_idle, idle_slot, FrameStats, FrameTiming, MapRequest, PassAlloc, ReadbackSlot, ResolvePlan,
    SlotState, Timing,
};
use crate::gpu::upload::{
    brings_up_to_date, capacity_for, grown_capacity, EncodedShape, InstanceBuffer, UploadPlan,
    FIRST_CAPACITY, MAX_CAPACITY, STRIDE,
};
use crate::node::NodeId;
use crate::num::{computes_exactly, eq2, equals2, fractions_are_exact, zero, Num};

verus! {

/// The side of the glyph atlas.
pub const GLYPH_ATLAS_SIZE: u32 = 1024;

/// The largest side that the image atlas is made with.
pub const MAX_IMAGE_ATLAS_SIZE: u32 = 8192;

/// Bytes of the timing buffers: one to resolve into and two to read back.
pub const TIMING_BYTES: u64 = 768;

/// The same pair, number by number.
pub open spec fn same_window<N: Num>(a: ScrollWindow<N>, b: ScrollWindow<N>) -> bool {
    &&& equals2(a.dst_origin, b.dst_origin)
    &&& equals2(a.dst_size, b.dst_size)
    &&& equals2(a.src_origin, b.src_origin)
    &&& equals2(a.tex_size, b.tex_size)
    &&& a.clip_rect[0].equals(b.clip_rect[0])
    &&& a.clip_rect[1].equals(b.clip_rect[1])
    &&& a.clip_rect[2].equals(b.clip_rect[2])
    &&& a.clip_rect[3].equals(b.clip_rect[3])
}

/// The layer is composited as before.
pub open spec fn composited_alike<N: Num>(a: LayerDraw<N>, b: LayerDraw<N>) -> bool {
    &&& equals2(a.offset, b.offset)
    &&& equals2(a.scale, b.scale)
    &&& a.opacity.equals(b.opacity)
    &&& match (a.window, b.window) {
        (Some(v), Some(w)) => same_window(v, w),
        (None, None) => true,
        _ => false,
    }
}

fn windows_equal<N: Num>(a: &ScrollWindow<N>, b: &ScrollWindow<N>) -> (r: bool)
    ensures
        r == same_window(*a, *b),
{
    eq2(a.dst_origin, b.dst_origin) && eq2(a.dst_size, b.dst_size) && eq2(
        a.src_origin,
        b.src_origin,
    ) && eq2(a.tex_size, b.tex_size) && a.clip_rect[0].eq(b.clip_rect[0]) && a.clip_rect[1].eq(
        b.clip_rect[1],
    ) && a.clip_rect[2].eq(b.clip_rect[2]) && a.clip_rect[3].eq(b.clip_rect[3])
}

fn draws_equal<N: Num>(a: &LayerDraw<N>, b: &LayerDraw<N>) -> (r: bool)
    ensures
        r == composited_alike(*a, *b),
{
    let windows: bool = match (&a.window, &b.window) {
        (Some(v), Some(w)) => windows_equal(v, w),
        (None, None) => true,
        _ => false,
    };
    eq2(a.offset, b.offset) && eq2(a.scale, b.scale) && a.opacity.eq(b.opacity) && windows
}

/// Every range ends after it starts, and there are not too many.
pub open spec fn draws_ok<N>(draws: Seq<LayerDraw<N>>) -> bool {
    &&& draws.len() <= MAX_LAYERS
    &&& forall|i: int|
        0 <= i < draws.len() ==> (#[trigger] draws[i]).instances.start <= draws[i].instances.end
}

/// The layers of a frame: those that were set, else one of all shapes.
pub open spec fn effective<N: Num>(draws: Seq<LayerDraw<N>>, count: u32) -> Seq<LayerDraw<N>> {
    if draws.len() == 0 {
        seq![LayerDraw { instances: Range { start: 0u32, end: count }, ..identity_draw::<N>() }]
    } else {
        draws
    }
}

/// The texture sizes that the layers ask for.
pub open spec fn sizes_of<N: Num>(draws: Seq<LayerDraw<N>>, surface: [u32; 2]) -> Seq<[u32; 2]> {
    Seq::new(draws.len(), |i: int| texture_size_of(draws[i].window, surface))
}

/// The pool after it was made to fit the layers.
pub open spec fn fitted_pool<N: Num>(
    pool: Seq<LayerSlot>,
    default_size: [u32; 2],
    draws: Seq<LayerDraw<N>>,
    surface: [u32; 2],
) -> Seq<LayerSlot> {
    let sizes = sizes_of(draws, surface);
    Seq::new(draws.len(), |i: int| fitted(pool, sizes, default_size, i))
}

/// The surface size as numbers.
pub open spec fn screen_of<N: Num>(surface: [u32; 2]) -> [N; 2] {
    [N::natural(surface[0] as u64), N::natural(surface[1] as u64)]
}

/// The coarsest of `mips` levels.
pub open spec fn coarsest<N: Num>(mips: u32) -> N {
    N::natural(
        (if mips == 0 {
            0
        } else {
            mips - 1
        }) as u64,
    )
}

/// What there is to do before the passes of a frame, and the passes.
#[derive(Debug)]
pub struct Prepared<N> {
    /// Slots whose texture has to be made.
    pub made: Vec<usize>,
    /// Composite parameters for each layer.
    pub uniforms: Vec<CompositeUniform<N>>,
    /// Frame parameters for each layer that has a window.
    pub frames: Vec<Option<FrameUniform<N>>>,
    /// The textures that the layers are composited from.
    pub sources: Vec<Source>,
    pub walk: Walk,
}

/// The parameters of a layer.
pub open spec fn layer_prepared<N: Num>(
    p: Prepared<N>,
    draws: Seq<LayerDraw<N>>,
    screen: [N; 2],
    max_lod: N,
    i: int,
) -> bool {
    &&& p.uniforms@[i] == composite_of(draws[i], screen)
    &&& p.frames@[i] == (match draws[i].window {
        Some(w) => Some(
            FrameUniform {
                screen_size: w.tex_size,
                max_backdrop_lod: max_lod,
                window_corner_radius: zero(),
            },
        ),
        None => None,
    })
}

/// The plan `walk` is the one for the scene `sc`.
pub open spec fn walk_is<N: Num>(
    walk: Walk,
    sc: Scene<N>,
    opaque_timed: bool,
    final_timed: bool,
) -> bool {
    let n = sc.draws.len();
    &&& is_paint_order(sc.draws, walk.order@)
    &&& walk.steps@ == sc.steps(walk.order@, n, opaque_timed, final_timed)
    &&& walk.rasters == sc.rasters(walk.order@, n)
    &&& walk.builds == sc.builds(walk.order@, n)
    &&& walk.drawcalls == sc.calls(walk.order@, n)
    &&& walk.drawcalls <= n * (n + 2)
}

/// The pool holds what the plan draws.
pub open spec fn pool_follows<N: Num>(pool: Seq<LayerSlot>, sc: Scene<N>, order: Seq<usize>) -> bool {
    &&& pool.len() == sc.draws.len()
    &&& forall|p: int|
        0 <= p < order.len() ==> pool[#[trigger] order[p] as int] == sc.slot_after(order, p)
}

/// The slots whose texture has to be made, in order: those that hold none of
/// the right size.
pub open spec fn made_anew<N: Num>(
    made: Seq<usize>,
    layers: LayerResources,
    draws: Seq<LayerDraw<N>>,
    surface: [u32; 2],
) -> bool {
    &&& forall|i: int|
        0 <= i < draws.len() ==> (made.contains(i as usize) <==> !reusable(
            layers.pool(),
            #[trigger] wanted(sizes_of(draws, surface), layers.surface(), i),
            i,
        ))
    &&& forall|j: int| 0 <= j < made.len() ==> #[trigger] made[j] < draws.len()
    &&& forall|j: int, k: int| 0 <= j < k < made.len() ==> made[j] < made[k]
}

fn prepare<N: Num>(
    draws: &Vec<LayerDraw<N>>,
    shapes: &Vec<EncodedShape>,
    layers: &mut LayerResources,
    textures: &ExternalTextures,
    moved: &Vec<bool>,
    dirty: bool,
    glassy: bool,
    opaque_timed: bool,
    final_timed: bool,
    surface: [u32; 2],
    max_lod: N,
) -> (r: Prepared<N>)
    requires
        draws_ok(draws@),
        draws@.len() > 0,
        shapes@.len() <= u32::MAX,
    ensures
        final(layers).surface() == old(layers).surface(),
        ({
            let sc = Scene {
                draws: draws@,
                shapes: shapes@,
                pool: fitted_pool(old(layers).pool(), old(layers).surface(), draws@, surface),
                moved: moved@,
                dirty,
                glassy,
            };
            &&& walk_is(r.walk, sc, opaque_timed, final_timed)
            &&& pool_follows(final(layers).pool(), sc, r.walk.order@)
        }),
        r.uniforms@.len() == draws@.len(),
        r.frames@.len() == draws@.len(),
        r.sources@.len() == draws@.len(),
        forall|i: int|
            0 <= i < draws@.len() ==> #[trigger] r.sources@[i] == source_of(
                draws@[i],
                textures.showing(),
            ),
        forall|i: int|
            0 <= i < draws@.len() ==> #[trigger] layer_prepared(
                r,
                draws@,
                screen_of(surface),
                max_lod,
                i,
            ),
        made_anew(r.made@, *old(layers), draws@, surface),
{
    let n: usize = draws.len();
    let screen: [N; 2] = [N::of_u64(surface[0] as u64), N::of_u64(surface[1] as u64)];
    let mut sizes: Vec<[u32; 2]> = Vec::new();
    let mut uniforms: Vec<CompositeUniform<N>> = Vec::new();
    let mut frames: Vec<Option<FrameUniform<N>>> = Vec::new();
    let mut i: usize = 0;
    while i < n
        invariant
            i <= n,
            n == draws@.len(),
            screen == screen_of::<N>(surface),
            sizes@.len() == i,
            uniforms@.len() == i,
            frames@.len() == i,
            forall|j: int|
                0 <= j < i ==> #[trigger] sizes@[j] == texture_size_of(draws@[j].window, surface),
            forall|j: int|
                0 <= j < i ==> #[trigger] uniforms@[j] == composite_of(draws@[j], screen),
            forall|j: int|
                0 <= j < i ==> #[trigger] frames@[j] == (match draws@[j].window {
                    Some(w) => Some(
                        FrameUniform {
                            screen_size: w.tex_size,
                            max_backdrop_lod: max_lod,
                            window_corner_radius: zero(),
                        },
                    ),
                    None => None,
                }),
        decreases n - i,
    {
        let d = &draws[i];
        sizes.push(d.texture_size(surface));
        uniforms.push(composite_uniform(d, screen));
        match &d.window {
            Some(w) => frames.push(Some(layer_frame(w.tex_size, max_lod))),
            None => frames.push(None),
        }
        i = i + 1;
    }
    assert(sizes@ =~= sizes_of(draws@, surface));
    let ghost want = fitted_pool(layers.pool(), layers.surface(), draws@, surface);
    let made = layers.ensure(sizes.as_slice());
    assert(layers.pool() =~= want);
    let sources = composite_sources(draws, textures);
    let walk = plan_layers(draws, shapes, layers, moved, dirty, glassy, opaque_timed, final_timed);
    Prepared { made, uniforms, frames, sources, walk }
}

/// The queries that a frame which wrote `pairs` pairs reads back.
pub open spec fn resolve_for<N: Num>(timing: Option<Timing<N>>, pairs: nat) -> Option<ResolvePlan> {
    match timing {
        None => None,
        Some(t) => match first_idle(t.ring()) {
            None => None,
            Some(slot) => Some(
                ResolvePlan { slot, count: (2 * pairs) as u32, bytes: (16 * pairs) as u64 },
            ),
        },
    }
}

/// The readback buffers after a frame: the one that was planned for waits to
/// be read, and the other is as it was.
pub open spec fn timing_resolved<N: Num>(
    before: Option<Timing<N>>,
    after: Option<Timing<N>>,
    alloc: PassAlloc,
    plan: Option<ResolvePlan>,
) -> bool {
    match (before, after) {
        (Some(b), Some(a)) => {
            &&& a.period() == b.period()
            &&& a.reported() == b.reported()
            &&& match plan {
                Some(p) => {
                    &&& a.copied() == Some(p.slot)
                    &&& a.ring() == b.ring().update(
                        p.slot as int,
                        ReadbackSlot { state: SlotState::Pending, alloc, bytes: p.bytes },
                    )
                },
                None => a.copied() is None && a.ring() == b.ring(),
            }
        },
        (None, None) => true,
        _ => false,
    }
}

/// What there is to do in a frame.
#[derive(Debug)]
pub struct FramePlan<N> {
    pub prepared: Prepared<N>,
    pub queries: PassQueries,
    /// Shapes of the overlay, drawn over the composited layers.
    pub overlay: u32,
    /// The shapes to count for the overdraw picture, if it is on.
    pub overdraw: Option<u32>,
    /// Queries to be read back.
    pub resolve: Option<ResolvePlan>,
}

/// The renderer.
pub struct GpuContext<N> {
    /// Size of the surface in physical pixels.
    pub surface: [u32; 2],
    pub layers: LayerResources,
    pub layer_draws: Vec<LayerDraw<N>>,
    /// Which layers were composited otherwise in the last frame.
    pub layer_composite_changed: Vec<bool>,
    pub external: ExternalTextures,
    pub glyph_atlas: GlyphAtlas<N>,
    pub image_atlas: ImageAtlas<N>,
    pub overdraw_mode: bool,
    pub instances: InstanceBuffer,
    pub overlay_capacity: u64,
    pub overlay_count: u32,
    pub instance_count: u32,
    pub glass_count: u32,
    /// Whether every backdrop is to be built anew.
    pub backdrop_dirty: bool,
    pub timing: Option<Timing<N>>,
    pub last_timing: Option<FrameTiming<N>>,
    pub last_drawcalls: u32,
    pub last_layer_count: u32,
    pub last_raster_count: u32,
    pub last_composite_count: u32,
    pub last_backdrop_builds: u32,
    /// Radius of the window corners in physical pixels.
    pub window_corner_radius: N,
}

/// Some layer was composited otherwise.
pub open spec fn any_moved(moved: Seq<bool>) -> bool {
    exists|i: int| 0 <= i < moved.len() && #[trigger] moved[i]
}

fn some_moved(moved: &Vec<bool>) -> (r: bool)
    ensures
        r == any_moved(moved@),
{
    let mut i: usize = 0;
    while i < moved.len()
        invariant
            i <= moved@.len(),
            forall|j: int| 0 <= j < i ==> !#[trigger] moved@[j],
        decreases moved.len() - i,
    {
        if moved[i] {
            return true;
        }
        i = i + 1;
    }
    false
}

impl<N: Num> GpuContext<N> {
    pub open spec fn wf(self) -> bool {
        &&& self.surface[0] > 0 && self.surface[1] > 0
        &&& draws_ok(self.layer_draws@)
        &&& self.external.wf()
        &&& self.glyph_atlas.wf()
        &&& self.image_atlas.wf()
        &&& self.instances.wf()
        &&& self.instance_count == self.instances@.len()
        &&& self.glass_count <= self.instance_count
        &&& self.overlay_capacity <= MAX_CAPACITY
        &&& self.timing matches Some(t) ==> t.wf()
    }

    /// A renderer for a surface of `width` by `height` pixels. `tick_ns` is
    /// the length of a GPU clock tick where the GPU can be timed, and
    /// `max_texture` the largest side of a texture.
    pub fn new(width: u32, height: u32, tick_ns: Option<N>, max_texture: u32) -> (r: Self)
        requires
            max_texture > 0,
        ensures
            r.wf(),
            r.surface == [positive(width), positive(height)],
            r.layers.surface() == r.surface,
            r.layers.pool() == seq![
                LayerSlot { width: positive(width), height: positive(height), sig: None },
            ],
            r.layer_draws@.len() == 0,
            r.layer_composite_changed@.len() == 0,
            r.external.showing() == Map::<u32, Shown>::empty(),
            r.external.streams() == Map::<u32, (u32, u32)>::empty(),
            r.external.resident_bytes() == 0,
            forall|n: NodeId| #[trigger] r.external.clip(n) is None,
            r.glyph_atlas.side() == GLYPH_ATLAS_SIZE,
            r.glyph_atlas.glyphs() == Map::<u64, PlacedGlyph<N>>::empty(),
            r.glyph_atlas.regions() == Seq::<Region>::empty(),
            r.glyph_atlas.resets() == 0,
            r.glyph_atlas.queued() == Seq::<GlyphWrite>::empty(),
            r.image_atlas.images() == Map::<u32, Placed<N>>::empty(),
            r.image_atlas.regions() == Seq::<Region>::empty(),
            r.image_atlas.next() == 0,
            r.image_atlas.kept() == Seq::<ImageSource>::empty(),
            r.image_atlas.queued() == Seq::<TextureWrite>::empty(),
            r.image_atlas.side() == (if max_texture < MAX_IMAGE_ATLAS_SIZE {
                max_texture
            } else {
                MAX_IMAGE_ATLAS_SIZE
            }),
            !r.overdraw_mode,
            r.instances@.len() == 0,
            r.instances.room() == FIRST_CAPACITY,
            r.overlay_capacity == FIRST_CAPACITY,
            r.overlay_count == 0,
            r.glass_count == 0,
            r.backdrop_dirty,
            r.timing is Some <==> tick_ns is Some,
            r.timing matches Some(t) ==> {
                &&& t.period() == tick_ns->0
                &&& t.ring() == seq![idle_slot(), idle_slot()]
                &&& t.copied() is None
                &&& t.reported() is None
            },
            r.last_timing is None,
            r.last_drawcalls == 0,
            r.last_layer_count == 1,
            r.last_raster_count == 0,
            r.last_composite_count == 0,
            r.last_backdrop_builds == 0,
            r.window_corner_radius == zero::<N>(),
    {
        let w: u32 = if width == 0 {
            1
        } else {
            width
        };
        let h: u32 = if height == 0 {
            1
        } else {
            height
        };
        let atlas: u32 = if max_texture < MAX_IMAGE_ATLAS_SIZE {
            max_texture
        } else {
            MAX_IMAGE_ATLAS_SIZE
        };
        let timing: Option<Timing<N>> = match tick_ns {
            Some(ns) => Some(Timing::new(ns)),
            None => None,
        };
        GpuContext {
            surface: [w, h],
            layers: LayerResources::new(w, h),
            layer_draws: Vec::new(),
            layer_composite_changed: Vec::new(),
            external: ExternalTextures::new(),
            glyph_atlas: GlyphAtlas::new(GLYPH_ATLAS_SIZE),
            image_atlas: ImageAtlas::new(atlas),
            overdraw_mode: false,
            instances: InstanceBuffer::new(),
            overlay_capacity: FIRST_CAPACITY,
            overlay_count: 0,
            instance_count: 0,
            glass_count: 0,
            backdrop_dirty: true,
            timing,
            last_timing: None,
            last_drawcalls: 0,
            last_layer_count: 1,
            last_raster_count: 0,
            last_composite_count: 0,
            last_backdrop_builds: 0,
            window_corner_radius: N::of_ratio(0, 1),
        }
    }

    /// What every shape of a pass over the surface shares. `mips` is the
    /// number of levels of the blurred backdrop.
    pub fn frame_uniform(&self, mips: u32) -> (r: FrameUniform<N>)
        ensures
            r == (FrameUniform {
                screen_size: screen_of(self.surface),
                max_backdrop_lod: coarsest(mips),
                window_corner_radius: self.window_corner_radius,
            }),
    {
        let lod: u32 = if mips == 0 {
            0
        } else {
            mips - 1
        };
        FrameUniform {
            screen_size: [N::of_u64(self.surface[0] as u64), N::of_u64(self.surface[1] as u64)],
            max_backdrop_lod: N::of_u64(lod as u64),
            window_corner_radius: self.window_corner_radius,
        }
    }

    /// The surface has a new size: every layer is to be drawn again.
    pub fn resize(&mut self, width: u32, height: u32)
        requires
            old(self).wf(),
        ensures
            final(self).wf(),
            final(self).surface == [positive(width), positive(height)],
            final(self).layers.surface() == final(self).surface,
            final(self).layers.pool() == Seq::<LayerSlot>::empty(),
            final(self).backdrop_dirty,
            *final(self) == (GpuContext {
                surface: final(self).surface,
                layers: final(self).layers,
                backdrop_dirty: true,
                ..*old(self)
            }),
    {
        let w: u32 = if width == 0 {
            1
        } else {
            width
        };
        let h: u32 = if height == 0 {
            1
        } else {
            height
        };
        self.surface = [w, h];
        self.layers.resize(w, h);
        self.backdrop_dirty = true;
    }

    /// Sets the layers of the next frame, and notes which of them are
    /// composited otherwise than before. A layer that was not there has moved.
    pub fn set_layers(&mut self, draws: Vec<LayerDraw<N>>)
        requires
            old(self).wf(),
            draws_ok(draws@),
        ensures
            final(self).wf(),
            final(self).layer_draws == draws,
            final(self).layer_composite_changed@.len() == draws@.len(),
            forall|i: int|
                0 <= i < draws@.len() ==> #[trigger] final(self).layer_composite_changed@[i] == (i
                    >= old(self).layer_draws@.len() || !composited_alike(
                    draws@[i],
                    old(self).layer_draws@[i],
                )),
            *final(self) == (GpuContext {
                layer_draws: final(self).layer_draws,
                layer_composite_changed: final(self).layer_composite_changed,
                ..*old(self)
            }),
    {
        let mut changed: Vec<bool> = Vec::new();
        let mut i: usize = 0;
        while i < draws.len()
            invariant
                i <= draws@.len(),
                changed@.len() == i,
                forall|j: int|
                    0 <= j < i ==> #[trigger] changed@[j] == (j >= self.layer_draws@.len()
                        || !composited_alike(draws@[j], self.layer_draws@[j])),
            decreases draws.len() - i,
        {
            let c: bool = i >= self.layer_draws.len() || !draws_equal(
                &draws[i],
                &self.layer_draws[i],
            );
            changed.push(c);
            i = i + 1;
        }
        self.layer_composite_changed = changed;
        self.layer_draws = draws;
    }

    pub fn overdraw_mode(&self) -> (r: bool)
        ensures
            r == self.overdraw_mode,
    {
        self.overdraw_mode
    }

    pub fn set_overdraw(&mut self, on: bool)
        ensures
            *final(self) == (GpuContext { overdraw_mode: on, ..*old(self) }),
    {
        self.overdraw_mode = on;
    }

    /// Sets the radius of the window corners, given in logical pixels.
    pub fn set_window_corner_radius(&mut self, radius: N, scale: N)
        ensures
            *final(self) == (GpuContext {
                window_corner_radius: radius.larger(zero()).product(scale),
                ..*old(self)
            }),
    {
        self.window_corner_radius = radius.max(N::of_ratio(0, 1)).times(scale);
    }

    /// Takes the shapes of the next frame in painter order, of which
    /// `glass_count` are panes of glass.
    pub fn set_instances(
        &mut self,
        instances: &[EncodedShape],
        glass_count: u32,
        backdrop_hint: bool,
    ) -> (r: UploadPlan)
        requires
            old(self).wf(),
            instances@.len() <= u32::MAX,
        ensures
            final(self).wf(),
            final(self).instances@ == instances@,
            final(self).instances.room() == capacity_for(
                old(self).instances.room(),
                instances@.len() as int,
            ),
            brings_up_to_date(
                r,
                old(self).instances.room(),
                old(self).instances@,
                instances@,
            ),
            final(self).instance_count == instances@.len(),
            final(self).glass_count == (if glass_count < instances@.len() {
                glass_count as int
            } else {
                instances@.len() as int
            }),
            final(self).backdrop_dirty == (old(self).backdrop_dirty || backdrop_hint),
            *final(self) == (GpuContext {
                instances: final(self).instances,
                instance_count: final(self).instance_count,
                glass_count: final(self).glass_count,
                backdrop_dirty: final(self).backdrop_dirty,
                ..*old(self)
            }),
    {
        let plan = self.instances.set_instances(instances);
        self.instance_count = instances.len() as u32;
        self.glass_count = if glass_count < self.instance_count {
            glass_count
        } else {
            self.instance_count
        };
        if backdrop_hint {
            self.backdrop_dirty = true;
        }
        plan
    }

    pub fn glass_count(&self) -> (r: u32)
        ensures
            r == self.glass_count,
    {
        self.glass_count
    }

    /// Sets the number of shapes drawn over the scene. The result is the
    /// capacity of a new overlay buffer, where the old one is too small.
    pub fn set_overlay_instances(&mut self, count: u32) -> (r: Option<u64>)
        requires
            old(self).wf(),
        ensures
            final(self).wf(),
            r is Some <==> count > old(self).overlay_capacity,
            r matches Some(c) ==> c == final(self).overlay_capacity,
            *final(self) == (GpuContext {
                overlay_count: count,
                overlay_capacity: capacity_for(old(self).overlay_capacity, count as int) as u64,
                ..*old(self)
            }),
    {
        let grow = grown_capacity(self.overlay_capacity, count as usize);
        if let Some(c) = grow {
            self.overlay_capacity = c;
        }
        self.overlay_count = count;
        grow
    }

    pub fn mark_backdrop_dirty(&mut self)
        ensures
            *final(self) == (GpuContext { backdrop_dirty: true, ..*old(self) }),
    {
        self.backdrop_dirty = true;
    }

    /// Drops every glyph: their size in physical pixels has changed.
    pub fn reset_glyph_atlas(&mut self)
        requires
            old(self).wf(),
        ensures
            final(self).wf(),
            final(self).glyph_atlas.was_reset(old(self).glyph_atlas),
            *final(self) == (GpuContext { glyph_atlas: final(self).glyph_atlas, ..*old(self) }),
    {
        self.glyph_atlas.reset();
    }

    /// The scene that the next frame is planned for.
    pub open spec fn scene(self) -> Scene<N> {
        let draws = effective(self.layer_draws@, self.instance_count);
        Scene {
            draws,
            shapes: self.instances@,
            pool: fitted_pool(self.layers.pool(), self.layers.surface(), draws, self.surface),
            moved: self.layer_composite_changed@,
            dirty: self.backdrop_dirty,
            glassy: self.glass_count > 0,
        }
    }

    /// A backdrop is likely to be built in the next frame: queries are set
    /// aside for it.
    pub open spec fn backdrop_timed(self) -> bool {
        self.glass_count > 0 && (self.backdrop_dirty || any_moved(self.layer_composite_changed@))
    }

    /// Draw calls after the layers are up to date.
    pub open spec fn closing_calls(self, layers: nat) -> int {
        layers + (if self.overlay_count > 0 {
            1int
        } else {
            0
        }) + (if self.overdraw_mode {
            1 + (if self.instance_count > 0 {
                1int
            } else {
                0
            })
        } else {
            0
        })
    }

    /// Plans the next frame. `mips` is the number of levels of the blurred
    /// backdrop.
    pub fn encode_frame(&mut self, mips: u32) -> (r: FramePlan<N>)
        requires
            old(self).wf(),
        ensures
            final(self).wf(),
            ({
                let sc = old(self).scene();
                let n = sc.draws.len();
                let timed = old(self).timing is Some;
                &&& walk_is(
                    r.prepared.walk,
                    sc,
                    timed && old(self).backdrop_timed(),
                    timed,
                )
                &&& pool_follows(final(self).layers.pool(), sc, r.prepared.walk.order@)
                &&& made_anew(
                    r.prepared.made@,
                    old(self).layers,
                    sc.draws,
                    old(self).surface,
                )
                &&& r.prepared.uniforms@.len() == n
                &&& r.prepared.frames@.len() == n
                &&& r.prepared.sources@.len() == n
                &&& forall|i: int|
                    0 <= i < n ==> #[trigger] r.prepared.sources@[i] == source_of(
                        sc.draws[i],
                        old(self).external.showing(),
                    )
                &&& forall|i: int|
                    0 <= i < n ==> #[trigger] layer_prepared(
                        r.prepared,
                        sc.draws,
                        screen_of(old(self).surface),
                        coarsest(mips),
                        i,
                    )
                &&& final(self).last_layer_count == n
                &&& final(self).last_composite_count == n
                &&& final(self).last_raster_count == r.prepared.walk.rasters
                &&& final(self).last_backdrop_builds == r.prepared.walk.builds
                &&& final(self).last_drawcalls == r.prepared.walk.drawcalls
                    + old(self).closing_calls(n)
            }),
            queries_for(
                r.queries,
                old(self).timing is Some,
                old(self).backdrop_timed(),
                old(self).overdraw_mode,
            ),
            r.overlay == old(self).overlay_count,
            r.overdraw == (if old(self).overdraw_mode {
                Some(old(self).instance_count)
            } else {
                None
            }),
            r.resolve == resolve_for(old(self).timing, r.queries.alloc.given()),
            timing_resolved(old(self).timing, final(self).timing, r.queries.alloc, r.resolve),
            frame_done(*old(self), *final(self), r.prepared.walk.order@),
            final(self).last_raster_count <= final(self).last_layer_count,
            final(self).last_backdrop_builds <= final(self).last_layer_count,
            final(self).backdrop_dirty == (old(self).backdrop_dirty && old(self).glass_count == 0),
            final(self).layers.surface() == old(self).layers.surface(),
            *final(self) == (GpuContext {
                layers: final(self).layers,
                timing: final(self).timing,
                backdrop_dirty: final(self).backdrop_dirty,
                last_drawcalls: final(self).last_drawcalls,
                last_layer_count: final(self).last_layer_count,
                last_raster_count: final(self).last_raster_count,
                last_composite_count: final(self).last_composite_count,
                last_backdrop_builds: final(self).last_backdrop_builds,
                ..*old(self)
            }),
    {
        let timed: bool = self.timing.is_some();
        let glassy: bool = self.glass_count > 0;
        let backdrop: bool = glassy && (self.backdrop_dirty || some_moved(
            &self.layer_composite_changed,
        ));
        let queries = pass_queries(timed, backdrop, self.overdraw_mode);
        let lod: u32 = if mips == 0 {
            0
        } else {
            mips - 1
        };
        let max_lod: N = N::of_u64(lod as u64);
        let prepared = if self.layer_draws.len() == 0 {
            let mut whole: LayerDraw<N> = LayerDraw::default();
            whole.instances = Range { start: 0, end: self.instance_count };
            let mut draws: Vec<LayerDraw<N>> = Vec::new();
            draws.push(whole);
            assert(draws@ =~= effective(self.layer_draws@, self.instance_count));
            prepare(
                &draws,
                self.instances.shapes(),
                &mut self.layers,
                &self.external,
                &self.layer_composite_changed,
                self.backdrop_dirty,
                glassy,
                timed && backdrop,
                timed,
                self.surface,
                max_lod,
            )
        } else {
            prepare(
                &self.layer_draws,
                self.instances.shapes(),
                &mut self.layers,
                &self.external,
                &self.layer_composite_changed,
                self.backdrop_dirty,
                glassy,
                timed && backdrop,
                timed,
                self.surface,
                max_lod,
            )
        };
        if glassy {
            self.backdrop_dirty = false;
        }
        let n: usize = prepared.walk.order.len();
        proof {
            crate::gpu::frame::counts_are_small(old(self).scene(), prepared.walk.order@, n as nat);
            assert(n * (n + 2) <= 65_534 * 65_536) by (nonlinear_arith)
                requires
                    n <= 65_534,
            ;
        }
        let mut drawcalls: u32 = prepared.walk.drawcalls + n as u32;
        if self.overlay_count > 0 {
            drawcalls = drawcalls + 1;
        }
        let mut overdraw: Option<u32> = None;
        if self.overdraw_mode {
            overdraw = Some(self.instance_count);
            if self.instance_count > 0 {
                drawcalls = drawcalls + 1;
            }
            drawcalls = drawcalls + 1;
        }
        let mut resolve: Option<ResolvePlan> = None;
        if let Some(t) = &mut self.timing {
            resolve = t.encode_resolve(queries.alloc);
        }
        self.last_layer_count = n as u32;
        self.last_composite_count = n as u32;
        self.last_raster_count = prepared.walk.rasters;
        self.last_backdrop_builds = prepared.walk.builds;
        self.last_drawcalls = drawcalls;
        FramePlan { prepared, queries, overlay: self.overlay_count, overdraw, resolve }
    }

    /// Shows a texture of the caller's in place of a node.
    pub fn set_external_texture(&mut self, node: NodeId, texture: u64)
        requires
            old(self).wf(),
        ensures
            final(self).wf(),
            final(self).external.showing() == old(self).external.showing().insert(
                node.index,
                Shown::Caller(texture),
            ),
            final(self).external.streams() == old(self).external.streams(),
            clips_kept(old(self).external, final(self).external),
            *final(self) == (GpuContext { external: final(self).external, ..*old(self) }),
    {
        self.external.set_external_texture(node, texture);
    }

    /// Drops everything that was kept for a node.
    pub fn clear_external_texture(&mut self, node: NodeId)
        requires
            old(self).wf(),
        ensures
            final(self).wf(),
            cleared(old(self).external, final(self).external, node),
            *final(self) == (GpuContext { external: final(self).external, ..*old(self) }),
    {
        self.external.clear_external_texture(node);
    }

    /// Adds a frame to the clip of a node and shows it. The result is its
    /// number.
    pub fn push_external_frame(&mut self, node: NodeId, width: u32, height: u32) -> (r: usize)
        requires
            old(self).wf(),
            width * height * 4 <= u32::MAX,
            old(self).external.resident_bytes() + width * height * 4 <= u64::MAX,
            old(self).external.clip(node) matches Some(s) ==> s.frames < usize::MAX,
        ensures
            final(self).wf(),
            r == (match old(self).external.clip(node) {
                Some(s) => s.frames,
                None => 0,
            }),
            pushed(old(self).external, final(self).external, node, width, height),
            *final(self) == (GpuContext { external: final(self).external, ..*old(self) }),
    {
        self.external.push_external_frame(node, width, height)
    }

    /// Shows a frame of the clip of a node.
    pub fn select_external_frame(&mut self, node: NodeId, index: usize)
        requires
            old(self).wf(),
        ensures
            final(self).wf(),
            selected(old(self).external, final(self).external, node, index),
            *final(self) == (GpuContext { external: final(self).external, ..*old(self) }),
    {
        self.external.select_external_frame(node, index);
    }

    /// Gives the clip of one node to another.
    pub fn migrate_external_frames(&mut self, from: NodeId, to: NodeId)
        requires
            old(self).wf(),
        ensures
            final(self).wf(),
            migrated(old(self).external, final(self).external, from, to),
            *final(self) == (GpuContext { external: final(self).external, ..*old(self) }),
    {
        self.external.migrate_external_frames(from, to);
    }

    /// A frame is uploaded over the last one of a node. The result says
    /// whether a texture has to be made for it.
    pub fn upload_external_frame(&mut self, node: NodeId, width: u32, height: u32) -> (r: bool)
        requires
            old(self).wf(),
        ensures
            final(self).wf(),
            ({
                let kept = old(self).external.streams();
                r == !(kept.contains_key(node.index) && kept[node.index] == (width, height))
            }),
            streamed_over(old(self).external, final(self).external, node, width, height),
            *final(self) == (GpuContext { external: final(self).external, ..*old(self) }),
    {
        self.external.upload_external_frame(node, width, height)
    }

    /// The shapes of runs of text. Glyphs that the atlas does not hold are
    /// added to it.
    pub fn build_glyph_instances(&mut self, runs: &Vec<TextRun<N>>) -> (r: Vec<ShapeInstance<N>>)
        requires
            old(self).wf(),
        ensures
            final(self).wf(),
            runs_built(old(self).glyph_atlas, final(self).glyph_atlas, runs@, r@),
            *final(self) == (GpuContext { glyph_atlas: final(self).glyph_atlas, ..*old(self) }),
    {
        build_runs(&mut self.glyph_atlas, runs)
    }

    /// The shapes of pictures. Those whose handle is not known have none.
    pub fn build_image_instances(&self, refs: &[ImageRef<N>]) -> (r: Vec<ShapeInstance<N>>)
        ensures
            r@ == image_shapes(refs@, self.image_atlas.images()),
    {
        build_image_instances(&self.image_atlas, refs)
    }

    /// Decodes a PNG file and puts it on the image atlas.
    pub fn upload_image_png(&mut self, bytes: &[u8]) -> (r: Option<ImageHandle>)
        requires
            old(self).wf(),
        ensures
            final(self).wf(),
            match png_frame(bytes@, isize::MAX as int) {
                None => r is None && final(self).image_atlas == old(self).image_atlas,
                Some(f) => match rgba_bytes(f) {
                    None => r is None && final(self).image_atlas == old(self).image_atlas,
                    Some(px) => final(self).image_atlas.uploaded(
                        old(self).image_atlas,
                        f.width,
                        f.height,
                        px,
                        r,
                    ),
                },
            },
            *final(self) == (GpuContext { image_atlas: final(self).image_atlas, ..*old(self) }),
    {
        self.image_atlas.upload_png(bytes)
    }

    pub fn timing_enabled(&self) -> (r: bool)
        ensures
            r == (self.timing is Some),
    {
        self.timing.is_some()
    }

    /// The readback buffer to be mapped after the frame was submitted.
    pub fn kick_timing(&mut self) -> (r: Option<MapRequest>)
        requires
            old(self).wf(),
        ensures
            final(self).wf(),
            r == (match old(self).timing {
                None => None,
                Some(t) => match t.copied() {
                    None => None,
                    Some(slot) => if t.ring()[slot as int].bytes == 0 {
                        None
                    } else {
                        Some(MapRequest { slot, bytes: t.ring()[slot as int].bytes })
                    },
                },
            }),
            match (old(self).timing, final(self).timing) {
                (Some(b), Some(a)) => {
                    &&& a.ring() == b.ring()
                    &&& a.period() == b.period()
                    &&& a.reported() == b.reported()
                    &&& a.copied() is None
                },
                (None, None) => true,
                _ => false,
            },
            *final(self) == (GpuContext { timing: final(self).timing, ..*old(self) }),
    {
        match &mut self.timing {
            Some(t) => t.kick_map_async(),
            None => None,
        }
    }

    /// Takes over the timing that was read back last.
    pub fn note_timing(&mut self)
        ensures
            *final(self) == (GpuContext {
                last_timing: match old(self).timing {
                    Some(t) => t.reported(),
                    None => None,
                },
                ..*old(self)
            }),
    {
        self.last_timing = match &self.timing {
            Some(t) => t.last(),
            None => None,
        };
    }

    /// What is reported of the last frame.
    pub fn last_frame_stats(&self) -> (r: FrameStats<N>)
        requires
            self.wf(),
            texture_bytes(self.layers.pool()) <= u64::MAX,
        ensures
            ({
                let z = zero::<N>();
                let t = match self.last_timing {
                    Some(t) => t,
                    None => FrameTiming {
                        total_ms: z,
                        opaque_ms: z,
                        final_ms: z,
                        overdraw_ms: z,
                    },
                };
                r == (FrameStats {
                    cpu_ms: z,
                    gpu_ms: t.total_ms,
                    opaque_ms: t.opaque_ms,
                    final_ms: t.final_ms,
                    overdraw_ms: t.overdraw_ms,
                    instance_count: self.instance_count,
                    opaque_count: (self.instance_count - self.glass_count) as u32,
                    glass_count: self.glass_count,
                    drawcalls: self.last_drawcalls,
                    dirty_mask: 0u32,
                    layer_count: self.last_layer_count,
                    raster_count: self.last_raster_count,
                    composite_count: self.last_composite_count,
                    backdrop_builds: self.last_backdrop_builds,
                    layer_vram: texture_bytes(self.layers.pool()) as u64,
                })
            }),
    {
        let z: N = N::of_ratio(0, 1);
        let t: FrameTiming<N> = match self.last_timing {
            Some(t) => t,
            None => FrameTiming { total_ms: z, opaque_ms: z, final_ms: z, overdraw_ms: z },
        };
        FrameStats {
            cpu_ms: z,
            gpu_ms: t.total_ms,
            opaque_ms: t.opaque_ms,
            final_ms: t.final_ms,
            overdraw_ms: t.overdraw_ms,
            instance_count: self.instance_count,
            opaque_count: self.instance_count - self.glass_count,
            glass_count: self.glass_count,
            drawcalls: self.last_drawcalls,
            dirty_mask: 0,
            layer_count: self.last_layer_count,
            raster_count: self.last_raster_count,
            composite_count: self.last_composite_count,
            backdrop_builds: self.last_backdrop_builds,
            layer_vram: self.layers.memory_bytes(),
        }
    }

    /// The memory in use. `blur` and `overdraw` are the sizes of the textures
    /// for the blurred backdrop and for counting overdraw; `shadow` is the
    /// number of shapes that the copy on this side has room for.
    pub fn memory_report(
        &self,
        blur: (u32, u32),
        overdraw: (u32, u32),
        shadow: usize,
    ) -> (r: MemoryReport)
        requires
            self.wf(),
            texture_bytes(self.layers.pool()) <= u64::MAX,
            blur.0 * blur.1 * 16 <= u64::MAX,
            overdraw.0 * overdraw.1 * 8 <= u64::MAX,
            shadow * STRIDE <= u64::MAX,
        ensures
            r == (MemoryReport {
                instance_buffer: (self.instances.room() * STRIDE) as u64,
                overlay_buffer: (self.overlay_capacity * STRIDE) as u64,
                prev_instances_cpu: (shadow * STRIDE) as u64,
                blur_textures: (blur.0 * blur.1 * 16 / 3) as u64,
                overdraw_textures: (overdraw.0 * overdraw.1 * 8) as u64,
                layer_textures: texture_bytes(self.layers.pool()) as u64,
                timing: if self.timing is Some {
                    TIMING_BYTES
                } else {
                    0
                },
                params_buffers: 0,
                glyph_atlas: (self.glyph_atlas.side() * self.glyph_atlas.side()) as u64,
                image_atlas: (self.image_atlas.side() * self.image_atlas.side() * 4) as u64,
                image_sources_cpu: crate::gpu::image_atlas::bytes_in(
                    self.image_atlas.kept(),
                ) as u64,
                external_frames: self.external.resident_bytes() as u64,
            }),
    {
        let bw: u64 = blur.0 as u64;
        let bh: u64 = blur.1 as u64;
        let ow: u64 = overdraw.0 as u64;
        let oh: u64 = overdraw.1 as u64;
        assert(0 <= bw * bh) by (nonlinear_arith)
            requires
                0 <= bw,
                0 <= bh,
        ;
        assert(0 <= ow * oh) by (nonlinear_arith)
            requires
                0 <= ow,
                0 <= oh,
        ;
        let timing: u64 = if self.timing.is_some() {
            TIMING_BYTES
        } else {
            0
        };
        proof {
            self.instances.room_is_bounded();
        }
        MemoryReport {
            instance_buffer: self.instances.capacity() * STRIDE,
            overlay_buffer: self.overlay_capacity * STRIDE,
            prev_instances_cpu: shadow as u64 * STRIDE,
            blur_textures: bw * bh * 16 / 3,
            overdraw_textures: ow * oh * 8,
            layer_textures: self.layers.memory_bytes(),
            timing,
            params_buffers: 0,
            glyph_atlas: self.glyph_atlas.memory_bytes(),
            image_atlas: self.image_atlas.memory_bytes(),
            image_sources_cpu: self.image_atlas.source_bytes(),
            external_frames: self.external.frame_bytes(),
        }
    }
}

/// Bytes in use, by what they are for. Buffers and textures count with what
/// they have room for.
#[derive(Copy, Clone, Debug)]
pub struct MemoryReport {
    pub instance_buffer: u64,
    pub overlay_buffer: u64,
    pub prev_instances_cpu: u64,
    pub blur_textures: u64,
    pub overdraw_textures: u64,
    pub layer_textures: u64,
    pub timing: u64,
    pub params_buffers: u64,
    pub glyph_atlas: u64,
    pub image_atlas: u64,
    pub image_sources_cpu: u64,
    pub external_frames: u64,
}

impl Default for MemoryReport {
    fn default() -> (r: Self)
        ensures
            r.sum() == 0,
    {
        MemoryReport {
            instance_buffer: 0,
            overlay_buffer: 0,
            prev_instances_cpu: 0,
            blur_textures: 0,
            overdraw_textures: 0,
            layer_textures: 0,
            timing: 0,
            params_buffers: 0,
            glyph_atlas: 0,
            image_atlas: 0,
            image_sources_cpu: 0,
            external_frames: 0,
        }
    }
}

impl MemoryReport {
    pub open spec fn sum(self) -> int {
        self.instance_buffer + self.overlay_buffer + self.prev_instances_cpu + self.blur_textures
            + self.overdraw_textures + self.layer_textures + self.timing + self.params_buffers
            + self.glyph_atlas + self.image_atlas + self.image_sources_cpu + self.external_frames
    }

    pub fn total(&self) -> (r: u64)
        requires
            self.sum() <= u64::MAX,
        ensures
            r == self.sum(),
    {
        self.instance_buffer + self.overlay_buffer + self.prev_instances_cpu + self.blur_textures
            + self.overdraw_textures + self.layer_textures + self.timing + self.params_buffers
            + self.glyph_atlas + self.image_atlas + self.image_sources_cpu + self.external_frames
    }
}

/// A frame in which nothing was set anew draws no layer: the textures hold
/// what the last frame drew, and with glass in the scene no backdrop is asked
/// for again.
pub proof fn second_frame_draws_nothing<N: Num>(
    first: Scene<N>,
    second: Scene<N>,
    order: Seq<usize>,
)
    requires
        is_paint_order(first.draws, order),
        second.draws == first.draws,
        second.shapes == first.shapes,
        pool_follows(second.pool, first, order),
        !second.dirty,
        forall|i: usize| i < second.draws.len() ==> !#[trigger] second.has_moved(i),
    ensures
        second.steps(order, order.len(), true, true) == Seq::<Step>::empty(),
        second.rasters(order, order.len()) == 0,
        second.builds(order, order.len()) == 0,
{
    assert forall|i: usize| i < second.draws.len() implies !#[trigger] second.stale(i)
        && !second.has_moved(i) by {
        assert(order.contains(i));
        let p = choose|p: int| 0 <= p < order.len() && order[p] == i;
        assert(second.pool[order[p] as int] == first.slot_after(order, p));
        assert(!second.has_moved(i));
    }
    crate::gpu::frame::still_scene_draws_nothing(second, order, order.len());
}

/// What a frame leaves behind: `after` has the textures that the frame of
/// `before` drew, and otherwise the same shapes, layers and surface.
pub open spec fn frame_done<N: Num>(
    before: GpuContext<N>,
    after: GpuContext<N>,
    order: Seq<usize>,
) -> bool {
    &&& is_paint_order(before.scene().draws, order)
    &&& pool_follows(after.layers.pool(), before.scene(), order)
    &&& after.layers.surface() == before.layers.surface()
    &&& after.surface == before.surface
    &&& after.layer_draws == before.layer_draws
    &&& after.layer_composite_changed == before.layer_composite_changed
    &&& after.instances@ == before.instances@
    &&& after.instance_count == before.instance_count
    &&& after.glass_count == before.glass_count
    &&& after.backdrop_dirty == (before.backdrop_dirty && before.glass_count == 0)
}

/// After a frame no layer is stale, and the textures have the right sizes.
proof fn frame_leaves_textures_that_fit<N: Num>(
    before: GpuContext<N>,
    after: GpuContext<N>,
    order: Seq<usize>,
)
    requires
        before.wf(),
        frame_done(before, after, order),
    ensures
        after.scene().draws == before.scene().draws,
        after.scene().pool == after.layers.pool(),
        forall|i: usize| i < after.scene().draws.len() ==> !#[trigger] after.scene().stale(i),
{
    let first = before.scene();
    let second = after.scene();
    let pool = after.layers.pool();
    assert(second.draws == first.draws);
    assert forall|i: int| 0 <= i < pool.len() implies second.pool[i] == #[trigger] pool[i] by {
        assert(order.contains(i as usize));
        let p = choose|p: int| 0 <= p < order.len() && order[p] == i as usize;
        assert(pool[order[p] as int] == first.slot_after(order, p));
        assert(first.pool[i] == fitted(
            before.layers.pool(),
            sizes_of(first.draws, before.surface),
            before.layers.surface(),
            i,
        ));
        assert(second.pool[i] == fitted(
            pool,
            sizes_of(first.draws, before.surface),
            before.layers.surface(),
            i,
        ));
    }
    assert(second.pool =~= pool);
    assert forall|i: usize| i < second.draws.len() implies !#[trigger] second.stale(i) by {
        assert(order.contains(i));
        let p = choose|p: int| 0 <= p < order.len() && order[p] == i;
        assert(pool[order[p] as int] == first.slot_after(order, p));
    }
}

/// Without glass, a frame before which nothing was set draws no layer and
/// builds no backdrop, in whatever order the layers are painted; it still
/// composites all of them, or the one of all shapes where none were set.
pub proof fn quiet_frame_draws_nothing<N: Num>(
    before: GpuContext<N>,
    after: GpuContext<N>,
    order: Seq<usize>,
    next: Seq<usize>,
)
    requires
        before.wf(),
        frame_done(before, after, order),
        after.glass_count == 0,
        is_paint_order(after.scene().draws, next),
    ensures
        after.scene().rasters(next, next.len()) == 0,
        after.scene().builds(next, next.len()) == 0,
        after.scene().steps(next, next.len(), true, true) == Seq::<Step>::empty(),
        after.scene().draws.len() == (if after.layer_draws@.len() == 0 {
            1
        } else {
            after.layer_draws@.len()
        }),
{
    let sc = after.scene();
    frame_leaves_textures_that_fit(before, after, order);
    crate::gpu::frame::still_shapes_are_not_drawn(sc, next, next.len());
}

/// With glass too, such a frame draws nothing once the layers have been set
/// where they were.
pub proof fn quiet_frame_with_glass_draws_nothing<N: Num>(
    before: GpuContext<N>,
    after: GpuContext<N>,
    order: Seq<usize>,
    next: Seq<usize>,
)
    requires
        before.wf(),
        frame_done(before, after, order),
        after.glass_count > 0,
        forall|i: usize|
            i < after.scene().draws.len() ==> !#[trigger] after.scene().has_moved(i),
        is_paint_order(after.scene().draws, next),
    ensures
        after.scene().rasters(next, next.len()) == 0,
        after.scene().builds(next, next.len()) == 0,
        after.scene().steps(next, next.len(), true, true) == Seq::<Step>::empty(),
{
    frame_leaves_textures_that_fit(before, after, order);
    crate::gpu::frame::still_scene_draws_nothing(after.scene(), next, next.len());
}

/// In exact numbers, a layer that is composited as before has the same offset,
/// scale, opacity and window; where any of these differs, it has moved.
pub proof fn moved_layers_are_noticed<N: Num>(
    value: spec_fn(N) -> real,
    a: LayerDraw<N>,
    b: LayerDraw<N>,
    k: int,
)
    requires
        computes_exactly(value),
        k == 0 || k == 1,
    ensures
        value(a.offset[k]) != value(b.offset[k]) ==> !composited_alike(a, b),
        value(a.scale[k]) != value(b.scale[k]) ==> !composited_alike(a, b),
        value(a.opacity) != value(b.opacity) ==> !composited_alike(a, b),
        a.window is Some != b.window is Some ==> !composited_alike(a, b),
        (a.window matches Some(v) && b.window matches Some(w) && (value(v.dst_origin[k]) != value(
            w.dst_origin[k],
        ) || value(v.dst_size[k]) != value(w.dst_size[k]) || value(v.src_origin[k]) != value(
            w.src_origin[k],
        ) || value(v.tex_size[k]) != value(w.tex_size[k]) || value(v.clip_rect[k]) != value(
            w.clip_rect[k],
        ) || value(v.clip_rect[k + 2]) != value(w.clip_rect[k + 2]))) ==> !composited_alike(a, b),
        composited_alike(a, a),
{
}

/// Without layers of its own a scene is one layer of all its shapes, shown as it
/// is; with layers those are what is drawn.
pub proof fn scenes_have_a_layer<N: Num>(
    value: spec_fn(N) -> real,
    draws: Seq<LayerDraw<N>>,
    count: u32,
)
    requires
        computes_exactly(value),
    ensures
        draws.len() > 0 ==> effective(draws, count) == draws,
        draws.len() == 0 ==> ({
            let all = effective(draws, count);
            &&& all.len() == 1
            &&& all[0].instances.start == 0 && all[0].instances.end == count
            &&& all[0].window is None && all[0].external is None
            &&& value(all[0].offset[0]) == 0real && value(all[0].offset[1]) == 0real
            &&& value(all[0].scale[0]) == 1real && value(all[0].scale[1]) == 1real
            &&& value(all[0].opacity) == 1real
        }),
{
    fractions_are_exact(value);
}

/// The queries that are read back are those of the pairs, eight bytes to each;
/// they go to a buffer that is idle.
pub proof fn queries_are_read_back<N: Num>(timing: Option<Timing<N>>, pairs: nat)
    requires
        16 * pairs <= u32::MAX,
    ensures
        resolve_for(timing, pairs) matches Some(p) ==> p.count == 2 * pairs && p.bytes == 8
            * p.count && timing is Some && first_idle(timing->0.ring()) == Some(p.slot),
        timing is None ==> resolve_for(timing, pairs) is None,
{
}

/// In exact numbers, the coarsest of some levels is as many below the first as
/// there are others.
pub proof fn the_coarsest_level_is_the_last<N: Num>(value: spec_fn(N) -> real, mips: u32)
    requires
        computes_exactly(value),
    ensures
        mips > 0 ==> value(coarsest(mips)) + 1real == mips as real,
        mips == 0 ==> value(coarsest(mips)) == 0real,
{
}

/// In exact numbers, the surface is as many pixels wide and high as it says.
pub proof fn screens_are_as_large_as_the_surface<N: Num>(
    value: spec_fn(N) -> real,
    surface: [u32; 2],
)
    requires
        computes_exactly(value),
    ensures
        value(screen_of::<N>(surface)[0]) == surface[0] as real,
        value(screen_of::<N>(surface)[1]) == surface[1] as real,
{
}

/// A layer with a window is drawn into a texture of the window's own size, and
/// any other into one like the screen.
pub proof fn windows_are_drawn_in_their_own_frame<N: Num>(
    p: Prepared<N>,
    draws: Seq<LayerDraw<N>>,
    screen: [N; 2],
    max_lod: N,
    i: int,
)
    requires
        layer_prepared(p, draws, screen, max_lod, i),
    ensures
        p.frames@[i] is Some <==> draws[i].window is Some,
        p.frames@[i] matches Some(f) ==> f.screen_size == draws[i].window->0.tex_size
            && f.max_backdrop_lod == max_lod,
        p.uniforms@[i].surface_size == screen,
        p.uniforms@[i].opacity == draws[i].opacity,
{
}

/// After the layers are up to date, each is composited in a call of its own; an
/// overlay takes one more, and counting overdraw one, and one for the shapes if
/// there are any.
pub proof fn closing_calls_are_counted<N: Num>(c: GpuContext<N>, layers: nat)
    ensures
        c.closing_calls(layers + 1) == c.closing_calls(layers) + 1,
        c.overlay_count == 0 && !c.overdraw_mode ==> c.closing_calls(layers) == layers,
        c.overlay_count > 0 && !c.overdraw_mode ==> c.closing_calls(layers) == layers + 1,
        c.overlay_count == 0 && c.overdraw_mode && c.instance_count == 0 ==> c.closing_calls(layers)
            == layers + 1,
        c.overlay_count == 0 && c.overdraw_mode && c.instance_count > 0 ==> c.closing_calls(layers)
            == layers + 2,
{
}

/// Queries are set aside for a backdrop only where there is glass, and something
/// below it may have changed.
pub proof fn backdrops_are_timed_where_expected<N: Num>(c: GpuContext<N>, i: int)
    ensures
        c.glass_count == 0 ==> !c.backdrop_timed(),
        c.glass_count > 0 && c.backdrop_dirty ==> c.backdrop_timed(),
        c.glass_count > 0 && 0 <= i < c.layer_composite_changed@.len()
            && c.layer_composite_changed@[i] ==> c.backdrop_timed(),
        c.backdrop_timed() && !c.backdrop_dirty ==> c.layer_composite_changed@.contains(true),
{
    if c.backdrop_timed() && !c.backdrop_dirty {
        let j = choose|j: int|
            0 <= j < c.layer_composite_changed@.len() && #[trigger] c.layer_composite_changed@[j];
        assert(c.layer_composite_changed@[j] == true);
    }
}

/// A frame that was planned draws every layer whose shapes have changed, and
/// counts the draw calls of its steps.
pub proof fn planned_frames_draw_what_changed<N: Num>(
    walk: Walk,
    sc: Scene<N>,
    opaque_timed: bool,
    final_timed: bool,
    layer: usize,
)
    requires
        walk_is(walk, sc, opaque_timed, final_timed),
        crate::gpu::frame::plannable(sc.draws, sc.shapes, sc.pool.len()),
        layer < sc.draws.len(),
        sc.draws[layer as int].external is None,
        sc.draws[layer as int].instances.start < sc.draws[layer as int].instances.end,
        sc.pool[layer as int].sig != Some(crate::gpu::frame::signature(sc.shapes_of(layer))),
    ensures
        exists|i: int|
            0 <= i < walk.steps@.len() && (match #[trigger] walk.steps@[i] {
                crate::gpu::frame::Step::Raster { layer: l, .. } => l == layer,
                _ => false,
            }),
        walk.drawcalls == crate::gpu::frame::calls_upto(
            sc,
            walk.order@,
            walk.steps@,
            walk.steps@.len(),
        ),
{
    let n = sc.draws.len();
    assert(walk.order@.contains(layer));
    let k = choose|k: int| 0 <= k < walk.order@.len() && walk.order@[k] == layer;
    crate::gpu::frame::changed_layers_are_drawn(sc, walk.order@, n, opaque_timed, final_timed, k);
    crate::gpu::frame::draw_calls_are_those_of_the_steps(
        sc,
        walk.order@,
        n,
        opaque_timed,
        final_timed,
    );
}

} // verus!
