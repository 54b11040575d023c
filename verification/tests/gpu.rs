use frostify_gfx::frame_sink::{apply_frame_cmd, FrameAction, FrameCmd, FrameSink};
use frostify_gfx::gpu::capture::{padded_bytes_per_row, unpad_rows};
use frostify_gfx::gpu::context::{GpuContext, MemoryReport};
use frostify_gfx::gpu::external::{ExternalTextures, Shown};
use frostify_gfx::gpu::frame::{layer_signature, paint_order, pass_queries, Source, Step};
use frostify_gfx::gpu::glyph_atlas::{AtlasEntry, GlyphBitmap, GlyphKey};
use frostify_gfx::gpu::image_atlas::ImageAtlas;
use frostify_gfx::gpu::instance::{
    first_glass_index, no_clip, ShapeInstance, SHAPE_KIND_GLASS, SHAPE_KIND_GLYPH,
    SHAPE_KIND_IMAGE, SHAPE_KIND_RECT,
};
use frostify_gfx::gpu::layer::{
    composite_uniform, CompositeUniform, LayerDraw, LayerResources, ScrollWindow,
};
use frostify_gfx::gpu::shapes::{
    build_image_instances, glyph_shape, ImageRef, ShapedGlyph, TextRef, TextRun,
};
use frostify_gfx::gpu::timing::{
    parse_frame_timing, Mapped, PassAlloc, Timing, PASS_FINAL, PASS_OD_COUNT, PASS_OPAQUE,
};
use frostify_gfx::gpu::upload::{grown_capacity, EncodedShape, InstanceBuffer, ShapeRun};
use frostify_gfx::gpu::ImageHandle;
use frostify_gfx::node::NodeId;
use frostify_gfx::num::Num;

/// Numbers as the shell uses them.
#[derive(Clone, Copy, Debug, PartialEq, PartialOrd)]
struct F(f32);

impl Num for F {
    fn of_ratio(num: i32, den: i32) -> F {
        F(num as f32 / den as f32)
    }
    fn of_u64(n: u64) -> F {
        F(n as f32)
    }
    fn of_nanos(ns: u64) -> F {
        F(std::time::Duration::from_nanos(ns).as_secs_f32())
    }
    fn lowest_value() -> F {
        F(f32::NEG_INFINITY)
    }
    fn greatest_value() -> F {
        F(f32::MAX)
    }
    fn far_value() -> F {
        F(1.0e30)
    }
    fn plus(self, other: F) -> F {
        F(self.0 + other.0)
    }
    fn minus(self, other: F) -> F {
        F(self.0 - other.0)
    }
    fn times(self, other: F) -> F {
        F(self.0 * other.0)
    }
    fn over(self, other: F) -> F {
        F(self.0 / other.0)
    }
    fn negated(self) -> F {
        F(-self.0)
    }
    fn abs(self) -> F {
        F(self.0.abs())
    }
    fn max(self, other: F) -> F {
        F(self.0.max(other.0))
    }
    fn min(self, other: F) -> F {
        F(self.0.min(other.0))
    }
    fn floor(self) -> F {
        F(self.0.floor())
    }
    fn ceil(self) -> F {
        F(self.0.ceil())
    }
    fn round(self) -> F {
        F(self.0.round())
    }
    fn to_u32(self) -> u32 {
        self.0 as u32
    }
    fn lt(self, other: F) -> bool {
        self.0 < other.0
    }
    fn le(self, other: F) -> bool {
        self.0 <= other.0
    }
    fn eq(self, other: F) -> bool {
        self.0 == other.0
    }
}

fn inst(kind: u32) -> ShapeInstance<F> {
    let mut s = ShapeInstance::<F>::default();
    s.shape_kind = kind;
    s
}

#[test]
fn first_glass_picks_earliest_glass_in_painter_order() {
    let list = [
        inst(SHAPE_KIND_RECT),
        inst(SHAPE_KIND_IMAGE),
        inst(SHAPE_KIND_GLASS),
        inst(SHAPE_KIND_RECT),
    ];
    assert_eq!(first_glass_index(&list), 2);
}

#[test]
fn first_glass_honours_kind_mask() {
    let glassy = inst(SHAPE_KIND_GLASS | (0b1111 << 8));
    let list = [inst(SHAPE_KIND_RECT), glassy];
    assert_eq!(first_glass_index(&list), 1);
}

#[test]
fn no_glass_yields_full_length() {
    let list = [inst(SHAPE_KIND_RECT), inst(SHAPE_KIND_IMAGE)];
    assert_eq!(first_glass_index(&list), 2);
    assert_eq!(first_glass_index::<F>(&[]), 0);
}

#[test]
fn layer_draw_default_is_identity() {
    let d: LayerDraw<F> = LayerDraw::default();
    assert_eq!(d.offset, [F(0.0), F(0.0)]);
    assert_eq!(d.scale, [F(1.0), F(1.0)]);
    assert_eq!(d.opacity, F(1.0));
    assert_eq!(d.instances, 0..0);
    assert!(d.window.is_none());
}

#[test]
fn composite_uniform_is_96_bytes() {
    assert_eq!(std::mem::size_of::<CompositeUniform<F>>(), 96);
}

#[test]
fn texture_size_picks_window_or_surface() {
    let surface = [800u32, 600];
    let identity: LayerDraw<F> = LayerDraw::default();
    assert_eq!(identity.texture_size(surface), surface);
    let scroll = LayerDraw {
        window: Some(ScrollWindow {
            dst_origin: [F(0.0), F(0.0)],
            dst_size: [F(300.0), F(500.0)],
            src_origin: [F(0.0), F(120.0)],
            tex_size: [F(300.0), F(4000.0)],
            clip_rect: no_clip(),
        }),
        ..Default::default()
    };
    assert_eq!(scroll.texture_size(surface), [300, 4000]);
}

#[test]
fn a_texture_is_at_least_one_texel() {
    let d = LayerDraw {
        window: Some(ScrollWindow {
            dst_origin: [F(0.0), F(0.0)],
            dst_size: [F(0.0), F(0.0)],
            src_origin: [F(0.0), F(0.0)],
            tex_size: [F(0.0), F(2.5)],
            clip_rect: no_clip(),
        }),
        ..Default::default()
    };
    assert_eq!(d.texture_size([8, 8]), [1, 3]);
}

#[test]
fn a_plain_layer_covers_the_scaled_surface() {
    let d = LayerDraw {
        offset: [F(5.0), F(6.0)],
        scale: [F(2.0), F(0.5)],
        opacity: F(0.25),
        ..Default::default()
    };
    let u = composite_uniform(&d, [F(100.0), F(50.0)]);
    assert_eq!(u.dst_origin, [F(5.0), F(6.0)]);
    assert_eq!(u.dst_size, [F(200.0), F(25.0)]);
    assert_eq!(u.src_extent, [F(100.0), F(50.0)]);
    assert_eq!(u.clip_rect, [F(-1.0e30), F(-1.0e30), F(1.0e30), F(1.0e30)]);
    assert_eq!(u.corner_radius, F(0.0));
    let round = LayerDraw {
        corner_radius: F(4.0),
        round_rect: Some([F(0.0), F(0.0), F(10.0), F(10.0)]),
        ..Default::default()
    };
    let u = composite_uniform(&round, [F(100.0), F(50.0)]);
    assert_eq!(u.corner_radius, F(4.0));
    assert_eq!(u.clip_rect, [F(0.0), F(0.0), F(10.0), F(10.0)]);
}

#[test]
fn the_pool_keeps_textures_of_the_right_size() {
    let mut pool = LayerResources::new(100, 50);
    assert_eq!(pool.slot_size(0), [100, 50]);
    pool.mark_rastered(0, 7);
    assert!(!pool.needs_raster(0, 7, false));
    assert!(pool.needs_raster(0, 7, true));
    assert!(pool.needs_raster(0, 8, false));
    assert_eq!(pool.ensure(&[[100, 50], [0, 20]]), vec![1]);
    assert!(!pool.needs_raster(0, 7, false));
    assert_eq!(pool.slot_size(1), [1, 20]);
    assert_eq!(pool.memory_bytes(), (100 * 50 + 20) * 4);
    assert_eq!(pool.ensure(&[[100, 51]]), vec![0]);
    assert!(pool.needs_raster(0, 7, false));
    pool.resize(0, 9);
    assert_eq!(pool.len(), 0);
    assert_eq!(pool.ensure(&[]), vec![0]);
    assert_eq!(pool.slot_size(0), [1, 9]);
}

fn shape(kind: u32, fill: u8) -> EncodedShape {
    EncodedShape { kind, bytes: [fill; 160] }
}

#[test]
fn only_shapes_that_differ_are_written() {
    let mut buf = InstanceBuffer::new();
    let first: Vec<EncodedShape> = (0..6).map(|i| shape(0, i)).collect();
    let plan = buf.set_instances(&first);
    assert_eq!(plan.grow, None);
    assert_eq!(plan.writes, vec![ShapeRun { start: 0, end: 6 }]);
    let mut second = first.clone();
    second[1] = shape(0, 50);
    second[2] = shape(0, 51);
    second[5] = shape(0, 52);
    let plan = buf.set_instances(&second);
    assert_eq!(
        plan.writes,
        vec![ShapeRun { start: 1, end: 3 }, ShapeRun { start: 5, end: 6 }]
    );
    assert!(buf.set_instances(&second).writes.is_empty());
    // Another number of shapes: all are written.
    let plan = buf.set_instances(&second[..5]);
    assert_eq!(plan.writes, vec![ShapeRun { start: 0, end: 5 }]);
    assert!(buf.set_instances(&[]).writes.is_empty());
}

#[test]
fn buffers_grow_by_doubling() {
    assert_eq!(grown_capacity(16, 16), None);
    assert_eq!(grown_capacity(16, 17), Some(32));
    assert_eq!(grown_capacity(16, 100), Some(128));
    assert_eq!(grown_capacity(0, 1), Some(1));
    let mut buf = InstanceBuffer::new();
    let plan = buf.set_instances(&vec![shape(0, 1); 40]);
    assert_eq!(plan.grow, Some(64));
    assert_eq!(buf.capacity(), 64);
}

#[test]
fn signatures_tell_contents_apart() {
    let shapes = vec![shape(0, 1), shape(SHAPE_KIND_GLASS, 2), shape(0, 1)];
    let (a, glass) = layer_signature(&shapes, &(0..1));
    assert!(!glass);
    let (b, _) = layer_signature(&shapes, &(2..3));
    assert_eq!(a, b);
    let (c, glass) = layer_signature(&shapes, &(1..2));
    assert_ne!(a, c);
    assert!(glass);
    // No shapes: the start value of the hash.
    assert_eq!(layer_signature(&shapes, &(0..0)), (0xcbf2_9ce4_8422_2325, false));
    assert_eq!(layer_signature(&shapes, &(7..9)), (0xcbf2_9ce4_8422_2325, false));
    // One byte of zero, 160 times.
    let mut h: u64 = 0xcbf2_9ce4_8422_2325;
    for _ in 0..160 {
        h = h.wrapping_mul(0x100_0000_01b3);
    }
    assert_eq!(layer_signature(&vec![shape(0, 0)], &(0..1)).0, h);
}

fn draw(range: std::ops::Range<u32>, z: i32) -> LayerDraw<F> {
    LayerDraw { instances: range, z, ..Default::default() }
}

#[test]
fn layers_are_painted_from_back_to_front() {
    let draws = vec![draw(0..1, 2), draw(1..2, 0), draw(2..3, 2), draw(3..4, 1)];
    assert_eq!(paint_order(&draws), vec![1, 3, 0, 2]);
}

#[test]
fn queries_go_to_the_passes_that_run() {
    let q = pass_queries(true, true, true);
    assert_eq!(q.opaque, Some((0, 1)));
    assert_eq!(q.final_pass, Some((2, 3)));
    assert_eq!(q.od_count, Some((4, 5)));
    assert_eq!(q.od_compose, Some((6, 7)));
    let q = pass_queries(true, false, false);
    assert_eq!(q.final_pass, Some((0, 1)));
    assert_eq!(q.opaque, None);
    let q = pass_queries(false, true, true);
    assert_eq!(q.final_pass, None);
    assert_eq!(q.alloc.query_count(), 0);
}

fn context() -> GpuContext<F> {
    GpuContext::new(100, 50, Some(F(1.0)), 4096)
}

#[test]
fn the_second_frame_draws_nothing_new() {
    let mut gpu = context();
    gpu.set_instances(&[shape(0, 1), shape(0, 2)], 0, false);
    gpu.set_layers(vec![draw(0..1, 0), draw(1..2, 1)]);
    let plan = gpu.encode_frame(1);
    assert_eq!(
        plan.prepared.walk.steps,
        vec![Step::Raster { layer: 0, timed: true }, Step::Raster { layer: 1, timed: false }]
    );
    assert_eq!(plan.prepared.walk.drawcalls, 2);
    assert_eq!(gpu.last_drawcalls, 4);
    gpu.set_layers(vec![draw(0..1, 0), draw(1..2, 1)]);
    let plan = gpu.encode_frame(1);
    assert!(plan.prepared.walk.steps.is_empty());
    assert_eq!(gpu.last_raster_count, 0);
    // A shape that changed makes its layer be drawn.
    gpu.set_instances(&[shape(0, 1), shape(0, 3)], 0, false);
    let plan = gpu.encode_frame(1);
    assert_eq!(plan.prepared.walk.steps, vec![Step::Raster { layer: 1, timed: false }]);
}

#[test]
fn no_backdrop_is_built_without_glass() {
    let mut gpu = context();
    gpu.set_instances(&[shape(0, 1), shape(SHAPE_KIND_GLASS, 3)], 0, true);
    let plan = gpu.encode_frame(3);
    assert_eq!(plan.prepared.walk.steps, vec![Step::Raster { layer: 0, timed: true }]);
    assert!(gpu.encode_frame(3).prepared.walk.steps.is_empty());
    assert_eq!(gpu.last_backdrop_builds, 0);
}

#[test]
fn what_comes_from_outside_is_not_drawn() {
    let mut gpu = context();
    gpu.set_instances(&[shape(0, 1), shape(0, 2), shape(SHAPE_KIND_GLASS, 3)], 1, true);
    let mut video = draw(0..1, 0);
    video.external = Some(NodeId { index: 5 });
    gpu.set_layers(vec![video, draw(1..3, 1)]);
    let plan = gpu.encode_frame(3);
    assert_eq!(
        plan.prepared.walk.steps,
        vec![
            Step::Backdrop { position: 1, raw_start: 1, raw_end: 2, timed: true },
            Step::Raster { layer: 1, timed: false },
        ]
    );
    // The shapes below the glass, and the layer itself: nothing of the video.
    assert_eq!(plan.prepared.walk.drawcalls, 2);
    assert_eq!((gpu.last_raster_count, gpu.last_composite_count), (1, 2));
}

#[test]
fn a_frame_before_which_nothing_was_set_draws_nothing() {
    let mut gpu = context();
    gpu.set_instances(&[shape(0, 1), shape(0, 2)], 0, true);
    gpu.encode_frame(1);
    assert_eq!((gpu.last_raster_count, gpu.last_layer_count), (1, 1));
    gpu.encode_frame(1);
    assert_eq!(gpu.last_raster_count, 0);
    assert_eq!((gpu.last_layer_count, gpu.last_composite_count), (1, 1));
    gpu.set_layers(vec![draw(0..1, 0), draw(1..2, 1)]);
    gpu.encode_frame(1);
    assert_eq!((gpu.last_raster_count, gpu.last_layer_count), (2, 2));
    // The layers are new, and so are composited otherwise: without glass that
    // draws nothing.
    gpu.encode_frame(1);
    assert_eq!(gpu.last_raster_count, 0);
    assert_eq!((gpu.last_layer_count, gpu.last_composite_count), (2, 2));
    gpu.resize(120, 50);
    gpu.encode_frame(1);
    assert_eq!(gpu.last_raster_count, 2);
}

#[test]
fn glass_is_frosted_anew_when_something_below_moves() {
    let mut gpu = context();
    let shapes = [shape(0, 1), shape(0, 2), shape(SHAPE_KIND_GLASS, 3)];
    gpu.set_instances(&shapes, 1, false);
    assert_eq!(gpu.glass_count(), 1);
    gpu.set_layers(vec![draw(0..1, 0), draw(1..3, 1)]);
    let plan = gpu.encode_frame(3);
    assert_eq!(
        plan.prepared.walk.steps,
        vec![
            Step::Raster { layer: 0, timed: true },
            Step::Backdrop { position: 1, raw_start: 1, raw_end: 2, timed: true },
            Step::Raster { layer: 1, timed: false },
        ]
    );
    assert!(!gpu.backdrop_dirty);
    gpu.set_layers(vec![draw(0..1, 0), draw(1..3, 1)]);
    assert!(gpu.encode_frame(3).prepared.walk.steps.is_empty());
    let mut below = draw(0..1, 0);
    below.offset = [F(3.0), F(0.0)];
    gpu.set_layers(vec![below, draw(1..3, 1)]);
    let plan = gpu.encode_frame(3);
    assert_eq!(
        plan.prepared.walk.steps,
        vec![
            Step::Backdrop { position: 1, raw_start: 1, raw_end: 2, timed: true },
            Step::Raster { layer: 1, timed: false },
        ]
    );
    assert_eq!(gpu.last_backdrop_builds, 1);
}

#[test]
fn a_frame_without_layers_is_one_layer_of_all_shapes() {
    let mut gpu = context();
    gpu.set_instances(&[shape(0, 1)], 9, true);
    assert_eq!(gpu.glass_count(), 1);
    let plan = gpu.encode_frame(0);
    assert_eq!(plan.prepared.uniforms.len(), 1);
    assert_eq!(plan.prepared.uniforms[0].surface_size, [F(100.0), F(50.0)]);
    assert_eq!(gpu.last_layer_count, 1);
}

#[test]
fn overdraw_and_overlay_add_passes() {
    let mut gpu = context();
    gpu.set_overdraw(true);
    assert!(gpu.overdraw_mode());
    assert_eq!(gpu.set_overlay_instances(40), Some(64));
    gpu.set_instances(&[shape(0, 1)], 0, false);
    let plan = gpu.encode_frame(0);
    assert_eq!(plan.overlay, 40);
    assert_eq!(plan.overdraw, Some(1));
    // One layer drawn and composited, the overlay, and two overdraw passes.
    assert_eq!(gpu.last_drawcalls, 5);
}

#[test]
fn external_layers_show_what_was_registered() {
    let mut gpu = context();
    let node = NodeId { index: 3 };
    let mut d = draw(0..0, 0);
    d.external = Some(node);
    gpu.set_layers(vec![d]);
    assert_eq!(gpu.encode_frame(0).prepared.sources, vec![Source::Slot]);
    gpu.external.set_external_texture(node, 77);
    assert_eq!(
        gpu.encode_frame(0).prepared.sources,
        vec![Source::External(Shown::Caller(77))]
    );
}

#[test]
fn resizing_drops_what_was_drawn() {
    let mut gpu = context();
    gpu.set_instances(&[shape(0, 1)], 0, false);
    gpu.encode_frame(0);
    gpu.resize(0, 20);
    assert_eq!(gpu.surface, [1, 20]);
    let plan = gpu.encode_frame(0);
    assert_eq!(plan.prepared.made, vec![0]);
    assert_eq!(plan.prepared.walk.rasters, 1);
    gpu.set_window_corner_radius(F(-3.0), F(2.0));
    assert_eq!(gpu.window_corner_radius, F(0.0));
    gpu.set_window_corner_radius(F(3.0), F(2.0));
    let u = gpu.frame_uniform(5);
    assert_eq!(u.window_corner_radius, F(6.0));
    assert_eq!(u.max_backdrop_lod, F(4.0));
    assert_eq!(u.screen_size, [F(1.0), F(20.0)]);
}

#[test]
fn reports_add_up() {
    let mut gpu = context();
    gpu.set_instances(&[shape(SHAPE_KIND_GLASS, 1), shape(0, 2)], 1, false);
    gpu.encode_frame(0);
    let s = gpu.last_frame_stats();
    assert_eq!((s.instance_count, s.glass_count, s.opaque_count), (2, 1, 1));
    assert_eq!(s.layer_vram, 100 * 50 * 4);
    let m = gpu.memory_report((30, 10), (10, 10), 7);
    assert_eq!(m.instance_buffer, 16 * 160);
    assert_eq!(m.prev_instances_cpu, 7 * 160);
    assert_eq!(m.blur_textures, 30 * 10 * 16 / 3);
    assert_eq!(m.overdraw_textures, 800);
    assert_eq!(m.timing, 768);
    assert_eq!(m.glyph_atlas, 1024 * 1024);
    assert_eq!(m.image_atlas, 4096 * 4096 * 4);
    let sum = m.instance_buffer
        + m.overlay_buffer
        + m.prev_instances_cpu
        + m.blur_textures
        + m.overdraw_textures
        + m.layer_textures
        + m.timing
        + m.glyph_atlas
        + m.image_atlas;
    assert_eq!(m.total(), sum);
    assert_eq!(MemoryReport::default().total(), 0);
}

#[test]
fn pairs_are_handed_out_in_order() {
    let mut a = PassAlloc::new();
    assert_eq!(a.alloc_pair(PASS_FINAL), (0, 1));
    assert_eq!(a.alloc_pair(PASS_OD_COUNT), (2, 3));
    assert_eq!(a.query_count(), 4);
    assert_eq!(a.pair(PASS_OPAQUE), None);
    let t = parse_frame_timing(&[1_000_000, 4_000_000, 9, 5], &a, F(0.5));
    assert_eq!(t.final_ms, F(1.5));
    // A clock that ran backwards counts as no time.
    assert_eq!(t.overdraw_ms, F(0.0));
    assert_eq!(t.total_ms, F(1.5));
}

#[test]
fn timing_goes_through_two_buffers() {
    let mut t: Timing<F> = Timing::new(F(1.0));
    let mut a = PassAlloc::new();
    a.alloc_pair(PASS_FINAL);
    assert!(t.encode_resolve(PassAlloc::new()).is_none());
    let p = t.encode_resolve(a).unwrap();
    assert_eq!((p.slot, p.count, p.bytes), (0, 2, 16));
    let m = t.kick_map_async().unwrap();
    assert_eq!((m.slot, m.bytes), (0, 16));
    assert!(t.kick_map_async().is_none());
    assert_eq!(t.encode_resolve(a).unwrap().slot, 1);
    // Both wait to be read: this frame is not copied.
    assert!(t.encode_resolve(a).is_none());
    t.poll(&vec![Mapped { slot: 0, ticks: Some(vec![0, 2_000_000]) }]);
    assert_eq!(t.last().unwrap().final_ms, F(2.0));
    t.poll(&vec![Mapped { slot: 1, ticks: None }]);
    assert_eq!(t.last().unwrap().final_ms, F(2.0));
    assert_eq!(t.encode_resolve(a).unwrap().slot, 0);
}

#[test]
fn a_clip_is_shown_frame_by_frame() {
    let mut t = ExternalTextures::new();
    let n = NodeId { index: 1 };
    assert_eq!(t.push_external_frame(n, 2, 2), 0);
    assert_eq!(t.push_external_frame(n, 2, 2), 1);
    assert_eq!(t.get(n), Some(Shown::Frame(1)));
    assert_eq!(t.frame_bytes(), 32);
    t.select_external_frame(n, 0);
    assert_eq!(t.get(n), Some(Shown::Frame(0)));
    t.select_external_frame(n, 5);
    assert_eq!(t.get(n), Some(Shown::Frame(0)));
    let m = NodeId { index: 9 };
    t.migrate_external_frames(n, m);
    assert_eq!(t.get(n), None);
    assert_eq!(t.get(m), Some(Shown::Frame(1)));
    t.clear_external_texture(m);
    assert_eq!(t.get(m), None);
    assert_eq!(t.frame_bytes(), 0);
}

#[test]
fn a_streamed_texture_is_made_once_for_its_size() {
    let mut t = ExternalTextures::new();
    let n = NodeId { index: 1 };
    assert!(t.upload_external_frame(n, 4, 4));
    assert!(!t.upload_external_frame(n, 4, 4));
    assert!(t.upload_external_frame(n, 4, 5));
    assert_eq!(t.get(n), Some(Shown::Streamed));
}

#[test]
fn frame_commands_come_out_in_order() {
    let mut sink = FrameSink::new();
    let n = NodeId { index: 1 };
    let m = NodeId { index: 2 };
    sink.push_frame(n, 1, 1, vec![0; 4]);
    sink.select(n, 0);
    sink.migrate(n, m);
    sink.submit(n, 1, 1, vec![0; 4]);
    sink.clear(m);
    let cmds = sink.drain();
    assert!(sink.drain().is_empty());
    assert!(matches!(cmds[0], FrameCmd::Push { .. }));
    assert!(matches!(cmds[4], FrameCmd::Clear { .. }));
    let mut t = ExternalTextures::new();
    let done: Vec<FrameAction> = cmds.iter().map(|c| apply_frame_cmd(&mut t, c)).collect();
    assert_eq!(
        done,
        vec![
            FrameAction::MakeFrame { node: n, index: 0 },
            FrameAction::Rebind,
            FrameAction::Rebind,
            FrameAction::WriteStream { node: n, create: true },
            FrameAction::Rebind,
        ]
    );
    assert_eq!(t.get(m), None);
    assert_eq!(t.get(n), Some(Shown::Streamed));
}

#[test]
fn captured_rows_lose_their_filling() {
    assert_eq!(padded_bytes_per_row(1), 256);
    assert_eq!(padded_bytes_per_row(64), 256);
    assert_eq!(padded_bytes_per_row(65), 512);
    let mut view = vec![0u8; 512];
    view[0..8].copy_from_slice(&[1, 2, 3, 4, 5, 6, 7, 8]);
    view[256..264].copy_from_slice(&[9, 10, 11, 12, 13, 14, 15, 16]);
    assert_eq!(
        unpad_rows(&view, 2, 2, false),
        vec![1, 2, 3, 4, 5, 6, 7, 8, 9, 10, 11, 12, 13, 14, 15, 16]
    );
    // Blue first: red and blue change places.
    assert_eq!(unpad_rows(&view, 1, 2, true), vec![3, 2, 1, 4, 11, 10, 9, 12]);
}

fn image_ref(handle: ImageHandle, size: [f32; 2], cover: bool) -> ImageRef<F> {
    ImageRef {
        handle,
        position: [F(1.0), F(2.0)],
        size: [F(size[0]), F(size[1])],
        color: [F(1.0); 4],
        border_radius: [F(0.0); 4],
        clip_rect: no_clip(),
        clip_radius: F(0.0),
        opacity: F(0.5),
        cover,
    }
}

#[test]
fn pictures_become_shapes() {
    let mut atlas: ImageAtlas<F> = ImageAtlas::new(64);
    let h = atlas.upload_rgba(16, 8, &vec![0; 16 * 8 * 4]).unwrap();
    let refs = [
        image_ref(h, [16.0, 8.0], false),
        image_ref(ImageHandle(99), [4.0, 4.0], false),
        image_ref(h, [8.0, 8.0], true),
        image_ref(h, [32.0, 8.0], true),
    ];
    let out = build_image_instances(&atlas, &refs);
    // The handle that is not on the atlas gives no shape.
    assert_eq!(out.len(), 3);
    let part = |i: usize| out[i].backdrop_uv_rect;
    assert_eq!(part(0), [F(1.0 / 64.0), F(1.0 / 64.0), F(0.25), F(0.125)]);
    // As wide as high: half of the width is cut off, evenly.
    assert_eq!(part(1), [F(1.0 / 64.0 + 0.0625), F(1.0 / 64.0), F(0.125), F(0.125)]);
    // Four times as wide as high: half of the height is.
    assert_eq!(part(2), [F(1.0 / 64.0), F(1.0 / 64.0 + 0.03125), F(0.25), F(0.0625)]);
    assert_eq!(out[0].shape_kind, SHAPE_KIND_IMAGE);
    assert_eq!(out[0].opacity, F(0.5));
}

#[test]
fn glyphs_sit_on_whole_pixels() {
    let r = TextRef {
        position: [F(10.3), F(20.6)],
        color: [F(1.0); 4],
        clip_rect: no_clip(),
        opacity: F(1.0),
    };
    let e = AtlasEntry {
        uv: [F(0.25), F(0.5), F(0.5), F(0.75)],
        width: 4,
        height: 8,
        left: 1,
        top: 6,
    };
    let s = glyph_shape(&r, 5, 3, &e, 64).unwrap();
    assert_eq!(s.position, [F(16.0), F(18.0)]);
    assert_eq!(s.size, [F(4.0), F(8.0)]);
    assert_eq!(s.backdrop_uv_rect, [F(0.25), F(0.5), F(0.0625), F(0.125)]);
    assert_eq!(s.shape_kind, SHAPE_KIND_GLYPH);
    let blank = AtlasEntry { width: 0, ..e };
    assert!(glyph_shape(&r, 5, 3, &blank, 64).is_none());
}

#[test]
fn rounded_rect_is_plain_otherwise() {
    let s = ShapeInstance::rounded_rect([F(1.0), F(2.0)], [F(3.0), F(4.0)], F(5.0), [F(0.5); 4]);
    assert_eq!(s.border_radius, [F(5.0); 4]);
    assert_eq!(s.color, [F(0.5); 4]);
    assert_eq!(s.shape_kind, SHAPE_KIND_RECT);
    assert_eq!(s.opacity, F(1.0));
    assert_eq!(s.scale, [F(1.0), F(1.0)]);
}

fn run(x: f32, glyphs: &[(u64, i32)]) -> TextRun<F> {
    TextRun {
        text: TextRef {
            position: [F(x), F(10.0)],
            color: [F(1.0); 4],
            clip_rect: no_clip(),
            opacity: F(1.0),
        },
        glyphs: glyphs
            .iter()
            .map(|&(key, pen)| ShapedGlyph {
                key: GlyphKey(key),
                x: pen,
                y: 8,
                bitmap: match key {
                    0 => None,
                    9 => Some(GlyphBitmap { width: 0, height: 0, left: 0, top: 0 }),
                    _ => Some(GlyphBitmap { width: 4, height: 6, left: 1, top: 6 }),
                },
            })
            .collect(),
    }
}

#[test]
fn runs_of_text_become_shapes_in_order() {
    let mut gpu = context();
    let runs = vec![run(0.0, &[(1, 0), (9, 5), (2, 8)]), run(100.0, &[(0, 0), (1, 3)])];
    let shapes = gpu.build_glyph_instances(&runs);
    // Blank glyphs and those without a bitmap have no shape.
    let at: Vec<[F; 2]> = shapes.iter().map(|s| s.position).collect();
    assert_eq!(at, vec![[F(1.0), F(12.0)], [F(9.0), F(12.0)], [F(104.0), F(12.0)]]);
    assert_eq!(shapes[0].backdrop_uv_rect, shapes[2].backdrop_uv_rect);
    assert_ne!(shapes[0].backdrop_uv_rect, shapes[1].backdrop_uv_rect);
    // Each bitmap is written once.
    assert_eq!(gpu.glyph_atlas.take_writes().len(), 2);
    assert!(gpu.glyph_atlas.get(GlyphKey(9)).is_some());
    assert!(gpu.glyph_atlas.get(GlyphKey(0)).is_none());
    gpu.reset_glyph_atlas();
    assert_eq!(gpu.glyph_atlas.generation(), 1);
}

#[test]
fn the_renderer_keeps_outside_textures() {
    let mut gpu = context();
    let n = NodeId { index: 1 };
    let m = NodeId { index: 2 };
    assert_eq!(gpu.push_external_frame(n, 2, 2), 0);
    assert_eq!(gpu.push_external_frame(n, 2, 2), 1);
    gpu.select_external_frame(n, 0);
    assert_eq!(gpu.external.get(n), Some(Shown::Frame(0)));
    // The clip of the other node is replaced.
    gpu.push_external_frame(m, 4, 4);
    assert_eq!(gpu.external.frame_bytes(), 32 + 64);
    gpu.migrate_external_frames(n, m);
    assert_eq!(gpu.external.frame_bytes(), 32);
    assert_eq!(gpu.external.get(m), Some(Shown::Frame(1)));
    assert!(gpu.upload_external_frame(n, 3, 3));
    gpu.set_external_texture(n, 5);
    assert_eq!(gpu.external.get(n), Some(Shown::Caller(5)));
    gpu.clear_external_texture(n);
    assert_eq!(gpu.external.get(n), None);
    assert!(gpu.upload_external_frame(n, 3, 3));
}

#[test]
fn pictures_go_through_the_renderer() {
    let mut gpu = context();
    let mut bytes = Vec::new();
    {
        let mut e = png::Encoder::new(&mut bytes, 2, 1);
        e.set_color(png::ColorType::Grayscale);
        e.set_depth(png::BitDepth::Eight);
        let mut w = e.write_header().unwrap();
        w.write_image_data(&[3, 4]).unwrap();
        w.finish().unwrap();
    }
    let h = gpu.upload_image_png(&bytes).unwrap();
    assert_eq!(gpu.image_atlas.pixels(h).unwrap(), &vec![3, 3, 3, 255, 4, 4, 4, 255]);
    let shapes = gpu.build_image_instances(&[image_ref(h, [2.0, 1.0], false)]);
    assert_eq!(shapes.len(), 1);
    assert!(gpu.upload_image_png(b"none").is_none());
    assert!(gpu.timing_enabled());
    gpu.mark_backdrop_dirty();
    assert!(gpu.backdrop_dirty);
}
