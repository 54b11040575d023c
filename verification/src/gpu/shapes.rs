//! Glyphs and pictures as shapes.
use vstd::prelude::*;

use crate::gpu::glyph_atlas::{AtlasEntry, GlyphAtlas, GlyphBitmap, GlyphKey};
use crate::gpu::image_atlas::{ImageAtlas, ImageEntry, ImageHandle, Placed};
use crate::gpu::instance::{unclipped, ShapeInstance, SHAPE_KIND_GLYPH, SHAPE_KIND_IMAGE};
use crate::num::{
    computes_exactly, fractions_are_exact, nearest_is, one, stands_for, zero, Num,
};

verus! {

/// A picture of the scene.
#[derive(Copy, Clone, Debug)]
pub struct ImageRef<N> {
    pub handle: ImageHandle,
    pub position: [N; 2],
    pub size: [N; 2],
    pub color: [N; 4],
    pub border_radius: [N; 4],
    pub clip_rect: [N; 4],
    pub clip_radius: N,
    pub opacity: N,
    /// Fill the rectangle and cut off what is over, in place of stretching.
    pub cover: bool,
}

/// The run of text that a glyph belongs to.
#[derive(Copy, Clone, Debug)]
pub struct TextRef<N> {
    pub position: [N; 2],
    pub color: [N; 4],
    pub clip_rect: [N; 4],
    pub opacity: N,
}

/// The whole picture on the atlas: left, top, width, height.
pub open spec fn whole_picture<N: Num>(uv: [N; 4]) -> [N; 4] {
    [uv[0], uv[1], uv[2].difference(uv[0]), uv[3].difference(uv[1])]
}

/// The middle part of `uv` that has the proportions of `size`.
pub open spec fn middle_part<N: Num>(uv: [N; 4], size: [N; 2]) -> [N; 4] {
    let half = N::fraction(1, 2);
    let picture = uv[2].quotient(uv[3]);
    let frame = size[0].quotient(size[1]);
    if picture.below(frame) {
        let h = uv[3].product(picture.quotient(frame));
        [uv[0], uv[1].sum(uv[3].difference(h).product(half)), uv[2], h]
    } else {
        let w = uv[2].product(frame.quotient(picture));
        [uv[0].sum(uv[2].difference(w).product(half)), uv[1], w, uv[3]]
    }
}

/// The part of the atlas that a picture shows.
pub open spec fn shown_part<N: Num>(r: ImageRef<N>, uv: [N; 4]) -> [N; 4] {
    let z = zero::<N>();
    let whole = whole_picture(uv);
    if r.cover && z.below(whole[2]) && z.below(whole[3]) && z.below(r.size[0]) && z.below(
        r.size[1],
    ) {
        middle_part(whole, r.size)
    } else {
        whole
    }
}

fn part_of_picture<N: Num>(r: &ImageRef<N>, uv: [N; 4]) -> (p: [N; 4])
    ensures
        p == shown_part(*r, uv),
{
    let z = N::of_ratio(0, 1);
    let u0 = uv[0];
    let v0 = uv[1];
    let w = uv[2].minus(uv[0]);
    let h = uv[3].minus(uv[1]);
    if r.cover && z.lt(w) && z.lt(h) && z.lt(r.size[0]) && z.lt(r.size[1]) {
        let half = N::of_ratio(1, 2);
        let picture = w.over(h);
        let frame = r.size[0].over(r.size[1]);
        if picture.lt(frame) {
            let nh = h.times(picture.over(frame));
            [u0, v0.plus(h.minus(nh).times(half)), w, nh]
        } else {
            let nw = w.times(frame.over(picture));
            [u0.plus(w.minus(nw).times(half)), v0, nw, h]
        }
    } else {
        [u0, v0, w, h]
    }
}

/// A shape that shows a part of an atlas and has no border or shadow.
pub open spec fn blit<N: Num>() -> ShapeInstance<N> {
    let z = zero::<N>();
    let o = one::<N>();
    ShapeInstance {
        color: [o, o, o, o],
        border_color: [z, z, z, z],
        shadow_color: [z, z, z, z],
        border_radius: [z, z, z, z],
        backdrop_uv_rect: [z, z, z, z],
        clip_rect: unclipped(),
        position: [z, z],
        size: [z, z],
        shadow_offset: [z, z],
        shape_kind: 0,
        roughness: z,
        border_width: z,
        shadow_blur: z,
        shadow_opacity: z,
        opacity: o,
        scale: [o, o],
        clip_radius: z,
    }
}

fn new_blit<N: Num>() -> (r: ShapeInstance<N>)
    ensures
        r == blit::<N>(),
{
    let mut s = ShapeInstance::<N>::default();
    let z = N::of_ratio(0, 1);
    s.border_color = [z, z, z, z];
    s.shadow_color = [z, z, z, z];
    s.shape_kind = 0;
    s
}

/// A picture as a shape.
pub open spec fn image_shape<N: Num>(r: ImageRef<N>, entry: ImageEntry<N>) -> ShapeInstance<N> {
    ShapeInstance {
        color: r.color,
        border_radius: r.border_radius,
        backdrop_uv_rect: shown_part(r, entry.uv),
        clip_rect: r.clip_rect,
        position: r.position,
        size: r.size,
        shape_kind: SHAPE_KIND_IMAGE,
        opacity: r.opacity,
        clip_radius: r.clip_radius,
        ..blit::<N>()
    }
}

/// The pictures as shapes, without those that are not on the atlas.
pub open spec fn image_shapes<N: Num>(
    refs: Seq<ImageRef<N>>,
    images: Map<u32, Placed<N>>,
) -> Seq<ShapeInstance<N>>
    decreases refs.len(),
{
    if refs.len() == 0 {
        Seq::empty()
    } else {
        let init = image_shapes(refs.drop_last(), images);
        let r = refs.last();
        if images.contains_key(r.handle.0) {
            init.push(image_shape(r, images[r.handle.0].entry))
        } else {
            init
        }
    }
}

/// Turns the pictures of a scene into shapes; a handle that is not on the
/// atlas gives none.
pub fn build_image_instances<N: Num>(atlas: &ImageAtlas<N>, refs: &[ImageRef<N>]) -> (r: Vec<
    ShapeInstance<N>,
>)
    ensures
        r@ == image_shapes(refs@, atlas.images()),
{
    let mut out: Vec<ShapeInstance<N>> = Vec::new();
    let mut i: usize = 0;
    while i < refs.len()
        invariant
            i <= refs@.len(),
            out@ == image_shapes(refs@.take(i as int), atlas.images()),
        decreases refs.len() - i,
    {
        proof {
            let upto = refs@.take(i + 1);
            assert(upto.drop_last() =~= refs@.take(i as int));
            assert(upto.last() == refs@[i as int]);
        }
        let r = refs[i];
        if let Some(entry) = atlas.get(r.handle) {
            let mut s = new_blit::<N>();
            s.color = r.color;
            s.border_radius = r.border_radius;
            s.backdrop_uv_rect = part_of_picture(&r, entry.uv);
            s.clip_rect = r.clip_rect;
            s.position = r.position;
            s.size = r.size;
            s.shape_kind = SHAPE_KIND_IMAGE;
            s.opacity = r.opacity;
            s.clip_radius = r.clip_radius;
            out.push(s);
        }
        i = i + 1;
    }
    assert(refs@.take(i as int) =~= refs@);
    out
}

/// A glyph as a shape: on whole pixels, so that a texel covers a pixel.
pub open spec fn glyph_shape_of<N: Num>(
    r: TextRef<N>,
    x: i32,
    y: i32,
    entry: AtlasEntry<N>,
    side: u32,
) -> ShapeInstance<N> {
    let side = N::natural(side as u64);
    let w = N::natural(entry.width as u64);
    let h = N::natural(entry.height as u64);
    ShapeInstance {
        color: r.color,
        backdrop_uv_rect: [entry.uv[0], entry.uv[1], w.quotient(side), h.quotient(side)],
        clip_rect: r.clip_rect,
        position: [
            r.position[0].sum(N::fraction(x, 1)).sum(N::fraction(entry.left, 1)).rounded(),
            r.position[1].sum(N::fraction(y, 1)).difference(N::fraction(entry.top, 1)).rounded(),
        ],
        size: [w, h],
        shape_kind: SHAPE_KIND_GLYPH,
        opacity: r.opacity,
        ..blit::<N>()
    }
}

/// The shape of a glyph whose pen is at `(x, y)` of its run; nothing for a
/// blank glyph. `side` is that of the glyph atlas.
pub fn glyph_shape<N: Num>(
    r: &TextRef<N>,
    x: i32,
    y: i32,
    entry: &AtlasEntry<N>,
    side: u32,
) -> (s: Option<ShapeInstance<N>>)
    ensures
        s == (if entry.width == 0 || entry.height == 0 {
            None
        } else {
            Some(glyph_shape_of(*r, x, y, *entry, side))
        }),
{
    if entry.width == 0 || entry.height == 0 {
        return None;
    }
    let all = N::of_u64(side as u64);
    let w = N::of_u64(entry.width as u64);
    let h = N::of_u64(entry.height as u64);
    let px = r.position[0].plus(N::of_ratio(x, 1)).plus(N::of_ratio(entry.left, 1)).round();
    let py = r.position[1].plus(N::of_ratio(y, 1)).minus(N::of_ratio(entry.top, 1)).round();
    let mut s = new_blit::<N>();
    s.color = r.color;
    s.backdrop_uv_rect = [entry.uv[0], entry.uv[1], w.over(all), h.over(all)];
    s.clip_rect = r.clip_rect;
    s.position = [px, py];
    s.size = [w, h];
    s.shape_kind = SHAPE_KIND_GLYPH;
    s.opacity = r.opacity;
    Some(s)
}

/// A glyph of a run: which one, where its pen is, and its bitmap where it
/// has one.
#[derive(Copy, Clone, Debug)]
pub struct ShapedGlyph {
    pub key: GlyphKey,
    pub x: i32,
    pub y: i32,
    pub bitmap: Option<GlyphBitmap>,
}

/// A run of text with its glyphs.
#[derive(Clone, Debug)]
pub struct TextRun<N> {
    pub text: TextRef<N>,
    pub glyphs: Vec<ShapedGlyph>,
}

/// The shape of a glyph that was looked up: none where the atlas does not
/// hold it or it is blank.
pub open spec fn shape_of_entry<N: Num>(
    text: TextRef<N>,
    g: ShapedGlyph,
    entry: Option<AtlasEntry<N>>,
    side: u32,
) -> Seq<ShapeInstance<N>> {
    match entry {
        Some(e) => if e.width == 0 || e.height == 0 {
            Seq::empty()
        } else {
            seq![glyph_shape_of(text, g.x, g.y, e, side)]
        },
        None => Seq::empty(),
    }
}

/// The shapes of the first `n` glyphs of a run, from what was found of them.
pub open spec fn shapes_upto<N: Num>(
    run: TextRun<N>,
    entries: Seq<Option<AtlasEntry<N>>>,
    side: u32,
    n: nat,
) -> Seq<ShapeInstance<N>>
    decreases n,
{
    if n == 0 {
        Seq::empty()
    } else {
        shapes_upto(run, entries, side, (n - 1) as nat) + shape_of_entry(
            run.text,
            run.glyphs@[n - 1],
            entries[n - 1],
            side,
        )
    }
}

/// The first glyphs of a run were looked up one after the other: `states` are
/// the atlas before, between and after, and `entries` what was found.
pub open spec fn glyphs_found<N: Num>(
    states: Seq<GlyphAtlas<N>>,
    entries: Seq<Option<AtlasEntry<N>>>,
    glyphs: Seq<ShapedGlyph>,
) -> bool {
    &&& states.len() == entries.len() + 1
    &&& entries.len() <= glyphs.len()
    &&& forall|i: int|
        0 <= i < entries.len() ==> glyph_found(
            states[i],
            states[i + 1],
            glyphs[i],
            #[trigger] entries[i],
        )
}

pub open spec fn glyph_found<N: Num>(
    before: GlyphAtlas<N>,
    after: GlyphAtlas<N>,
    g: ShapedGlyph,
    entry: Option<AtlasEntry<N>>,
) -> bool {
    after.looked_up(before, g.key, g.bitmap, entry)
}

/// All glyphs of a run were looked up, and `out` are their shapes.
pub open spec fn run_built<N: Num>(
    before: GlyphAtlas<N>,
    after: GlyphAtlas<N>,
    run: TextRun<N>,
    out: Seq<ShapeInstance<N>>,
) -> bool {
    exists|states: Seq<GlyphAtlas<N>>, entries: Seq<Option<AtlasEntry<N>>>|
        {
            &&& #[trigger] glyphs_found(states, entries, run.glyphs@)
            &&& entries.len() == run.glyphs@.len()
            &&& states[0] == before
            &&& states.last() == after
            &&& out == shapes_upto(run, entries, before.side(), entries.len())
        }
}

/// The first `n` lists one after the other.
pub open spec fn joined<N: Num>(lists: Seq<Seq<ShapeInstance<N>>>, n: nat) -> Seq<ShapeInstance<N>>
    decreases n,
{
    if n == 0 {
        Seq::empty()
    } else {
        joined(lists, (n - 1) as nat) + lists[n - 1]
    }
}

/// The first runs were built one after the other: `states` are the atlas
/// before, between and after, and `outs` the shapes of each.
pub open spec fn runs_walked<N: Num>(
    states: Seq<GlyphAtlas<N>>,
    outs: Seq<Seq<ShapeInstance<N>>>,
    runs: Seq<TextRun<N>>,
) -> bool {
    &&& states.len() == outs.len() + 1
    &&& outs.len() <= runs.len()
    &&& forall|i: int|
        0 <= i < outs.len() ==> run_built(states[i], states[i + 1], runs[i], #[trigger] outs[i])
}

/// All runs were built, and `out` are their shapes.
pub open spec fn runs_built<N: Num>(
    before: GlyphAtlas<N>,
    after: GlyphAtlas<N>,
    runs: Seq<TextRun<N>>,
    out: Seq<ShapeInstance<N>>,
) -> bool {
    exists|states: Seq<GlyphAtlas<N>>, outs: Seq<Seq<ShapeInstance<N>>>|
        {
            &&& #[trigger] runs_walked(states, outs, runs)
            &&& outs.len() == runs.len()
            &&& states[0] == before
            &&& states.last() == after
            &&& out == joined(outs, outs.len())
        }
}

proof fn shapes_of_longer<N: Num>(
    run: TextRun<N>,
    entries: Seq<Option<AtlasEntry<N>>>,
    next: Option<AtlasEntry<N>>,
    side: u32,
    n: nat,
)
    requires
        n <= entries.len(),
    ensures
        shapes_upto(run, entries.push(next), side, n) == shapes_upto(run, entries, side, n),
    decreases n,
{
    if n > 0 {
        shapes_of_longer(run, entries, next, side, (n - 1) as nat);
    }
}

proof fn joined_longer<N: Num>(
    lists: Seq<Seq<ShapeInstance<N>>>,
    next: Seq<ShapeInstance<N>>,
    n: nat,
)
    requires
        n <= lists.len(),
    ensures
        joined(lists.push(next), n) == joined(lists, n),
    decreases n,
{
    if n > 0 {
        joined_longer(lists, next, (n - 1) as nat);
    }
}

/// Looks the glyphs of a run up in the atlas and builds their shapes. A glyph
/// that the atlas does not hold is added to it.
pub fn build_run<N: Num>(atlas: &mut GlyphAtlas<N>, run: &TextRun<N>) -> (r: Vec<ShapeInstance<N>>)
    requires
        old(atlas).wf(),
    ensures
        final(atlas).wf(),
        final(atlas).side() == old(atlas).side(),
        run_built(*old(atlas), *final(atlas), *run, r@),
{
    let ghost before = *atlas;
    let ghost mut states: Seq<GlyphAtlas<N>> = seq![before];
    let ghost mut entries: Seq<Option<AtlasEntry<N>>> = Seq::empty();
    let side: u32 = atlas.size();
    let mut out: Vec<ShapeInstance<N>> = Vec::new();
    let mut i: usize = 0;
    while i < run.glyphs.len()
        invariant
            i <= run.glyphs@.len(),
            atlas.wf(),
            side == before.side(),
            atlas.side() == side,
            glyphs_found(states, entries, run.glyphs@),
            entries.len() == i,
            states[0] == before,
            states.last() == *atlas,
            out@ == shapes_upto(*run, entries, side, i as nat),
        decreases run.glyphs.len() - i,
    {
        let g = run.glyphs[i];
        let ghost mid = *atlas;
        let entry = atlas.get_or_insert(g.key, g.bitmap);
        let ghost prior = out@;
        if let Some(e) = entry {
            if let Some(s) = glyph_shape(&run.text, g.x, g.y, &e, side) {
                out.push(s);
            }
        }
        proof {
            let longer = entries.push(entry);
            let after = states.push(*atlas);
            shapes_of_longer(*run, entries, entry, side, i as nat);
            assert(out@ =~= prior + shape_of_entry(run.text, g, entry, side));
            assert forall|k: int| 0 <= k < longer.len() implies glyph_found(
                after[k],
                after[k + 1],
                run.glyphs@[k],
                #[trigger] longer[k],
            ) by {
                if k < i {
                    assert(longer[k] == entries[k]);
                    assert(glyph_found(states[k], states[k + 1], run.glyphs@[k], entries[k]));
                } else {
                    assert(after[k] == mid);
                }
            }
            entries = longer;
            states = after;
        }
        i = i + 1;
    }
    assert(glyphs_found(states, entries, run.glyphs@));
    out
}

/// Looks the glyphs of all runs up in the atlas, in order, and builds their
/// shapes.
pub fn build_runs<N: Num>(atlas: &mut GlyphAtlas<N>, runs: &Vec<TextRun<N>>) -> (r: Vec<
    ShapeInstance<N>,
>)
    requires
        old(atlas).wf(),
    ensures
        final(atlas).wf(),
        final(atlas).side() == old(atlas).side(),
        runs_built(*old(atlas), *final(atlas), runs@, r@),
{
    let ghost before = *atlas;
    let ghost mut states: Seq<GlyphAtlas<N>> = seq![before];
    let ghost mut outs: Seq<Seq<ShapeInstance<N>>> = Seq::empty();
    let mut out: Vec<ShapeInstance<N>> = Vec::new();
    let mut i: usize = 0;
    while i < runs.len()
        invariant
            i <= runs@.len(),
            atlas.wf(),
            atlas.side() == before.side(),
            runs_walked(states, outs, runs@),
            outs.len() == i,
            states[0] == before,
            states.last() == *atlas,
            out@ == joined(outs, i as nat),
        decreases runs.len() - i,
    {
        let ghost mid = *atlas;
        let mut own = build_run(atlas, &runs[i]);
        let ghost shapes = own@;
        let ghost prior = out@;
        out.append(&mut own);
        proof {
            let longer = outs.push(shapes);
            let after = states.push(*atlas);
            joined_longer(outs, shapes, i as nat);
            assert(out@ =~= prior + shapes);
            assert forall|k: int| 0 <= k < longer.len() implies run_built(
                after[k],
                after[k + 1],
                runs@[k],
                #[trigger] longer[k],
            ) by {
                if k < i {
                    assert(longer[k] == outs[k]);
                    assert(run_built(states[k], states[k + 1], runs@[k], outs[k]));
                } else {
                    assert(after[k] == mid);
                }
            }
            outs = longer;
            states = after;
        }
        i = i + 1;
    }
    assert(runs_walked(states, outs, runs@));
    out
}

/// Each picture becomes at most one shape.
pub(crate) proof fn image_shapes_are_few<N: Num>(
    refs: Seq<ImageRef<N>>,
    images: Map<u32, Placed<N>>,
)
    ensures
        image_shapes(refs, images).len() <= refs.len(),
    decreases refs.len(),
{
    if refs.len() > 0 {
        image_shapes_are_few(refs.drop_last(), images);
    }
}

/// In exact numbers, a picture that is to cover its rectangle shows the middle
/// of itself: a part with the proportions of the rectangle, with as much cut
/// off on the one side as on the other, and all of it on one axis. Any other
/// picture is shown whole.
pub proof fn covering_pictures_are_cut_evenly<N: Num>(
    value: spec_fn(N) -> real,
    r: ImageRef<N>,
    entry: ImageEntry<N>,
)
    requires
        computes_exactly(value),
        value(entry.uv[0]) < value(entry.uv[2]),
        value(entry.uv[1]) < value(entry.uv[3]),
        value(r.size[0]) > 0real,
        value(r.size[1]) > 0real,
    ensures
        ({
            let s = image_shape(r, entry);
            let uv = s.backdrop_uv_rect;
            let (l, t, w, h) = (value(uv[0]), value(uv[1]), value(uv[2]), value(uv[3]));
            let (u0, v0, u1, v1) = (
                value(entry.uv[0]),
                value(entry.uv[1]),
                value(entry.uv[2]),
                value(entry.uv[3]),
            );
            &&& l - u0 == u1 - (l + w)
            &&& t - v0 == v1 - (t + h)
            &&& u0 <= l && v0 <= t
            &&& 0real < w && 0real < h
            &&& w == u1 - u0 || h == v1 - v0
            &&& r.cover ==> w * value(r.size[1]) == h * value(r.size[0])
            &&& !r.cover ==> w == u1 - u0 && h == v1 - v0
            &&& s.position == r.position && s.size == r.size
            &&& s.clip_rect == r.clip_rect && s.clip_radius == r.clip_radius
            &&& s.border_radius == r.border_radius
            &&& s.color == r.color && s.opacity == r.opacity
            &&& s.shape_kind == SHAPE_KIND_IMAGE
        }),
{
    fractions_are_exact(value);
    let whole = whole_picture(entry.uv);
    let (w, h) = (value(whole[2]), value(whole[3]));
    let (sw, sh) = (value(r.size[0]), value(r.size[1]));
    if r.cover {
        let picture = whole[2].quotient(whole[3]);
        let frame = r.size[0].quotient(r.size[1]);
        let (p, f) = (value(picture), value(frame));
        assert(p * h == w);
        assert(f * sh == sw);
        assert(p > 0real) by (nonlinear_arith)
            requires
                p * h == w,
                w > 0real,
                h > 0real,
        ;
        assert(f > 0real) by (nonlinear_arith)
            requires
                f * sh == sw,
                sw > 0real,
                sh > 0real,
        ;
        if p < f {
            let q = picture.quotient(frame);
            let k = value(q);
            assert(k * f == p);
            assert(0real < k < 1real) by (nonlinear_arith)
                requires
                    k * f == p,
                    0real < p < f,
            ;
            let nh = h * k;
            assert(0real < nh < h) by (nonlinear_arith)
                requires
                    nh == h * k,
                    0real < k < 1real,
                    h > 0real,
            ;
            assert(w * sh == nh * sw) by (nonlinear_arith)
                requires
                    nh == h * k,
                    k * f == p,
                    p * h == w,
                    f * sh == sw,
            ;
            let part = middle_part(whole, r.size);
            assert(value(part[3]) == nh);
            let off = whole[3].difference(whole[3].product(q)).product(N::fraction(1, 2));
            assert(value(off) * 2real == h - nh) by {
                let (d, x) = (h - nh, value(N::fraction(1, 2)));
                assert(value(off) == d * x);
                assert((d * x) * 2real == d) by (nonlinear_arith)
                    requires
                        x * 2real == 1real,
                ;
            }
        } else {
            let q = frame.quotient(picture);
            let k = value(q);
            assert(k * p == f);
            assert(0real < k <= 1real) by (nonlinear_arith)
                requires
                    k * p == f,
                    0real < f <= p,
            ;
            let nw = w * k;
            assert(0real < nw <= w) by (nonlinear_arith)
                requires
                    nw == w * k,
                    0real < k <= 1real,
                    w > 0real,
            ;
            assert(nw * sh == h * sw) by (nonlinear_arith)
                requires
                    nw == w * k,
                    k * p == f,
                    p * h == w,
                    f * sh == sw,
            ;
            let part = middle_part(whole, r.size);
            assert(value(part[2]) == nw);
            let off = whole[2].difference(whole[2].product(q)).product(N::fraction(1, 2));
            assert(value(off) * 2real == w - nw) by {
                let (d, x) = (w - nw, value(N::fraction(1, 2)));
                assert(value(off) == d * x);
                assert((d * x) * 2real == d) by (nonlinear_arith)
                    requires
                        x * 2real == 1real,
                ;
            }
        }
    }
}

/// In exact numbers, a glyph lies on whole pixels, within half a pixel of where
/// its pen and its bearings put it: its left edge `left` from the pen, its
/// upper edge `top` above it. It is as large as its bitmap, texel for pixel.
pub proof fn glyphs_sit_at_their_pens<N: Num>(
    value: spec_fn(N) -> real,
    r: TextRef<N>,
    x: i32,
    y: i32,
    entry: AtlasEntry<N>,
    side: u32,
)
    requires
        computes_exactly(value),
        side > 0,
    ensures
        ({
            let s = glyph_shape_of(r, x, y, entry, side);
            let (px, py) = (value(s.position[0]), value(s.position[1]));
            let (wx, wy) = (
                value(r.position[0]) + (x as real) + (entry.left as real),
                value(r.position[1]) + (y as real) - (entry.top as real),
            );
            &&& -1real <= 2real * (wx - px) <= 1real
            &&& -1real <= 2real * (wy - py) <= 1real
            &&& exists|k: int| #[trigger] stands_for(px, k)
            &&& exists|k: int| #[trigger] stands_for(py, k)
        }),
        ({
            let s = glyph_shape_of(r, x, y, entry, side);
            &&& value(s.size[0]) == entry.width as real
            &&& value(s.size[1]) == entry.height as real
            &&& s.backdrop_uv_rect[0] == entry.uv[0] && s.backdrop_uv_rect[1] == entry.uv[1]
            &&& value(s.backdrop_uv_rect[2]) * (side as real) == entry.width as real
            &&& value(s.backdrop_uv_rect[3]) * (side as real) == entry.height as real
            &&& s.color == r.color && s.opacity == r.opacity && s.clip_rect == r.clip_rect
            &&& s.shape_kind == SHAPE_KIND_GLYPH
        }),
{
    fractions_are_exact(value);
    let s = glyph_shape_of(r, x, y, entry, side);
    let a = r.position[0].sum(N::fraction(x, 1)).sum(N::fraction(entry.left, 1));
    let b = r.position[1].sum(N::fraction(y, 1)).difference(N::fraction(entry.top, 1));
    assert(nearest_is(value(a), value(a.rounded())));
    assert(nearest_is(value(b), value(b.rounded())));
    let all = N::natural(side as u64);
    let (w, h) = (N::natural(entry.width as u64), N::natural(entry.height as u64));
    assert(value(all) == side as real);
    assert((side as real) != 0real);
    assert(value(w.quotient(all)) * value(all) == value(w));
    assert(value(h.quotient(all)) * value(all) == value(h));
    assert(value(w) == entry.width as real);
    assert(value(h) == entry.height as real);
    assert(value(a) == value(r.position[0]) + (x as real) + (entry.left as real));
    assert(value(b) == value(r.position[1]) + (y as real) - (entry.top as real));
    assert(s.position[0] == a.rounded() && s.position[1] == b.rounded());
    assert(exists|k: int| #[trigger] stands_for(value(s.position[0]), k));
    assert(exists|k: int| #[trigger] stands_for(value(s.position[1]), k));
    assert(s.color == r.color && s.clip_rect == r.clip_rect);
}

/// A text is drawn glyph by glyph: each glyph that the atlas holds and that has
/// texels adds its shape behind those before it, and any other adds none.
pub proof fn texts_are_drawn_glyph_by_glyph<N: Num>(
    run: TextRun<N>,
    entries: Seq<Option<AtlasEntry<N>>>,
    side: u32,
    n: nat,
)
    requires
        n < entries.len(),
        entries.len() == run.glyphs@.len(),
    ensures
        ({
            let before = shapes_upto(run, entries, side, n);
            let after = shapes_upto(run, entries, side, n + 1);
            let g = run.glyphs@[n as int];
            let e = entries[n as int];
            &&& e is Some && e->0.width > 0 && e->0.height > 0 ==> after == before.push(
                glyph_shape_of(run.text, g.x, g.y, e->0, side),
            )
            &&& e is None || e->0.width == 0 || e->0.height == 0 ==> after == before
        }),
        shapes_upto(run, entries, side, 0).len() == 0,
{
    let before = shapes_upto(run, entries, side, n);
    let after = shapes_upto(run, entries, side, n + 1);
    let g = run.glyphs@[n as int];
    match entries[n as int] {
        Some(e) => {
            if e.width == 0 || e.height == 0 {
                assert(after =~= before);
            } else {
                assert(after =~= before.push(glyph_shape_of(run.text, g.x, g.y, e, side)));
            }
        },
        None => {
            assert(after =~= before);
        },
    }
}

/// Lists that are joined follow one another whole.
pub proof fn joined_lists_follow_one_another<N: Num>(
    lists: Seq<Seq<ShapeInstance<N>>>,
    n: nat,
    k: nat,
)
    requires
        k < n <= lists.len(),
    ensures
        ({
            let all = joined(lists, n);
            let start = joined(lists, k).len();
            &&& start + lists[k as int].len() <= all.len()
            &&& all.subrange(start as int, (start + lists[k as int].len()) as int)
                == lists[k as int]
            &&& k + 1 == n ==> all.len() == start + lists[k as int].len()
        }),
        joined(lists, 0).len() == 0,
    decreases n,
{
    let all = joined(lists, n);
    let before = joined(lists, (n - 1) as nat);
    let start = joined(lists, k).len();
    let end = start + lists[k as int].len();
    if k + 1 < n {
        joined_lists_follow_one_another(lists, (n - 1) as nat, k);
        assert(all.subrange(start as int, end as int) =~= before.subrange(
            start as int,
            end as int,
        ));
    } else {
        assert(all.subrange(start as int, end as int) =~= lists[k as int]);
    }
}

/// A run of text makes at most one shape for each of its glyphs, all of them
/// glyphs in the colour, the opacity and the clip of the text.
pub proof fn runs_are_drawn_in_their_colour<N: Num>(
    before: GlyphAtlas<N>,
    after: GlyphAtlas<N>,
    run: TextRun<N>,
    out: Seq<ShapeInstance<N>>,
    k: int,
)
    requires
        run_built(before, after, run, out),
    ensures
        out.len() <= run.glyphs@.len(),
        0 <= k < out.len() ==> out[k].color == run.text.color && out[k].opacity == run.text.opacity
            && out[k].clip_rect == run.text.clip_rect && out[k].shape_kind == SHAPE_KIND_GLYPH,
{
    let (states, entries) = choose|
        states: Seq<GlyphAtlas<N>>,
        entries: Seq<Option<AtlasEntry<N>>>,
    |
        {
            &&& #[trigger] glyphs_found(states, entries, run.glyphs@)
            &&& entries.len() == run.glyphs@.len()
            &&& states[0] == before
            &&& states.last() == after
            &&& out == shapes_upto(run, entries, before.side(), entries.len())
        };
    glyph_shapes_look_alike(run, entries, before.side(), entries.len(), k);
}

proof fn glyph_shapes_look_alike<N: Num>(
    run: TextRun<N>,
    entries: Seq<Option<AtlasEntry<N>>>,
    side: u32,
    n: nat,
    k: int,
)
    requires
        n <= entries.len() == run.glyphs@.len(),
    ensures
        ({
            let out = shapes_upto(run, entries, side, n);
            &&& out.len() <= n
            &&& 0 <= k < out.len() ==> out[k].color == run.text.color && out[k].opacity
                == run.text.opacity && out[k].clip_rect == run.text.clip_rect && out[k].shape_kind
                == SHAPE_KIND_GLYPH
        }),
    decreases n,
{
    if n > 0 {
        let m = (n - 1) as nat;
        glyph_shapes_look_alike(run, entries, side, m, k);
        texts_are_drawn_glyph_by_glyph(run, entries, side, m);
    }
}

} // verus!
