//! The plan of one frame.
//!
//! Layers are visited from back to front. Each is drawn into its texture if
//! what it would show has changed since its texture was drawn. A layer with
//! glass shows what lies below it: its backdrop is built from the layers
//! further back just before it is drawn. That happens only if something below
//! was drawn or moved, if the layer itself changed, or on request, and it
//! makes the layer be drawn again. In the end all layers are composited.
use std::ops::Range;

use vstd::prelude::*;

use crate::gpu::external::{ExternalTextures, Shown};
use crate::gpu::layer::{LayerDraw, LayerResources, LayerSlot};
use crate::gpu::timing::{PassAlloc, PASS_FINAL, PASS_OD_COMPOSE, PASS_OD_COUNT, PASS_OPAQUE};
use crate::gpu::upload::{encoded_glass, is_encoded_glass, EncodedShape};
use crate::num::Num;

verus! {

/// The number of layers that a frame can have: its draw calls are counted in
/// 32 bits, and the backdrop of each layer can take one for every layer below.
pub const MAX_LAYERS: usize = 65_534;

/// Position `i`, but not past the end of a list of `len`.
pub open spec fn clipped(i: u32, len: nat) -> int {
    if i <= len {
        i as int
    } else {
        len as int
    }
}

/// The shapes of a range that there are.
pub open spec fn span(shapes: Seq<EncodedShape>, range: Range<u32>) -> Seq<EncodedShape> {
    shapes.subrange(clipped(range.start, shapes.len()), clipped(range.end, shapes.len()))
}

/// One step of the FNV-1a hash.
pub open spec fn hash_step(hash: u64, byte: u8) -> u64 {
    ((hash ^ (byte as u64)) * 0x100_0000_01b3 % 0x1_0000_0000_0000_0000) as u64
}

pub open spec fn hash_bytes(hash: u64, bytes: Seq<u8>) -> u64
    decreases bytes.len(),
{
    if bytes.len() == 0 {
        hash
    } else {
        hash_step(hash_bytes(hash, bytes.drop_last()), bytes.last())
    }
}

/// The FNV-1a hash of the bytes of some shapes.
pub open spec fn signature(shapes: Seq<EncodedShape>) -> u64
    decreases shapes.len(),
{
    if shapes.len() == 0 {
        0xcbf2_9ce4_8422_2325
    } else {
        hash_bytes(signature(shapes.drop_last()), shapes.last().bytes@)
    }
}

/// Some shape is a pane of glass.
pub open spec fn bears_glass(shapes: Seq<EncodedShape>) -> bool {
    exists|i: int| 0 <= i < shapes.len() && encoded_glass(#[trigger] shapes[i])
}

/// The number of shapes before the first pane of glass.
pub open spec fn before_glass(shapes: Seq<EncodedShape>) -> nat
    decreases shapes.len(),
{
    if shapes.len() == 0 || encoded_glass(shapes[0]) {
        0
    } else {
        1 + before_glass(shapes.skip(1))
    }
}

fn hash_shape(hash: u64, shape: &EncodedShape) -> (r: u64)
    ensures
        r == hash_bytes(hash, shape.bytes@),
{
    let mut h: u64 = hash;
    let mut i: usize = 0;
    while i < 160
        invariant
            i <= 160,
            h == hash_bytes(hash, shape.bytes@.take(i as int)),
        decreases 160 - i,
    {
        proof {
            let upto = shape.bytes@.take(i + 1);
            assert(upto.drop_last() =~= shape.bytes@.take(i as int));
            assert(upto.last() == shape.bytes@[i as int]);
        }
        h = (h ^ (shape.bytes[i] as u64)).wrapping_mul(0x100_0000_01b3);
        i = i + 1;
    }
    assert(shape.bytes@.take(160) =~= shape.bytes@);
    h
}

/// The signature of a range of shapes, and whether there is glass among them.
pub fn layer_signature(shapes: &Vec<EncodedShape>, range: &Range<u32>) -> (r: (u64, bool))
    requires
        range.start <= range.end,
    ensures
        r.0 == signature(span(shapes@, *range)),
        r.1 == bears_glass(span(shapes@, *range)),
{
    let n: usize = shapes.len();
    let start: usize = if range.start as usize <= n {
        range.start as usize
    } else {
        n
    };
    let end: usize = if range.end as usize <= n {
        range.end as usize
    } else {
        n
    };
    let ghost all = span(shapes@, *range);
    let mut hash: u64 = 0xcbf2_9ce4_8422_2325;
    let mut glass: bool = false;
    let mut i: usize = start;
    while i < end
        invariant
            start <= i <= end <= n,
            n == shapes@.len(),
            all == shapes@.subrange(start as int, end as int),
            hash == signature(all.take(i - start)),
            glass == bears_glass(all.take(i - start)),
        decreases end - i,
    {
        proof {
            let k = i - start;
            let upto = all.take(k + 1);
            assert(upto.drop_last() =~= all.take(k));
            assert(upto.last() == shapes@[i as int]);
            if bears_glass(all.take(k)) {
                let j = choose|j: int|
                    0 <= j < all.take(k).len() && encoded_glass(#[trigger] all.take(k)[j]);
                assert(encoded_glass(upto[j]));
            }
            if bears_glass(upto) {
                let j = choose|j: int| 0 <= j < upto.len() && encoded_glass(#[trigger] upto[j]);
                if j < k {
                    assert(encoded_glass(all.take(k)[j]));
                }
            }
            if encoded_glass(shapes@[i as int]) {
                assert(encoded_glass(upto[k]));
            }
        }
        hash = hash_shape(hash, &shapes[i]);
        if is_encoded_glass(&shapes[i]) {
            glass = true;
        }
        i = i + 1;
    }
    assert(all.take(end - start) =~= all);
    (hash, glass)
}

/// The number of shapes of a range before the first pane of glass.
fn count_before_glass(shapes: &Vec<EncodedShape>, range: &Range<u32>) -> (r: u32)
    requires
        range.start <= range.end,
        shapes@.len() <= u32::MAX,
    ensures
        r == before_glass(span(shapes@, *range)),
        r <= span(shapes@, *range).len(),
{
    let n: usize = shapes.len();
    let start: usize = if range.start as usize <= n {
        range.start as usize
    } else {
        n
    };
    let end: usize = if range.end as usize <= n {
        range.end as usize
    } else {
        n
    };
    let ghost all = span(shapes@, *range);
    let mut i: usize = start;
    assert(all.skip(0) =~= all);
    while i < end && !is_encoded_glass(&shapes[i])
        invariant
            start <= i <= end <= n,
            n == shapes@.len(),
            n <= u32::MAX,
            all == shapes@.subrange(start as int, end as int),
            before_glass(all) == (i - start) + before_glass(all.skip(i - start)),
        ensures
            i == end || encoded_glass(shapes@[i as int]),
        decreases end - i,
    {
        assert(all.skip(i - start).skip(1) =~= all.skip(i + 1 - start));
        assert(all.skip(i - start)[0] == shapes@[i as int]);
        i = i + 1;
    }
    proof {
        if i < end {
            assert(all.skip(i - start)[0] == shapes@[i as int]);
        }
    }
    (i - start) as u32
}

/// Layer `i` is further back than layer `j`.
pub open spec fn further_back<N>(draws: Seq<LayerDraw<N>>, i: usize, j: usize) -> bool {
    draws[i as int].z < draws[j as int].z || (draws[i as int].z == draws[j as int].z && i < j)
}

/// `order` lists every layer, from back to front.
pub open spec fn is_paint_order<N>(draws: Seq<LayerDraw<N>>, order: Seq<usize>) -> bool {
    &&& order.len() == draws.len()
    &&& forall|a: int| 0 <= a < order.len() ==> #[trigger] order[a] < draws.len()
    &&& forall|a: int, b: int|
        0 <= a < b < order.len() ==> further_back(draws, #[trigger] order[a], #[trigger] order[b])
    &&& forall|i: usize| i < draws.len() ==> #[trigger] order.contains(i)
}

/// Sorts the layers from back to front; layers of the same depth keep their
/// order.
pub fn paint_order<N: Num>(draws: &Vec<LayerDraw<N>>) -> (r: Vec<usize>)
    ensures
        is_paint_order(draws@, r@),
{
    let mut order: Vec<usize> = Vec::new();
    let mut k: usize = 0;
    while k < draws.len()
        invariant
            k <= draws@.len(),
            order@.len() == k,
            forall|a: int| 0 <= a < k ==> #[trigger] order@[a] < k,
            forall|a: int, b: int|
                0 <= a < b < k ==> further_back(
                    draws@,
                    #[trigger] order@[a],
                    #[trigger] order@[b],
                ),
            forall|i: usize| i < k ==> #[trigger] order@.contains(i),
        decreases draws.len() - k,
    {
        let z: i32 = draws[k].z;
        let mut pos: usize = k;
        while pos > 0 && draws[order[pos - 1]].z > z
            invariant
                pos <= k,
                k < draws@.len(),
                order@.len() == k,
                z == draws@[k as int].z,
                forall|a: int| 0 <= a < k ==> #[trigger] order@[a] < k,
                forall|a: int| pos <= a < k ==> draws@[#[trigger] order@[a] as int].z > z,
            ensures
                pos == 0 || draws@[order@[pos - 1] as int].z <= z,
            decreases pos,
        {
            pos = pos - 1;
        }
        let ghost before = order@;
        order.insert(pos, k);
        proof {
            let after = order@;
            assert(after =~= before.insert(pos as int, k));
            assert forall|a: int| 0 <= a < pos implies draws@[#[trigger] before[a] as int].z
                <= z by {
                if a < pos - 1 {
                    assert(further_back(draws@, before[a], before[pos - 1]));
                }
            }
            assert forall|a: int| 0 <= a < k + 1 implies #[trigger] after[a] < k + 1 by {
                if a < pos {
                    assert(after[a] == before[a]);
                } else if a > pos {
                    assert(after[a] == before[a - 1]);
                }
            }
            assert forall|a: int, b: int| 0 <= a < b < k + 1 implies further_back(
                draws@,
                #[trigger] after[a],
                #[trigger] after[b],
            ) by {
                let a0 = if a < pos {
                    a
                } else {
                    a - 1
                };
                let b0 = if b < pos {
                    b
                } else {
                    b - 1
                };
                if a == pos {
                    assert(after[b] == before[b0]);
                } else if b == pos {
                    assert(after[a] == before[a0]);
                } else {
                    assert(after[a] == before[a0]);
                    assert(after[b] == before[b0]);
                    assert(further_back(draws@, before[a0], before[b0]));
                }
            }
            assert forall|i: usize| i < k + 1 implies #[trigger] after.contains(i) by {
                if i == k {
                    assert(after[pos as int] == k);
                } else {
                    assert(before.contains(i));
                    let a = choose|a: int| 0 <= a < before.len() && before[a] == i;
                    assert(after[if a < pos {
                        a
                    } else {
                        a + 1
                    }] == i);
                }
            }
        }
        k = k + 1;
    }
    order
}

/// What decides which layers are drawn.
pub struct Scene<N> {
    pub draws: Seq<LayerDraw<N>>,
    pub shapes: Seq<EncodedShape>,
    pub pool: Seq<LayerSlot>,
    /// Which layers were composited otherwise in the last frame.
    pub moved: Seq<bool>,
    /// Whether every backdrop is to be built anew.
    pub dirty: bool,
    /// Whether there is glass: without it no backdrop is built.
    pub glassy: bool,
}

impl<N: Num> Scene<N> {
    pub open spec fn shapes_of(self, layer: usize) -> Seq<EncodedShape> {
        span(self.shapes, self.draws[layer as int].instances)
    }

    /// The layer has shapes. What a layer shows that comes from outside is
    /// never drawn here.
    pub open spec fn drawn_at_all(self, layer: usize) -> bool {
        let d = self.draws[layer as int];
        d.external is None && d.instances.start < d.instances.end
    }

    /// The layer's texture does not hold what the layer shows.
    pub open spec fn stale(self, layer: usize) -> bool {
        &&& self.drawn_at_all(layer)
        &&& self.pool[layer as int].sig != Some(signature(self.shapes_of(layer)))
    }

    pub open spec fn has_moved(self, layer: usize) -> bool {
        layer >= self.moved.len() || self.moved[layer as int]
    }

    /// The layer's backdrop is built, where `stirred` says whether something
    /// below changed.
    pub open spec fn rebuilds(self, layer: usize, stirred: bool) -> bool {
        &&& self.glassy
        &&& self.draws[layer as int].external is None
        &&& bears_glass(self.shapes_of(layer))
        &&& self.dirty || stirred || self.stale(layer)
    }

    /// The layer is drawn.
    pub open spec fn redraws(self, layer: usize, stirred: bool) -> bool {
        self.stale(layer) || (self.drawn_at_all(layer) && self.rebuilds(layer, stirred))
    }

    /// One of the first `p` layers of `order` is drawn or has moved.
    pub open spec fn stirred(self, order: Seq<usize>, p: nat) -> bool
        decreases p,
    {
        p > 0 && {
            let below = self.stirred(order, (p - 1) as nat);
            let layer = order[p - 1];
            below || self.redraws(layer, below) || self.has_moved(layer)
        }
    }

    /// How many of the first `p` layers have their backdrop built.
    pub open spec fn builds(self, order: Seq<usize>, p: nat) -> nat
        decreases p,
    {
        if p == 0 {
            0
        } else {
            let q = (p - 1) as nat;
            self.builds(order, q) + (if self.rebuilds(order[q as int], self.stirred(order, q)) {
                1nat
            } else {
                0
            })
        }
    }

    /// How many of the first `p` layers are drawn.
    pub open spec fn rasters(self, order: Seq<usize>, p: nat) -> nat
        decreases p,
    {
        if p == 0 {
            0
        } else {
            let q = (p - 1) as nat;
            self.rasters(order, q) + (if self.redraws(order[q as int], self.stirred(order, q)) {
                1nat
            } else {
                0
            })
        }
    }

    /// How many of the first `p` layers have shapes.
    pub open spec fn drawn_below(self, order: Seq<usize>, p: nat) -> nat
        decreases p,
    {
        if p == 0 {
            0
        } else {
            let q = (p - 1) as nat;
            self.drawn_below(order, q) + (if self.drawn_at_all(order[q as int]) {
                1nat
            } else {
                0
            })
        }
    }

    /// The step that builds the backdrop of the layer at position `p`.
    pub open spec fn backdrop_step(self, order: Seq<usize>, p: nat, timed: bool) -> Step {
        let layer = order[p as int];
        let start = self.draws[layer as int].instances.start;
        Step::Backdrop {
            position: p as usize,
            raw_start: start,
            raw_end: (start + before_glass(self.shapes_of(layer))) as u32,
            timed: timed && self.builds(order, p) == 0,
        }
    }

    /// The steps for the first `p` layers.
    pub open spec fn steps(
        self,
        order: Seq<usize>,
        p: nat,
        opaque_timed: bool,
        final_timed: bool,
    ) -> Seq<Step>
        decreases p,
    {
        if p == 0 {
            Seq::empty()
        } else {
            let q = (p - 1) as nat;
            let layer = order[q as int];
            let below = self.stirred(order, q);
            let s0 = self.steps(order, q, opaque_timed, final_timed);
            let s1 = if self.rebuilds(layer, below) {
                s0.push(self.backdrop_step(order, q, opaque_timed))
            } else {
                s0
            };
            if self.redraws(layer, below) {
                s1.push(Step::Raster { layer, timed: final_timed && layer == 0 })
            } else {
                s1
            }
        }
    }

    /// Draw calls of the steps for the first `p` layers.
    pub open spec fn calls(self, order: Seq<usize>, p: nat) -> nat
        decreases p,
    {
        if p == 0 {
            0
        } else {
            let q = (p - 1) as nat;
            let layer = order[q as int];
            let below = self.stirred(order, q);
            let backdrop = if self.rebuilds(layer, below) {
                self.drawn_below(order, q) + (if before_glass(self.shapes_of(layer)) > 0 {
                    1nat
                } else {
                    0
                })
            } else {
                0
            };
            let raster = if self.redraws(layer, below) {
                1nat
            } else {
                0
            };
            self.calls(order, q) + backdrop + raster
        }
    }

    /// What slot `order[p]` holds after the frame.
    pub open spec fn slot_after(self, order: Seq<usize>, p: int) -> LayerSlot {
        let layer = order[p];
        let slot = self.pool[layer as int];
        if self.redraws(layer, self.stirred(order, p as nat)) {
            LayerSlot { sig: Some(signature(self.shapes_of(layer))), ..slot }
        } else {
            slot
        }
    }
}

/// A render pass of the frame.
#[derive(Copy, Clone, Debug, PartialEq, Eq, Structural)]
pub enum Step {
    /// Build the backdrop of the layer at `position` of the paint order:
    /// composite the layers before it that have shapes, then draw the shapes
    /// `raw_start..raw_end`, then blur.
    Backdrop { position: usize, raw_start: u32, raw_end: u32, timed: bool },
    /// Draw the shapes of a layer into its texture.
    Raster { layer: usize, timed: bool },
}

/// The passes that bring all layer textures up to date.
#[derive(Debug)]
pub struct Walk {
    /// The layers from back to front.
    pub order: Vec<usize>,
    pub steps: Vec<Step>,
    pub rasters: u32,
    pub builds: u32,
    pub drawcalls: u32,
}

/// The ranges and the pool are such that a frame can be planned.
pub open spec fn plannable<N>(draws: Seq<LayerDraw<N>>, shapes: Seq<EncodedShape>, slots: nat)
    -> bool {
    &&& draws.len() <= MAX_LAYERS
    &&& draws.len() <= slots
    &&& shapes.len() <= u32::MAX
    &&& forall|i: int|
        0 <= i < draws.len() ==> (#[trigger] draws[i]).instances.start <= draws[i].instances.end
}

pub(crate) proof fn counts_are_small<N: Num>(sc: Scene<N>, order: Seq<usize>, p: nat)
    ensures
        sc.rasters(order, p) <= p,
        sc.builds(order, p) <= p,
        sc.drawn_below(order, p) <= p,
        sc.calls(order, p) <= p * (p + 2),
    decreases p,
{
    if p > 0 {
        let q = (p - 1) as nat;
        counts_are_small(sc, order, q);
        assert(q * (q + 2) + q + 2 <= p * (p + 2)) by (nonlinear_arith)
            requires
                p == q + 1,
        ;
    }
}

/// Plans the passes that bring every layer's texture up to date, and notes
/// what the textures will hold.
pub fn plan_layers<N: Num>(
    draws: &Vec<LayerDraw<N>>,
    shapes: &Vec<EncodedShape>,
    layers: &mut LayerResources,
    moved: &Vec<bool>,
    dirty: bool,
    glassy: bool,
    opaque_timed: bool,
    final_timed: bool,
) -> (r: Walk)
    requires
        plannable(draws@, shapes@, old(layers).pool().len()),
    ensures
        is_paint_order(draws@, r.order@),
        ({
            let sc = Scene {
                draws: draws@,
                shapes: shapes@,
                pool: old(layers).pool(),
                moved: moved@,
                dirty,
                glassy,
            };
            let n = draws@.len();
            &&& r.steps@ == sc.steps(r.order@, n, opaque_timed, final_timed)
            &&& r.rasters == sc.rasters(r.order@, n)
            &&& r.builds == sc.builds(r.order@, n)
            &&& r.drawcalls == sc.calls(r.order@, n)
            &&& r.drawcalls <= n * (n + 2)
            &&& final(layers).surface() == old(layers).surface()
            &&& final(layers).pool().len() == old(layers).pool().len()
            &&& forall|p: int|
                0 <= p < n ==> final(layers).pool()[#[trigger] r.order@[p] as int]
                    == sc.slot_after(r.order@, p)
            &&& forall|i: int|
                n <= i < old(layers).pool().len() ==> #[trigger] final(layers).pool()[i]
                    == old(layers).pool()[i]
        }),
{
    let ghost sc = Scene {
        draws: draws@,
        shapes: shapes@,
        pool: layers.pool(),
        moved: moved@,
        dirty,
        glassy,
    };
    let order = paint_order(draws);
    let n: usize = draws.len();
    let mut steps: Vec<Step> = Vec::new();
    let mut rasters: u32 = 0;
    let mut builds: u32 = 0;
    let mut drawcalls: u32 = 0;
    let mut drawn_below: u32 = 0;
    let mut stirred: bool = false;
    let mut p: usize = 0;
    while p < n
        invariant
            p <= n,
            n == draws@.len(),
            plannable(draws@, shapes@, sc.pool.len()),
            is_paint_order(draws@, order@),
            sc.draws == draws@,
            sc.shapes == shapes@,
            sc.moved == moved@,
            sc.dirty == dirty,
            sc.glassy == glassy,
            sc.pool == old(layers).pool(),
            layers.surface() == old(layers).surface(),
            layers.pool().len() == sc.pool.len(),
            steps@ == sc.steps(order@, p as nat, opaque_timed, final_timed),
            rasters == sc.rasters(order@, p as nat),
            builds == sc.builds(order@, p as nat),
            drawcalls == sc.calls(order@, p as nat),
            drawn_below == sc.drawn_below(order@, p as nat),
            stirred == sc.stirred(order@, p as nat),
            forall|q: int|
                0 <= q < p ==> layers.pool()[#[trigger] order@[q] as int] == sc.slot_after(
                    order@,
                    q,
                ),
            forall|q: int|
                p <= q < n ==> layers.pool()[#[trigger] order@[q] as int]
                    == sc.pool[order@[q] as int],
            forall|i: int|
                n <= i < sc.pool.len() ==> #[trigger] layers.pool()[i] == sc.pool[i],
        decreases n - p,
    {
        let layer: usize = order[p];
        let d = &draws[layer];
        let (sig, glass) = layer_signature(shapes, &d.instances);
        let own: bool = d.external.is_none();
        let shown: bool = own && d.instances.start < d.instances.end;
        let stale: bool = shown && layers.needs_raster(layer, sig, false);
        let rebuild: bool = glassy && own && glass && (dirty || stirred || stale);
        proof {
            counts_are_small(sc, order@, p as nat);
            assert(p * (p + 2) <= 65_534 * 65_536) by (nonlinear_arith)
                requires
                    p <= 65_534,
            ;
            assert(stale == sc.stale(layer));
            assert(rebuild == sc.rebuilds(layer, stirred));
        }
        if rebuild {
            let rel: u32 = count_before_glass(shapes, &d.instances);
            proof {
                assert(d.instances.start <= shapes@.len());
            }
            let end: u32 = d.instances.start + rel;
            steps.push(
                Step::Backdrop {
                    position: p,
                    raw_start: d.instances.start,
                    raw_end: end,
                    timed: opaque_timed && builds == 0,
                },
            );
            drawcalls = drawcalls + drawn_below;
            if rel > 0 {
                drawcalls = drawcalls + 1;
            }
            builds = builds + 1;
        }
        let redraw: bool = shown && layers.needs_raster(layer, sig, rebuild);
        assert(redraw == sc.redraws(layer, stirred));
        let ghost held = layers.pool();
        if redraw {
            steps.push(Step::Raster { layer, timed: final_timed && layer == 0 });
            drawcalls = drawcalls + 1;
            rasters = rasters + 1;
            layers.mark_rastered(layer, sig);
        }
        proof {
            assert(layers.pool()[layer as int] == sc.slot_after(order@, p as int));
            assert forall|q: int| 0 <= q < n && q != p implies layers.pool()[
                #[trigger] order@[q] as int
            ] == held[order@[q] as int] by {
                if q < p {
                    assert(further_back(draws@, order@[q], order@[p as int]));
                } else {
                    assert(further_back(draws@, order@[p as int], order@[q]));
                }
            }
        }
        let has_moved: bool = layer >= moved.len() || moved[layer];
        stirred = stirred || redraw || has_moved;
        if shown {
            drawn_below = drawn_below + 1;
        }
        p = p + 1;
    }
    proof {
        counts_are_small(sc, order@, n as nat);
    }
    Walk { order, steps, rasters, builds, drawcalls }
}

/// Where the texture of a composited layer comes from.
#[derive(Copy, Clone, Debug, PartialEq, Eq, Structural)]
pub enum Source {
    /// The layer's own texture.
    Slot,
    /// What the layer's node shows.
    External(Shown),
}

/// The texture that a layer is composited from: what its node shows, if the
/// layer stands for an outside texture that has been registered.
pub open spec fn source_of<N>(d: LayerDraw<N>, showing: Map<u32, Shown>) -> Source {
    match d.external {
        Some(node) if showing.contains_key(node.index) => Source::External(showing[node.index]),
        _ => Source::Slot,
    }
}

pub fn composite_sources<N: Num>(draws: &Vec<LayerDraw<N>>, textures: &ExternalTextures) -> (r: Vec<
    Source,
>)
    ensures
        r@.len() == draws@.len(),
        forall|i: int|
            0 <= i < r@.len() ==> #[trigger] r@[i] == source_of(draws@[i], textures.showing()),
{
    let mut r: Vec<Source> = Vec::new();
    let mut i: usize = 0;
    while i < draws.len()
        invariant
            i <= draws@.len(),
            r@.len() == i,
            forall|j: int|
                0 <= j < i ==> #[trigger] r@[j] == source_of(draws@[j], textures.showing()),
        decreases draws.len() - i,
    {
        let source: Source = match draws[i].external {
            Some(node) => match textures.get(node) {
                Some(s) => Source::External(s),
                None => Source::Slot,
            },
            None => Source::Slot,
        };
        r.push(source);
        i = i + 1;
    }
    r
}

/// The queries that each pass of a frame writes.
#[derive(Copy, Clone, Debug)]
pub struct PassQueries {
    pub alloc: PassAlloc,
    pub opaque: Option<(u32, u32)>,
    pub final_pass: Option<(u32, u32)>,
    pub od_count: Option<(u32, u32)>,
    pub od_compose: Option<(u32, u32)>,
}

/// The queries of a frame: none without timing; else a pair for the final
/// pass, after one for the backdrop and before two for overdraw where those
/// passes run.
pub open spec fn queries_for(q: PassQueries, timing: bool, backdrop: bool, overdraw: bool) -> bool {
    let first: u32 = if backdrop {
        2
    } else {
        0
    };
    &&& q.alloc.wf()
    &&& q.opaque == (if timing && backdrop {
        Some((0u32, 1u32))
    } else {
        None
    })
    &&& q.final_pass == (if timing {
        Some((first, (first + 1) as u32))
    } else {
        None
    })
    &&& q.od_count == (if timing && overdraw {
        Some(((first + 2) as u32, (first + 3) as u32))
    } else {
        None
    })
    &&& q.od_compose == (if timing && overdraw {
        Some(((first + 4) as u32, (first + 5) as u32))
    } else {
        None
    })
    &&& q.alloc.given() == (if !timing {
        0int
    } else if overdraw {
        first / 2 + 3
    } else {
        first / 2 + 1
    })
}

/// Hands out queries to the passes that may run.
pub fn pass_queries(timing: bool, backdrop: bool, overdraw: bool) -> (r: PassQueries)
    ensures
        queries_for(r, timing, backdrop, overdraw),
{
    let mut alloc = PassAlloc::new();
    let opaque: Option<(u32, u32)> = if timing && backdrop {
        Some(alloc.alloc_pair(PASS_OPAQUE))
    } else {
        None
    };
    let final_pass: Option<(u32, u32)> = if timing {
        Some(alloc.alloc_pair(PASS_FINAL))
    } else {
        None
    };
    let od_count: Option<(u32, u32)> = if timing && overdraw {
        Some(alloc.alloc_pair(PASS_OD_COUNT))
    } else {
        None
    };
    let od_compose: Option<(u32, u32)> = if timing && overdraw {
        Some(alloc.alloc_pair(PASS_OD_COMPOSE))
    } else {
        None
    };
    PassQueries { alloc, opaque, final_pass, od_count, od_compose }
}

/// If no layer is stale or has moved and no backdrop is to be built anew,
/// nothing is drawn and no backdrop is built.
pub proof fn still_scene_draws_nothing<N: Num>(sc: Scene<N>, order: Seq<usize>, p: nat)
    requires
        is_paint_order(sc.draws, order),
        p <= order.len(),
        !sc.dirty,
        forall|i: usize| i < sc.draws.len() ==> !#[trigger] sc.stale(i) && !sc.has_moved(i),
    ensures
        !sc.stirred(order, p),
        sc.steps(order, p, true, true) == Seq::<Step>::empty(),
        sc.steps(order, p, false, false) == Seq::<Step>::empty(),
        sc.rasters(order, p) == 0,
        sc.builds(order, p) == 0,
    decreases p,
{
    if p > 0 {
        still_scene_draws_nothing(sc, order, (p - 1) as nat);
        let layer = order[p - 1];
        assert(layer < sc.draws.len());
        assert(!sc.stale(layer));
    }
}

/// Without glass no backdrop is built, and exactly the stale layers are drawn:
/// where none is said to be there, or where no layer has any.
pub proof fn no_glass_no_backdrop<N: Num>(sc: Scene<N>, order: Seq<usize>, p: nat)
    requires
        is_paint_order(sc.draws, order),
        p <= order.len(),
        !sc.glassy || forall|i: usize|
            i < sc.draws.len() ==> !bears_glass(#[trigger] sc.shapes_of(i)),
    ensures
        sc.builds(order, p) == 0,
        p < order.len() ==> sc.redraws(order[p as int], sc.stirred(order, p)) == sc.stale(
            order[p as int],
        ),
    decreases p,
{
    if p < order.len() && sc.glassy {
        assert(!bears_glass(sc.shapes_of(order[p as int])));
    }
    if p > 0 {
        no_glass_no_backdrop(sc, order, (p - 1) as nat);
    }
}

/// Without glass, and with no layer stale, nothing is drawn and no backdrop is
/// built, whatever moved.
pub proof fn still_shapes_are_not_drawn<N: Num>(sc: Scene<N>, order: Seq<usize>, p: nat)
    requires
        is_paint_order(sc.draws, order),
        p <= order.len(),
        !sc.glassy,
        forall|i: usize| i < sc.draws.len() ==> !#[trigger] sc.stale(i),
    ensures
        sc.steps(order, p, true, true) == Seq::<Step>::empty(),
        sc.steps(order, p, false, false) == Seq::<Step>::empty(),
        sc.rasters(order, p) == 0,
        sc.builds(order, p) == 0,
    decreases p,
{
    if p > 0 {
        still_shapes_are_not_drawn(sc, order, (p - 1) as nat);
        let layer = order[p - 1];
        assert(layer < sc.draws.len());
        assert(!sc.stale(layer));
    }
}

/// If a layer is drawn or moved, every glass layer in front of it has its
/// backdrop built anew in the same frame.
pub proof fn glass_follows_what_is_below<N: Num>(
    sc: Scene<N>,
    order: Seq<usize>,
    below: nat,
    above: nat,
)
    requires
        is_paint_order(sc.draws, order),
        below < above < order.len(),
        sc.redraws(order[below as int], sc.stirred(order, below)) || sc.has_moved(
            order[below as int],
        ),
        sc.glassy,
        sc.draws[order[above as int] as int].external is None,
        bears_glass(sc.shapes_of(order[above as int])),
    ensures
        sc.stirred(order, above),
        sc.rebuilds(order[above as int], sc.stirred(order, above)),
    decreases above,
{
    stirring_carries_up(sc, order, below, above);
}

proof fn stirring_carries_up<N: Num>(sc: Scene<N>, order: Seq<usize>, below: nat, above: nat)
    requires
        below < above,
        sc.redraws(order[below as int], sc.stirred(order, below)) || sc.has_moved(
            order[below as int],
        ),
    ensures
        sc.stirred(order, above),
    decreases above,
{
    if below + 1 < above {
        stirring_carries_up(sc, order, below, (above - 1) as nat);
    }
}

/// After the frame no layer that was visited is stale.
pub proof fn frame_leaves_nothing_stale<N: Num>(sc: Scene<N>, order: Seq<usize>, p: int)
    requires
        is_paint_order(sc.draws, order),
        0 <= p < order.len(),
        sc.drawn_at_all(order[p]),
    ensures
        sc.slot_after(order, p).sig == Some(signature(sc.shapes_of(order[p]))),
{
}

/// Draw calls of one step.
pub open spec fn calls_of<N: Num>(sc: Scene<N>, order: Seq<usize>, s: Step) -> nat {
    match s {
        Step::Raster { .. } => 1,
        Step::Backdrop { position, raw_start, raw_end, .. } => sc.drawn_below(
            order,
            position as nat,
        ) + (if raw_start < raw_end {
            1nat
        } else {
            0
        }),
    }
}

/// Draw calls of the first `n` steps.
pub open spec fn calls_upto<N: Num>(
    sc: Scene<N>,
    order: Seq<usize>,
    steps: Seq<Step>,
    n: nat,
) -> nat
    decreases n,
{
    if n == 0 {
        0
    } else {
        calls_upto(sc, order, steps, (n - 1) as nat) + calls_of(sc, order, steps[n - 1])
    }
}

/// The shapes before the first pane of glass are plain, and the one behind them
/// is glass, unless there is none.
pub proof fn backdrops_end_at_the_glass(shapes: Seq<EncodedShape>)
    ensures
        before_glass(shapes) <= shapes.len(),
        forall|i: int| 0 <= i < before_glass(shapes) ==> !encoded_glass(#[trigger] shapes[i]),
        before_glass(shapes) < shapes.len() ==> encoded_glass(shapes[before_glass(shapes) as int]),
    decreases shapes.len(),
{
    if shapes.len() > 0 && !encoded_glass(shapes[0]) {
        backdrops_end_at_the_glass(shapes.skip(1));
        assert forall|i: int| 0 <= i < before_glass(shapes) implies !encoded_glass(
            #[trigger] shapes[i],
        ) by {
            if i > 0 {
                assert(shapes.skip(1)[i - 1] == shapes[i]);
            }
        }
    }
}

proof fn calls_of_a_prefix<N: Num>(
    sc: Scene<N>,
    order: Seq<usize>,
    a: Seq<Step>,
    b: Seq<Step>,
    n: nat,
)
    requires
        n <= a.len(),
        n <= b.len(),
        forall|i: int| 0 <= i < n ==> a[i] == b[i],
    ensures
        calls_upto(sc, order, a, n) == calls_upto(sc, order, b, n),
    decreases n,
{
    if n > 0 {
        calls_of_a_prefix(sc, order, a, b, (n - 1) as nat);
    }
}

/// The draw calls that are counted are those of the steps: one for each layer
/// that is drawn, and for each backdrop one for each layer with shapes below it
/// and one for its own shapes before the glass, if it has any.
pub proof fn draw_calls_are_those_of_the_steps<N: Num>(
    sc: Scene<N>,
    order: Seq<usize>,
    p: nat,
    opaque_timed: bool,
    final_timed: bool,
)
    requires
        is_paint_order(sc.draws, order),
        p <= order.len(),
        plannable(sc.draws, sc.shapes, sc.pool.len()),
    ensures
        ({
            let steps = sc.steps(order, p, opaque_timed, final_timed);
            sc.calls(order, p) == calls_upto(sc, order, steps, steps.len())
        }),
    decreases p,
{
    if p > 0 {
        let q = (p - 1) as nat;
        draw_calls_are_those_of_the_steps(sc, order, q, opaque_timed, final_timed);
        let layer = order[q as int];
        let below = sc.stirred(order, q);
        let s0 = sc.steps(order, q, opaque_timed, final_timed);
        let s1 = if sc.rebuilds(layer, below) {
            s0.push(sc.backdrop_step(order, q, opaque_timed))
        } else {
            s0
        };
        let s2 = sc.steps(order, p, opaque_timed, final_timed);
        calls_of_a_prefix(sc, order, s0, s1, s0.len());
        calls_of_a_prefix(sc, order, s1, s2, s1.len());
        backdrops_end_at_the_glass(sc.shapes_of(layer));
        let d = sc.draws[layer as int];
        assert(d.instances.start <= d.instances.end);
        let n = before_glass(sc.shapes_of(layer));
        if n > 0 {
            assert(sc.shapes_of(layer).len() > 0);
            assert(d.instances.start + n <= sc.shapes.len());
        }
        assert((d.instances.start + n) as u32 == d.instances.start + n);
    }
}

/// The layers are drawn from back to front, each at most once, and the backdrop
/// of a layer just before the layer itself: the step of a layer that is drawn
/// is a step for its own position, and comes after those of all positions below
/// it.
pub proof fn layers_are_drawn_from_back_to_front<N: Num>(
    sc: Scene<N>,
    order: Seq<usize>,
    p: nat,
    opaque_timed: bool,
    final_timed: bool,
    i: int,
    j: int,
)
    requires
        is_paint_order(sc.draws, order),
        p <= order.len(),
        plannable(sc.draws, sc.shapes, sc.pool.len()),
        0 <= i < j < sc.steps(order, p, opaque_timed, final_timed).len(),
    ensures
        ({
            let steps = sc.steps(order, p, opaque_timed, final_timed);
            match (steps[i], steps[j]) {
                (Step::Raster { layer: a, .. }, Step::Raster { layer: b, .. }) => further_back(
                    sc.draws,
                    a,
                    b,
                ),
                (Step::Raster { layer: a, .. }, Step::Backdrop { position, .. }) => further_back(
                    sc.draws,
                    a,
                    order[position as int],
                ),
                (Step::Backdrop { position, .. }, Step::Raster { layer: b, .. }) => (j == i + 1
                    && order[position as int] == b) || further_back(
                    sc.draws,
                    order[position as int],
                    b,
                ),
                (Step::Backdrop { position: a, .. }, Step::Backdrop { position: b, .. }) => a < b,
            }
        }),
    decreases p,
{
    let steps = sc.steps(order, p, opaque_timed, final_timed);
    let q = (p - 1) as nat;
    let s0 = sc.steps(order, q, opaque_timed, final_timed);
    let layer = order[q as int];
    steps_are_for_positions(sc, order, q, opaque_timed, final_timed);
    if j < s0.len() {
        layers_are_drawn_from_back_to_front(sc, order, q, opaque_timed, final_timed, i, j);
        assert(steps[i] == s0[i] && steps[j] == s0[j]);
    } else if i < s0.len() {
        assert(steps[i] == s0[i]);
        assert(step_is_for(order, q, s0[i]));
        match s0[i] {
            Step::Raster { layer: a, .. } => {
                let k = choose|k: int| 0 <= k < q && #[trigger] order[k] == a;
                assert(further_back(sc.draws, order[k], order[q as int]));
            },
            Step::Backdrop { position, .. } => {
                assert(further_back(sc.draws, order[position as int], order[q as int]));
            },
        }
    }
}

/// The step is for one of the first `p` positions.
pub open spec fn step_is_for(order: Seq<usize>, p: nat, s: Step) -> bool {
    match s {
        Step::Raster { layer, .. } => exists|k: int| 0 <= k < p && #[trigger] order[k] == layer,
        Step::Backdrop { position, .. } => position < p,
    }
}

proof fn steps_are_for_positions<N: Num>(
    sc: Scene<N>,
    order: Seq<usize>,
    p: nat,
    opaque_timed: bool,
    final_timed: bool,
)
    requires
        p <= order.len() <= MAX_LAYERS,
    ensures
        forall|i: int|
            0 <= i < sc.steps(order, p, opaque_timed, final_timed).len() ==> step_is_for(
                order,
                p,
                #[trigger] sc.steps(order, p, opaque_timed, final_timed)[i],
            ),
    decreases p,
{
    if p > 0 {
        let q = (p - 1) as nat;
        steps_are_for_positions(sc, order, q, opaque_timed, final_timed);
        let s0 = sc.steps(order, q, opaque_timed, final_timed);
        let steps = sc.steps(order, p, opaque_timed, final_timed);
        assert forall|i: int| 0 <= i < steps.len() implies step_is_for(
            order,
            p,
            #[trigger] steps[i],
        ) by {
            if i < s0.len() {
                assert(steps[i] == s0[i]);
                assert(step_is_for(order, q, s0[i]));
                if let Step::Raster { layer, .. } = s0[i] {
                    let k = choose|k: int| 0 <= k < q && #[trigger] order[k] == layer;
                    assert(order[k] == layer);
                }
            } else {
                assert(order[q as int] == order[p - 1]);
            }
        }
    }
}

/// A layer whose shapes have changed is drawn in the frame.
pub proof fn changed_layers_are_drawn<N: Num>(
    sc: Scene<N>,
    order: Seq<usize>,
    p: nat,
    opaque_timed: bool,
    final_timed: bool,
    k: int,
)
    requires
        0 <= k < p <= order.len(),
        ({
            let d = sc.draws[order[k] as int];
            &&& d.external is None
            &&& d.instances.start < d.instances.end
            &&& sc.pool[order[k] as int].sig != Some(signature(sc.shapes_of(order[k])))
        }),
    ensures
        exists|i: int|
            0 <= i < sc.steps(order, p, opaque_timed, final_timed).len() && (match #[trigger] sc.steps(
                order,
                p,
                opaque_timed,
                final_timed,
            )[i] {
                Step::Raster { layer, .. } => layer == order[k],
                _ => false,
            }),
    decreases p,
{
    let steps = sc.steps(order, p, opaque_timed, final_timed);
    let q = (p - 1) as nat;
    let s0 = sc.steps(order, q, opaque_timed, final_timed);
    if k < q {
        changed_layers_are_drawn(sc, order, q, opaque_timed, final_timed, k);
        let i = choose|i: int|
            0 <= i < s0.len() && (match #[trigger] s0[i] {
                Step::Raster { layer, .. } => layer == order[k],
                _ => false,
            });
        assert(steps[i] == s0[i]);
    } else {
        assert(steps.last() == steps[steps.len() - 1]);
        assert(steps[steps.len() - 1] is Raster);
    }
}

/// A layer for an outside texture shows what its node shows, if anything was
/// registered for it; any other layer shows its own texture.
pub proof fn outside_textures_are_shown<N>(d: LayerDraw<N>, showing: Map<u32, Shown>)
    ensures
        d.external is Some && showing.contains_key(d.external->0.index) ==> source_of(d, showing)
            == Source::External(showing[d.external->0.index]),
        d.external is None || !showing.contains_key(d.external->0.index) ==> source_of(d, showing)
            is Slot,
{
}

/// The pairs of queries of a frame lie one behind the other from the first query
/// on, in the order of the passes: backdrop, final pass, and the two of
/// overdraw. Without timing there are none.
pub proof fn queries_follow_one_another(
    q: PassQueries,
    timing: bool,
    backdrop: bool,
    overdraw: bool,
)
    requires
        queries_for(q, timing, backdrop, overdraw),
    ensures
        !timing ==> q.opaque is None && q.final_pass is None && q.od_count is None
            && q.od_compose is None,
        timing ==> q.final_pass is Some,
        q.opaque is Some <==> timing && backdrop,
        q.od_count is Some <==> timing && overdraw,
        q.od_compose is Some <==> timing && overdraw,
        q.opaque matches Some((a, b)) ==> a == 0 && b == 1,
        q.final_pass matches Some((a, b)) ==> b == a + 1 && a == (if q.opaque is Some {
            2u32
        } else {
            0u32
        }),
        q.od_count matches Some((a, b)) ==> b == a + 1 && (q.final_pass matches Some((_, e)) && a
            == e + 1),
        q.od_compose matches Some((a, b)) ==> b == a + 1 && (q.od_count matches Some((_, e)) && a
            == e + 1),
{
}

} // verus!
