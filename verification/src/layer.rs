//! The layer tree of the compositor.
//!
//! A layer caches the pixels of a subtree. The tree of layers is built
//! beside the node tree: every promoted subtree becomes a layer, and what is
//! painted before, between and behind the promoted ones becomes root
//! segments, in paint order. A change of pixels re-rasters a layer; a change
//! of its offset, scale or opacity only composites it anew, and survives
//! rebuilding the list of layers.
use std::collections::HashMap;
use std::ops::Range;

use vstd::prelude::*;

use crate::node::dirty;
use crate::node::{ExternalSpan, NodeId, ScrollSpan};
use crate::num::{eq2, equals2, one, zero, Num};

verus! {

broadcast use vstd::std_specs::hash::group_hash_axioms;

/// What a change of the tree asks of the compositor.
#[derive(Copy, Clone, Debug, PartialEq, Eq, Structural)]
pub struct Damage {
    /// Pixels changed: the layer must be rastered again.
    pub content: bool,
    /// Only positions changed: the cached pixels are composited anew.
    pub composite: bool,
}

impl Damage {
    /// Classifies a dirty mask: colour, topology and backdrop change pixels,
    /// transform and scroll change positions.
    pub fn classify(mask: u32) -> (r: Damage)
        ensures
            r.content == (mask & (dirty::VISUAL | dirty::TREE | dirty::BACKDROP) != 0),
            r.composite == (mask & (dirty::TRANSFORM | dirty::SCROLL) != 0),
    {
        let content_bits: u32 = dirty::VISUAL | dirty::TREE | dirty::BACKDROP;
        let composite_bits: u32 = dirty::TRANSFORM | dirty::SCROLL;
        Damage { content: mask & content_bits != 0, composite: mask & composite_bits != 0 }
    }

    /// Whether anything changed.
    pub fn any(&self) -> (r: bool)
        ensures
            r == (self.content || self.composite),
    {
        self.content || self.composite
    }
}

impl Default for Damage {
    fn default() -> (r: Damage)
        ensures
            !r.content,
            !r.composite,
    {
        Damage { content: false, composite: false }
    }
}

/// One cached part of the scene.
#[derive(Debug)]
pub struct Layer<N> {
    /// The promoted node, or none for a root segment.
    pub root: Option<NodeId>,
    /// The instances painted into the layer.
    pub instances: Range<usize>,
    /// Paint order: lower is painted first.
    pub z: i32,
    /// Composite offset in physical pixels.
    pub offset: [N; 2],
    /// Composite scale about the upper left corner.
    pub scale: [N; 2],
    pub opacity: N,
    /// Moves when the pixels change.
    pub content_epoch: u64,
    /// Size of the texture.
    pub size_px: [u32; 2],
    /// Geometry of a scroll layer.
    pub window: Option<ScrollSpan<N>>,
    /// Geometry of a layer whose texture is supplied from outside.
    pub external: Option<ExternalSpan<N>>,
    pub edge_fade: [N; 4],
    pub edge_fade_falloff: N,
}

/// Composite state of a promoted node.
#[derive(Copy, Clone, Debug)]
pub struct PromotedState<N> {
    pub offset: [N; 2],
    pub scale: [N; 2],
    pub opacity: N,
    pub content_epoch: u64,
}

/// The state of a node that was never moved: no offset, no scaling, opaque.
pub open spec fn identity_state<N: Num>() -> PromotedState<N> {
    PromotedState {
        offset: [zero(), zero()],
        scale: [one(), one()],
        opacity: one(),
        content_epoch: 0,
    }
}

impl<N: Num> Default for PromotedState<N> {
    fn default() -> (r: PromotedState<N>)
        ensures
            r == identity_state::<N>(),
    {
        let z: N = N::of_ratio(0, 1);
        let o: N = N::of_ratio(1, 1);
        PromotedState { offset: [z, z], scale: [o, o], opacity: o, content_epoch: 0 }
    }
}

/// A promoted subtree: the node, its instances, and its geometry where it
/// scrolls or shows a texture from outside.
#[derive(Debug)]
pub struct PromotedRange<N> {
    pub node: NodeId,
    pub instances: Range<u32>,
    pub scroll: Option<ScrollSpan<N>>,
    pub external: Option<ExternalSpan<N>>,
    pub edge_fade: [N; 4],
    pub edge_fade_falloff: N,
}

/// The layers of the scene.
pub struct LayerTree<N> {
    layers: Vec<Layer<N>>,
    state: HashMap<u32, PromotedState<N>>,
    root_epoch: u64,
    composite_dirty: bool,
}

/// The composite state of a node, or that of one that was never moved.
pub open spec fn state_of<N: Num>(states: Map<u32, PromotedState<N>>, node: NodeId) -> PromotedState<
    N,
> {
    if states.contains_key(node.index) {
        states[node.index]
    } else {
        identity_state()
    }
}

/// A root segment that covers the instances `start..end`.
pub open spec fn segment_layer<N: Num>(
    start: usize,
    end: usize,
    viewport: [u32; 2],
    z: i32,
    epoch: u64,
) -> Layer<N> {
    Layer {
        root: None,
        instances: Range { start, end },
        z,
        offset: [zero(), zero()],
        scale: [one(), one()],
        opacity: one(),
        content_epoch: epoch,
        size_px: viewport,
        window: None,
        external: None,
        edge_fade: [zero(), zero(), zero(), zero()],
        edge_fade_falloff: zero(),
    }
}

/// The layer of a promoted subtree. The texture of a scroll layer is as
/// large as its content.
pub open spec fn promoted_layer<N: Num>(
    p: PromotedRange<N>,
    st: PromotedState<N>,
    viewport: [u32; 2],
    z: i32,
) -> Layer<N> {
    Layer {
        root: Some(p.node),
        instances: Range { start: p.instances.start as usize, end: p.instances.end as usize },
        z,
        offset: st.offset,
        scale: st.scale,
        opacity: st.opacity,
        content_epoch: st.content_epoch,
        size_px: match p.scroll {
            Some(s) => [s.content[0].rounded_up().whole(), s.content[1].rounded_up().whole()],
            None => viewport,
        },
        window: p.scroll,
        external: p.external,
        edge_fade: p.edge_fade,
        edge_fade_falloff: p.edge_fade_falloff,
    }
}

/// The layers that the first `n` promoted subtrees and the segments before
/// them make.
pub open spec fn layers_before<N: Num>(
    promoted: Seq<PromotedRange<N>>,
    states: Map<u32, PromotedState<N>>,
    viewport: [u32; 2],
    epoch: u64,
    n: nat,
) -> Seq<Layer<N>>
    decreases n,
{
    if n == 0 {
        Seq::empty()
    } else {
        let ls = layers_before(promoted, states, viewport, epoch, (n - 1) as nat);
        let p = promoted[n - 1];
        let from = covered(promoted, (n - 1) as nat);
        let ls = if p.instances.start as usize > from {
            ls.push(
                segment_layer(
                    from,
                    p.instances.start as usize,
                    viewport,
                    ls.len() as i32,
                    epoch,
                ),
            )
        } else {
            ls
        };
        ls.push(promoted_layer(p, state_of(states, p.node), viewport, ls.len() as i32))
    }
}

/// Where the first `n` promoted subtrees end.
pub open spec fn covered<N>(promoted: Seq<PromotedRange<N>>, n: nat) -> usize {
    if n == 0 {
        0
    } else {
        promoted[n - 1].instances.end as usize
    }
}

/// All layers of a stream of `total` instances.
pub open spec fn layers_of<N: Num>(
    promoted: Seq<PromotedRange<N>>,
    states: Map<u32, PromotedState<N>>,
    viewport: [u32; 2],
    epoch: u64,
    total: usize,
) -> Seq<Layer<N>> {
    let ls = layers_before(promoted, states, viewport, epoch, promoted.len());
    let from = covered(promoted, promoted.len());
    if from < total || ls.len() == 0 {
        ls.push(segment_layer(from, total, viewport, ls.len() as i32, epoch))
    } else {
        ls
    }
}

/// How many of the first `n` promoted subtrees belong to the node with this
/// index.
pub open spec fn occurrences<N>(promoted: Seq<PromotedRange<N>>, index: u32, n: nat) -> nat
    decreases n,
{
    if n == 0 {
        0
    } else {
        occurrences(promoted, index, (n - 1) as nat) + if promoted[n - 1].node.index == index {
            1nat
        } else {
            0nat
        }
    }
}

/// The composite states after the first `n` promoted subtrees: a promoted
/// node keeps its state, or starts unmoved, and its epoch moves once for each
/// of its ranges when pixels changed; any other node's state is gone.
pub open spec fn states_upto<N: Num>(
    before: Map<u32, PromotedState<N>>,
    after: Map<u32, PromotedState<N>>,
    promoted: Seq<PromotedRange<N>>,
    content: bool,
    n: nat,
) -> bool {
    forall|index: u32| #[trigger] state_right(before, after, promoted, content, n, index)
}

/// The composite state of one node index after the first `n` promoted
/// subtrees.
pub open spec fn state_right<N: Num>(
    before: Map<u32, PromotedState<N>>,
    after: Map<u32, PromotedState<N>>,
    promoted: Seq<PromotedRange<N>>,
    content: bool,
    n: nat,
    index: u32,
) -> bool {
    let times = occurrences(promoted, index, n);
    &&& after.contains_key(index) == (times > 0)
    &&& after.contains_key(index) ==> after[index] == state_bumped(
        state_of(before, NodeId { index }),
        if content {
            times
        } else {
            0
        },
    )
}

/// The composite states after a rebuild.
pub open spec fn states_after<N: Num>(
    before: Map<u32, PromotedState<N>>,
    after: Map<u32, PromotedState<N>>,
    promoted: Seq<PromotedRange<N>>,
    content: bool,
) -> bool {
    states_upto(before, after, promoted, content, promoted.len())
}

proof fn occurrences_bound<N>(promoted: Seq<PromotedRange<N>>, index: u32, n: nat)
    ensures
        occurrences(promoted, index, n) <= n,
    decreases n,
{
    if n > 0 {
        occurrences_bound(promoted, index, (n - 1) as nat);
    }
}

/// A state whose epoch has moved `by` steps.
pub open spec fn state_bumped<N>(s: PromotedState<N>, by: nat) -> PromotedState<N> {
    PromotedState { content_epoch: (s.content_epoch + by) as u64, ..s }
}

fn root_segment<N: Num>(
    start: usize,
    end: usize,
    viewport: [u32; 2],
    z: i32,
    epoch: u64,
) -> (r: Layer<N>)
    ensures
        r == segment_layer::<N>(start, end, viewport, z, epoch),
{
    let zr: N = N::of_ratio(0, 1);
    let o: N = N::of_ratio(1, 1);
    Layer {
        root: None,
        instances: Range { start, end },
        z,
        offset: [zr, zr],
        scale: [o, o],
        opacity: o,
        content_epoch: epoch,
        size_px: viewport,
        window: None,
        external: None,
        edge_fade: [zr, zr, zr, zr],
        edge_fade_falloff: zr,
    }
}

/// The layer after its node's offset was set.
pub open spec fn layer_moved<N>(l: Layer<N>, node: NodeId, offset: [N; 2]) -> Layer<N> {
    if l.root == Some(node) {
        Layer { offset, ..l }
    } else {
        l
    }
}

/// The layer after its node's opacity was set.
pub open spec fn layer_faded<N>(l: Layer<N>, node: NodeId, opacity: N) -> Layer<N> {
    if l.root == Some(node) {
        Layer { opacity, ..l }
    } else {
        l
    }
}

/// The layer after its node's scale was set.
pub open spec fn layer_scaled<N>(l: Layer<N>, node: NodeId, scale: [N; 2]) -> Layer<N> {
    if l.root == Some(node) {
        Layer { scale, ..l }
    } else {
        l
    }
}

impl<N: Num> LayerTree<N> {
    /// The layers in paint order.
    pub closed spec fn list(&self) -> Seq<Layer<N>> {
        self.layers@
    }

    /// Composite states by node index.
    pub closed spec fn states(&self) -> Map<u32, PromotedState<N>> {
        self.state@
    }

    /// Epoch of the root segments.
    pub closed spec fn epoch(&self) -> u64 {
        self.root_epoch
    }

    /// Whether a composite-only change is waiting.
    pub closed spec fn waiting(&self) -> bool {
        self.composite_dirty
    }

    /// One root layer without instances.
    pub fn single_root() -> (r: LayerTree<N>)
        ensures
            r.list() == seq![segment_layer::<N>(0, 0, [0u32, 0u32], 0, 0)],
            r.states() == Map::<u32, PromotedState<N>>::empty(),
            r.epoch() == 0,
            !r.waiting(),
    {
        let mut layers: Vec<Layer<N>> = Vec::new();
        layers.push(root_segment(0, 0, [0, 0], 0, 0));
        assert(layers@ =~= seq![segment_layer::<N>(0, 0, [0u32, 0u32], 0, 0)]);
        LayerTree { layers, state: HashMap::new(), root_epoch: 0, composite_dirty: false }
    }

    /// The layers in paint order.
    pub fn layers(&self) -> (r: &Vec<Layer<N>>)
        ensures
            r@ == self.list(),
    {
        &self.layers
    }

    /// The layer painted first.
    pub fn root_layer(&self) -> (r: &Layer<N>)
        requires
            self.list().len() > 0,
        ensures
            *r == self.list()[0],
    {
        &self.layers[0]
    }

    fn state_for(&self, node: NodeId) -> (r: PromotedState<N>)
        ensures
            r == state_of(self.states(), node),
    {
        match self.state.get(&node.index) {
            Some(s) => *s,
            None => PromotedState::default(),
        }
    }

    /// Sets the composite offset of a promoted node. Returns whether it
    /// differs from before; if so the live layers have it at once.
    pub fn set_offset(&mut self, node: NodeId, offset: [N; 2]) -> (r: bool)
        ensures
            r == !equals2(state_of(old(self).states(), node).offset, offset),
            final(self).states() == old(self).states().insert(
                node.index,
                if r {
                    PromotedState { offset, ..state_of(old(self).states(), node) }
                } else {
                    state_of(old(self).states(), node)
                },
            ),
            final(self).list().len() == old(self).list().len(),
            forall|i: int|
                0 <= i < old(self).list().len() ==> #[trigger] final(self).list()[i] == if r {
                    layer_moved(old(self).list()[i], node, offset)
                } else {
                    old(self).list()[i]
                },
            final(self).epoch() == old(self).epoch(),
            final(self).waiting() == (old(self).waiting() || r),
    {
        let mut st: PromotedState<N> = self.state_for(node);
        if eq2(st.offset, offset) {
            self.state.insert(node.index, st);
            return false;
        }
        st.offset = offset;
        self.state.insert(node.index, st);
        self.composite_dirty = true;
        let ghost before = self.layers@;
        let mut i: usize = 0;
        while i < self.layers.len()
            invariant
                i <= self.layers@.len(),
                self.layers@.len() == before.len(),
                self.state@ == old(self).state@.insert(
                    node.index,
                    PromotedState { offset, ..state_of(old(self).states(), node) },
                ),
                self.root_epoch == old(self).root_epoch,
                self.composite_dirty,
                forall|k: int|
                    0 <= k < i ==> #[trigger] self.layers@[k] == layer_moved(
                        before[k],
                        node,
                        offset,
                    ),
                forall|k: int| i <= k < before.len() ==> #[trigger] self.layers@[k] == before[k],
            decreases self.layers@.len() - i,
        {
            if let Some(root) = self.layers[i].root {
                if root == node {
                    self.layers[i].offset = offset;
                }
            }
            i += 1;
        }
        true
    }

    /// Sets the composite opacity of a promoted node. Returns whether it
    /// differs from before; if so the live layers have it at once.
    pub fn set_opacity(&mut self, node: NodeId, opacity: N) -> (r: bool)
        ensures
            r == !state_of(old(self).states(), node).opacity.equals(opacity),
            final(self).states() == old(self).states().insert(
                node.index,
                if r {
                    PromotedState { opacity, ..state_of(old(self).states(), node) }
                } else {
                    state_of(old(self).states(), node)
                },
            ),
            final(self).list().len() == old(self).list().len(),
            forall|i: int|
                0 <= i < old(self).list().len() ==> #[trigger] final(self).list()[i] == if r {
                    layer_faded(old(self).list()[i], node, opacity)
                } else {
                    old(self).list()[i]
                },
            final(self).epoch() == old(self).epoch(),
            final(self).waiting() == (old(self).waiting() || r),
    {
        let mut st: PromotedState<N> = self.state_for(node);
        if st.opacity.eq(opacity) {
            self.state.insert(node.index, st);
            return false;
        }
        st.opacity = opacity;
        self.state.insert(node.index, st);
        self.composite_dirty = true;
        let ghost before = self.layers@;
        let mut i: usize = 0;
        while i < self.layers.len()
            invariant
                i <= self.layers@.len(),
                self.layers@.len() == before.len(),
                self.state@ == old(self).state@.insert(
                    node.index,
                    PromotedState { opacity, ..state_of(old(self).states(), node) },
                ),
                self.root_epoch == old(self).root_epoch,
                self.composite_dirty,
                forall|k: int|
                    0 <= k < i ==> #[trigger] self.layers@[k] == layer_faded(
                        before[k],
                        node,
                        opacity,
                    ),
                forall|k: int| i <= k < before.len() ==> #[trigger] self.layers@[k] == before[k],
            decreases self.layers@.len() - i,
        {
            if let Some(root) = self.layers[i].root {
                if root == node {
                    self.layers[i].opacity = opacity;
                }
            }
            i += 1;
        }
        true
    }

    /// Sets the composite scale of a promoted node. Returns whether it
    /// differs from before; if so the live layers have it at once.
    pub fn set_scale(&mut self, node: NodeId, scale: [N; 2]) -> (r: bool)
        ensures
            r == !equals2(state_of(old(self).states(), node).scale, scale),
            final(self).states() == old(self).states().insert(
                node.index,
                if r {
                    PromotedState { scale, ..state_of(old(self).states(), node) }
                } else {
                    state_of(old(self).states(), node)
                },
            ),
            final(self).list().len() == old(self).list().len(),
            forall|i: int|
                0 <= i < old(self).list().len() ==> #[trigger] final(self).list()[i] == if r {
                    layer_scaled(old(self).list()[i], node, scale)
                } else {
                    old(self).list()[i]
                },
            final(self).epoch() == old(self).epoch(),
            final(self).waiting() == (old(self).waiting() || r),
    {
        let mut st: PromotedState<N> = self.state_for(node);
        if eq2(st.scale, scale) {
            self.state.insert(node.index, st);
            return false;
        }
        st.scale = scale;
        self.state.insert(node.index, st);
        self.composite_dirty = true;
        let ghost before = self.layers@;
        let mut i: usize = 0;
        while i < self.layers.len()
            invariant
                i <= self.layers@.len(),
                self.layers@.len() == before.len(),
                self.state@ == old(self).state@.insert(
                    node.index,
                    PromotedState { scale, ..state_of(old(self).states(), node) },
                ),
                self.root_epoch == old(self).root_epoch,
                self.composite_dirty,
                forall|k: int|
                    0 <= k < i ==> #[trigger] self.layers@[k] == layer_scaled(
                        before[k],
                        node,
                        scale,
                    ),
                forall|k: int| i <= k < before.len() ==> #[trigger] self.layers@[k] == before[k],
            decreases self.layers@.len() - i,
        {
            if let Some(root) = self.layers[i].root {
                if root == node {
                    self.layers[i].scale = scale;
                }
            }
            i += 1;
        }
        true
    }

    /// Takes the composite-only change that is waiting.
    pub fn take_composite_dirty(&mut self) -> (r: bool)
        ensures
            r == old(self).waiting(),
            !final(self).waiting(),
            final(self).list() == old(self).list(),
            final(self).states() == old(self).states(),
            final(self).epoch() == old(self).epoch(),
    {
        let was: bool = self.composite_dirty;
        self.composite_dirty = false;
        was
    }

    /// No epoch overflows when it moves `n` steps.
    pub open spec fn epochs_can_move(&self, n: nat) -> bool {
        &&& self.epoch() + 1 <= u64::MAX
        &&& forall|index: u32| #[trigger]
            self.states().contains_key(index) ==> self.states()[index].content_epoch + n
                <= u64::MAX
    }

    /// Builds the layers anew from the promoted subtrees, given in paint
    /// order.
    pub fn rebuild(
        &mut self,
        promoted: &Vec<PromotedRange<N>>,
        total: usize,
        viewport: [u32; 2],
        damage: Damage,
    )
        requires
            promoted@.len() < 0x4000_0000,
            damage.content ==> old(self).epochs_can_move(promoted@.len()),
        ensures
            final(self).epoch() == if damage.content {
                (old(self).epoch() + 1) as u64
            } else {
                old(self).epoch()
            },
            states_after(old(self).states(), final(self).states(), promoted@, damage.content),
            final(self).list() == layers_of(
                promoted@,
                final(self).states(),
                viewport,
                final(self).epoch(),
                total,
            ),
            final(self).list().len() > 0,
            final(self).waiting() == old(self).waiting(),
    {
        let ghost before = self.state@;
        let ghost count = promoted@.len();
        assert(before == old(self).states());
        if damage.content {
            self.root_epoch = self.root_epoch + 1;
        }
        let mut state: HashMap<u32, PromotedState<N>> = HashMap::new();
        let mut i: usize = 0;
        while i < promoted.len()
            invariant
                i <= promoted@.len(),
                count == promoted@.len(),
                self.state@ == before,
                self.root_epoch == if damage.content {
                    (old(self).root_epoch + 1) as u64
                } else {
                    old(self).root_epoch
                },
                self.composite_dirty == old(self).composite_dirty,
                before == old(self).states(),
                damage.content ==> forall|index: u32| #[trigger]
                    before.contains_key(index) ==> before[index].content_epoch + count <= u64::MAX,
                states_upto(before, state@, promoted@, damage.content, i as nat),
            decreases promoted@.len() - i,
        {
            let node: NodeId = promoted[i].node;
            let ghost was = state@;
            let mut st: PromotedState<N> = match state.get(&node.index) {
                Some(s) => *s,
                None => self.state_for(node),
            };
            assert(state_right(before, was, promoted@, damage.content, i as nat, node.index));
            assert(st == state_bumped(
                state_of(before, node),
                if damage.content {
                    occurrences(promoted@, node.index, i as nat)
                } else {
                    0
                },
            ));
            if damage.content {
                proof {
                    occurrences_bound(promoted@, node.index, i as nat);
                }
                assert(state_of(before, node).content_epoch + count <= u64::MAX) by {
                    if before.contains_key(node.index) {
                        assert(before[node.index].content_epoch + count <= u64::MAX);
                    }
                }
                st.content_epoch = st.content_epoch + 1;
            }
            state.insert(node.index, st);
            i += 1;
            assert forall|index: u32| #[trigger] state_right(
                before,
                state@,
                promoted@,
                damage.content,
                i as nat,
                index,
            ) by {
                assert(state_right(before, was, promoted@, damage.content, (i - 1) as nat, index));
            }
        }
        assert(states_after(before, state@, promoted@, damage.content));
        self.state = state;
        let mut layers: Vec<Layer<N>> = Vec::new();
        let mut z: i32 = 0;
        let mut cursor: usize = 0;
        let mut j: usize = 0;
        let ghost states = self.state@;
        let epoch: u64 = self.root_epoch;
        while j < promoted.len()
            invariant
                j <= promoted@.len(),
                promoted@.len() < 0x4000_0000,
                self.state@ == states,
                self.root_epoch == epoch,
                self.composite_dirty == old(self).composite_dirty,
                cursor == covered(promoted@, j as nat),
                layers@ == layers_before(promoted@, states, viewport, epoch, j as nat),
                z == layers@.len(),
                layers@.len() <= 2 * j,
                j > 0 ==> layers@.len() > 0,
            decreases promoted@.len() - j,
        {
            let p: &PromotedRange<N> = &promoted[j];
            let start: usize = p.instances.start as usize;
            let end: usize = p.instances.end as usize;
            if start > cursor {
                layers.push(root_segment(cursor, start, viewport, z, epoch));
                z += 1;
            }
            let st: PromotedState<N> = self.state_for(p.node);
            let size_px: [u32; 2] = match p.scroll {
                Some(s) => [s.content[0].ceil().to_u32(), s.content[1].ceil().to_u32()],
                None => viewport,
            };
            layers.push(
                Layer {
                    root: Some(p.node),
                    instances: Range { start, end },
                    z,
                    offset: st.offset,
                    scale: st.scale,
                    opacity: st.opacity,
                    content_epoch: st.content_epoch,
                    size_px,
                    window: p.scroll,
                    external: p.external,
                    edge_fade: p.edge_fade,
                    edge_fade_falloff: p.edge_fade_falloff,
                },
            );
            z += 1;
            cursor = end;
            j += 1;
        }
        if cursor < total || layers.len() == 0 {
            layers.push(root_segment(cursor, total, viewport, z, epoch));
        }
        self.layers = layers;
    }
}

impl<N: Num> Default for LayerTree<N> {
    fn default() -> (r: LayerTree<N>)
        ensures
            r.list() == seq![segment_layer::<N>(0, 0, [0u32, 0u32], 0, 0)],
            r.states() == Map::<u32, PromotedState<N>>::empty(),
    {
        LayerTree::single_root()
    }
}

/// The promoted subtrees come in paint order, do not overlap, and lie within
/// the stream.
pub open spec fn in_paint_order<N>(promoted: Seq<PromotedRange<N>>, total: usize) -> bool {
    &&& forall|i: int|
        0 <= i < promoted.len() ==> (#[trigger] promoted[i]).instances.start
            <= promoted[i].instances.end && promoted[i].instances.end as usize <= total
    &&& forall|i: int, j: int|
        0 <= i < j < promoted.len() ==> (#[trigger] promoted[i]).instances.end <= (
        #[trigger] promoted[j]).instances.start
}

/// Layers that follow each other without gap or overlap from `0` to `end`,
/// numbered from the bottom.
pub open spec fn tile<N>(ls: Seq<Layer<N>>, end: usize) -> bool {
    &&& ls.len() > 0 ==> ls[0].instances.start == 0 && ls.last().instances.end == end
    &&& ls.len() == 0 ==> end == 0
    &&& forall|k: int|
        0 <= k < ls.len() - 1 ==> (#[trigger] ls[k]).instances.end == ls[k + 1].instances.start
    &&& forall|k: int| 0 <= k < ls.len() ==> (#[trigger] ls[k]).z == k
}

proof fn tile_push<N>(ls: Seq<Layer<N>>, from: usize, l: Layer<N>)
    requires
        tile(ls, from),
        l.instances.start == from,
        l.z == ls.len(),
    ensures
        tile(ls.push(l), l.instances.end),
{
    let out = ls.push(l);
    assert forall|k: int| 0 <= k < out.len() - 1 implies (#[trigger] out[k]).instances.end == out[k
        + 1].instances.start by {
        if k + 1 < ls.len() {
            assert(ls[k].instances.end == ls[k + 1].instances.start);
        } else {
            assert(ls.last() == ls[k]);
        }
    }
    if ls.len() > 0 {
        assert(out[0] == ls[0]);
    }
}

proof fn layers_before_tile<N: Num>(
    promoted: Seq<PromotedRange<N>>,
    states: Map<u32, PromotedState<N>>,
    viewport: [u32; 2],
    epoch: u64,
    total: usize,
    n: nat,
)
    requires
        in_paint_order(promoted, total),
        n <= promoted.len() < 0x4000_0000,
    ensures
        tile(layers_before(promoted, states, viewport, epoch, n), covered(promoted, n)),
        layers_before(promoted, states, viewport, epoch, n).len() <= 2 * n,
    decreases n,
{
    if n > 0 {
        layers_before_tile(promoted, states, viewport, epoch, total, (n - 1) as nat);
        let ls = layers_before(promoted, states, viewport, epoch, (n - 1) as nat);
        let p = promoted[n - 1];
        let from = covered(promoted, (n - 1) as nat);
        let start = p.instances.start as usize;
        assert(from <= start) by {
            if n > 1 {
                assert(promoted[n - 2].instances.end <= promoted[n - 1].instances.start);
            }
        }
        let ls1 = if start > from {
            let seg = segment_layer::<N>(from, start, viewport, ls.len() as i32, epoch);
            tile_push(ls, from, seg);
            ls.push(seg)
        } else {
            ls
        };
        tile_push(
            ls1,
            start,
            promoted_layer(p, state_of(states, p.node), viewport, ls1.len() as i32),
        );
    }
}

/// Promoted subtrees given in paint order split the stream into layers that
/// cover it from end to end, without gap or overlap, numbered in paint order.
pub proof fn layers_tile_the_stream<N: Num>(
    promoted: Seq<PromotedRange<N>>,
    states: Map<u32, PromotedState<N>>,
    viewport: [u32; 2],
    epoch: u64,
    total: usize,
)
    requires
        in_paint_order(promoted, total),
        promoted.len() < 0x4000_0000,
    ensures
        layers_of(promoted, states, viewport, epoch, total).len() > 0,
        tile(layers_of(promoted, states, viewport, epoch, total), total),
{
    layers_before_tile(promoted, states, viewport, epoch, total, promoted.len());
    let ls = layers_before(promoted, states, viewport, epoch, promoted.len());
    let from = covered(promoted, promoted.len());
    assert(from <= total);
    if from < total || ls.len() == 0 {
        tile_push(ls, from, segment_layer::<N>(from, total, viewport, ls.len() as i32, epoch));
    }
}

/// A node that stays promoted keeps its offset, scale and opacity through a
/// rebuild, and its epoch when no pixels changed.
pub proof fn composite_state_survives_rebuild<N: Num>(
    before: Map<u32, PromotedState<N>>,
    after: Map<u32, PromotedState<N>>,
    promoted: Seq<PromotedRange<N>>,
    content: bool,
    i: int,
)
    requires
        states_after(before, after, promoted, content),
        0 <= i < promoted.len(),
    ensures
        ({
            let was = state_of(before, promoted[i].node);
            let is = state_of(after, promoted[i].node);
            &&& is.offset == was.offset
            &&& is.scale == was.scale
            &&& is.opacity == was.opacity
            &&& !content ==> is.content_epoch == was.content_epoch
        }),
{
    let index = promoted[i].node.index;
    assert(state_right(before, after, promoted, content, promoted.len(), index));
    occurs(promoted, i, promoted.len());
}

proof fn occurs<N>(promoted: Seq<PromotedRange<N>>, i: int, n: nat)
    requires
        0 <= i < n <= promoted.len(),
    ensures
        occurrences(promoted, promoted[i].node.index, n) > 0,
    decreases n,
{
    if i < n - 1 {
        occurs(promoted, i, (n - 1) as nat);
    }
}

/// The state of a node that is no longer promoted is forgotten: promoted
/// again later, it starts unmoved.
pub proof fn vanished_promotion_is_forgotten<N: Num>(
    before: Map<u32, PromotedState<N>>,
    after: Map<u32, PromotedState<N>>,
    promoted: Seq<PromotedRange<N>>,
    content: bool,
    node: NodeId,
)
    requires
        states_after(before, after, promoted, content),
        forall|i: int| 0 <= i < promoted.len() ==> (#[trigger] promoted[i]).node != node,
    ensures
        state_of(after, node) == identity_state::<N>(),
{
    assert(state_right(before, after, promoted, content, promoted.len(), node.index));
    never_occurs(promoted, node, promoted.len());
}

proof fn never_occurs<N>(promoted: Seq<PromotedRange<N>>, node: NodeId, n: nat)
    requires
        n <= promoted.len(),
        forall|i: int| 0 <= i < promoted.len() ==> (#[trigger] promoted[i]).node != node,
    ensures
        occurrences(promoted, node.index, n) == 0,
    decreases n,
{
    if n > 0 {
        never_occurs(promoted, node, (n - 1) as nat);
        assert(promoted[n - 1].node != node);
    }
}

/// Setting an offset that was just set is no change, provided the offset is
/// equal to itself.
pub proof fn repeated_offset_is_no_change<N: Num>(
    states: Map<u32, PromotedState<N>>,
    node: NodeId,
    offset: [N; 2],
)
    requires
        equals2(offset, offset),
    ensures
        equals2(
            state_of(
                states.insert(
                    node.index,
                    PromotedState { offset, ..state_of(states, node) },
                ),
                node,
            ).offset,
            offset,
        ),
{
}

/// The layers of promoted subtrees among some layers, in the same order.
pub open spec fn rooted<N>(ls: Seq<Layer<N>>) -> Seq<Layer<N>>
    decreases ls.len(),
{
    if ls.len() == 0 {
        Seq::empty()
    } else if ls.last().root is Some {
        rooted(ls.drop_last()).push(ls.last())
    } else {
        rooted(ls.drop_last())
    }
}

/// A layer shows a promoted subtree in its composite state.
pub open spec fn shows_subtree<N: Num>(
    l: Layer<N>,
    p: PromotedRange<N>,
    states: Map<u32, PromotedState<N>>,
) -> bool {
    let st = state_of(states, p.node);
    &&& l.root == Some(p.node)
    &&& l.instances.start == p.instances.start
    &&& l.instances.end == p.instances.end
    &&& l.offset == st.offset
    &&& l.scale == st.scale
    &&& l.opacity == st.opacity
    &&& l.content_epoch == st.content_epoch
    &&& l.window == p.scroll
    &&& l.external == p.external
}

/// Layers numbered from the bottom, whose root segments are not empty and
/// have the epoch `epoch`.
pub open spec fn stacked<N>(ls: Seq<Layer<N>>, epoch: u64) -> bool {
    forall|k: int|
        0 <= k < ls.len() ==> (#[trigger] ls[k]).z == k && (ls[k].root is None
            ==> ls[k].content_epoch == epoch && (ls[k].instances.start < ls[k].instances.end
            || ls.len() == 1))
}

proof fn rooted_push<N>(ls: Seq<Layer<N>>, l: Layer<N>)
    ensures
        rooted(ls.push(l)) == if l.root is Some {
            rooted(ls).push(l)
        } else {
            rooted(ls)
        },
{
    assert(ls.push(l).drop_last() =~= ls);
}

proof fn layers_before_are_stacked<N: Num>(
    promoted: Seq<PromotedRange<N>>,
    states: Map<u32, PromotedState<N>>,
    viewport: [u32; 2],
    epoch: u64,
    n: nat,
)
    requires
        n <= promoted.len() < 0x4000_0000,
    ensures
        ({
            let ls = layers_before(promoted, states, viewport, epoch, n);
            &&& ls.len() <= 2 * n
            &&& n > 0 ==> ls.len() > 0
            &&& forall|k: int|
                0 <= k < ls.len() ==> (#[trigger] ls[k]).z == k && (ls[k].root is None
                    ==> ls[k].content_epoch == epoch && ls[k].instances.start
                    < ls[k].instances.end)
            &&& rooted(ls).len() == n
            &&& forall|k: int|
                0 <= k < n ==> shows_subtree(#[trigger] rooted(ls)[k], promoted[k], states)
        }),
    decreases n,
{
    if n > 0 {
        layers_before_are_stacked(promoted, states, viewport, epoch, (n - 1) as nat);
        let ls = layers_before(promoted, states, viewport, epoch, (n - 1) as nat);
        let p = promoted[n - 1];
        let from = covered(promoted, (n - 1) as nat);
        let start = p.instances.start as usize;
        let ls1 = if start > from {
            let seg = segment_layer::<N>(from, start, viewport, ls.len() as i32, epoch);
            rooted_push(ls, seg);
            ls.push(seg)
        } else {
            ls
        };
        rooted_push(
            ls1,
            promoted_layer(p, state_of(states, p.node), viewport, ls1.len() as i32),
        );
    }
}

/// The layers of promoted subtrees are exactly the promoted ranges, in their
/// order, each in the composite state of its node. All layers are numbered
/// from the bottom, and a root segment is empty only where it is the only
/// layer.
pub proof fn promoted_ranges_are_the_rooted_layers<N: Num>(
    promoted: Seq<PromotedRange<N>>,
    states: Map<u32, PromotedState<N>>,
    viewport: [u32; 2],
    epoch: u64,
    total: usize,
)
    requires
        promoted.len() < 0x4000_0000,
    ensures
        ({
            let ls = layers_of(promoted, states, viewport, epoch, total);
            &&& stacked(ls, epoch)
            &&& rooted(ls).len() == promoted.len()
            &&& forall|k: int|
                0 <= k < promoted.len() ==> shows_subtree(
                    #[trigger] rooted(ls)[k],
                    promoted[k],
                    states,
                )
        }),
{
    layers_before_are_stacked(promoted, states, viewport, epoch, promoted.len());
    let ls = layers_before(promoted, states, viewport, epoch, promoted.len());
    let from = covered(promoted, promoted.len());
    rooted_push(ls, segment_layer::<N>(from, total, viewport, ls.len() as i32, epoch));
}

/// When pixels changed, the epoch of every node that is promoted once moves
/// by exactly one; otherwise none moves.
pub proof fn epochs_move_with_the_pixels<N: Num>(
    before: Map<u32, PromotedState<N>>,
    after: Map<u32, PromotedState<N>>,
    promoted: Seq<PromotedRange<N>>,
    content: bool,
    i: int,
)
    requires
        states_after(before, after, promoted, content),
        0 <= i < promoted.len(),
        forall|j: int| 0 <= j < promoted.len() && j != i ==> (#[trigger] promoted[j]).node
            != promoted[i].node,
        content ==> state_of(before, promoted[i].node).content_epoch < u64::MAX,
    ensures
        state_of(after, promoted[i].node).content_epoch == state_of(
            before,
            promoted[i].node,
        ).content_epoch + (if content {
            1int
        } else {
            0
        }),
{
    let index = promoted[i].node.index;
    assert(state_right(before, after, promoted, content, promoted.len(), index));
    occurs_once(promoted, i, promoted.len());
}

proof fn occurs_once<N>(promoted: Seq<PromotedRange<N>>, i: int, n: nat)
    requires
        0 <= i < promoted.len(),
        n <= promoted.len(),
        forall|j: int| 0 <= j < promoted.len() && j != i ==> (#[trigger] promoted[j]).node
            != promoted[i].node,
    ensures
        occurrences(promoted, promoted[i].node.index, n) == if i < n {
            1nat
        } else {
            0
        },
    decreases n,
{
    if n > 0 {
        occurs_once(promoted, i, (n - 1) as nat);
        if n - 1 != i {
            assert(promoted[n - 1].node != promoted[i].node);
        }
    }
}

/// However often the layers are rebuilt, a node that is promoted every time
/// keeps its offset, scale and opacity, and its epoch where no pixels change.
/// `states[r]` and `states[r + 1]` are the composite states before and after
/// rebuild `r`.
pub proof fn composite_state_survives_all_rebuilds<N: Num>(
    states: Seq<Map<u32, PromotedState<N>>>,
    promoted: Seq<Seq<PromotedRange<N>>>,
    content: Seq<bool>,
    node: NodeId,
    n: nat,
)
    requires
        states.len() == promoted.len() + 1,
        content.len() == promoted.len(),
        n <= promoted.len(),
        forall|r: int|
            0 <= r < promoted.len() ==> states_after(
                states[r],
                states[r + 1],
                #[trigger] promoted[r],
                content[r],
            ),
        forall|r: int| 0 <= r < promoted.len() ==> promotes(#[trigger] promoted[r], node),
    ensures
        ({
            let was = state_of(states[0], node);
            let is = state_of(states[n as int], node);
            &&& is.offset == was.offset
            &&& is.scale == was.scale
            &&& is.opacity == was.opacity
            &&& (forall|r: int| 0 <= r < n ==> !#[trigger] content[r]) ==> is.content_epoch
                == was.content_epoch
        }),
    decreases n,
{
    if n > 0 {
        let r = n - 1;
        composite_state_survives_all_rebuilds(states, promoted, content, node, r as nat);
        assert(states_after(states[r], states[r + 1], promoted[r], content[r]));
        assert(promotes(promoted[r], node));
        let i = choose|i: int| 0 <= i < promoted[r].len() && (#[trigger] promoted[r][i]).node == node;
        composite_state_survives_rebuild(states[r], states[r + 1], promoted[r], content[r], i);
        if forall|k: int| 0 <= k < n ==> !#[trigger] content[k] {
            assert(!content[r]);
        }
    }
}

/// The node is among the promoted ones.
pub open spec fn promotes<N>(promoted: Seq<PromotedRange<N>>, node: NodeId) -> bool {
    exists|i: int| 0 <= i < promoted.len() && (#[trigger] promoted[i]).node == node
}

/// A list of layers after offsets, scales or opacities were set.
pub open spec fn only_composited_otherwise<N>(before: Seq<Layer<N>>, after: Seq<Layer<N>>) -> bool {
    &&& after.len() == before.len()
    &&& forall|i: int|
        0 <= i < after.len() ==> #[trigger] after[i] == (Layer {
            offset: after[i].offset,
            scale: after[i].scale,
            opacity: after[i].opacity,
            ..before[i]
        })
}

/// Setting an offset, a scale or an opacity leaves the layers what and where
/// they are: they still cover the stream in order, and those of promoted
/// subtrees are the same.
pub proof fn setting_keeps_the_stack<N>(
    before: Seq<Layer<N>>,
    after: Seq<Layer<N>>,
    end: usize,
    epoch: u64,
)
    requires
        only_composited_otherwise(before, after),
    ensures
        tile(before, end) ==> tile(after, end),
        stacked(before, epoch) ==> stacked(after, epoch),
        only_composited_otherwise(rooted(before), rooted(after)),
    decreases before.len(),
{
    assert forall|i: int| 0 <= i < after.len() implies (#[trigger] after[i]).instances
        == before[i].instances && after[i].z == before[i].z && after[i].root == before[i].root
        && after[i].content_epoch == before[i].content_epoch by {}
    if tile(before, end) {
        assert forall|k: int| 0 <= k < after.len() - 1 implies (#[trigger] after[k]).instances.end
            == after[k + 1].instances.start by {
            assert(before[k].instances.end == before[k + 1].instances.start);
        }
        assert forall|k: int| 0 <= k < after.len() implies (#[trigger] after[k]).z == k by {
            assert(before[k].z == k);
        }
    }
    if stacked(before, epoch) {
        assert forall|k: int| 0 <= k < after.len() implies (#[trigger] after[k]).z == k && (
        after[k].root is None ==> after[k].content_epoch == epoch && (after[k].instances.start
            < after[k].instances.end || after.len() == 1)) by {
            assert(before[k].z == k);
        }
    }
    if before.len() > 0 {
        let (b, a) = (before.drop_last(), after.drop_last());
        assert(only_composited_otherwise(b, a)) by {
            assert forall|i: int| 0 <= i < a.len() implies #[trigger] a[i] == (Layer {
                offset: a[i].offset,
                scale: a[i].scale,
                opacity: a[i].opacity,
                ..b[i]
            }) by {
                assert(a[i] == after[i]);
            }
        }
        setting_keeps_the_stack(b, a, end, epoch);
        assert(after[after.len() - 1] == after.last());
    }
}

/// The composite part of a state.
pub open spec fn composited<N>(s: PromotedState<N>) -> ([N; 2], [N; 2], N) {
    (s.offset, s.scale, s.opacity)
}

/// A sequence of rebuilds: `states[r]` and `states[r + 1]` are the composite
/// states before and after rebuild `r`.
pub open spec fn rebuilt_in_turn<N: Num>(
    states: Seq<Map<u32, PromotedState<N>>>,
    promoted: Seq<Seq<PromotedRange<N>>>,
    content: Seq<bool>,
) -> bool {
    &&& states.len() == promoted.len() + 1
    &&& content.len() == promoted.len()
    &&& forall|r: int|
        0 <= r < promoted.len() ==> states_after(
            states[r],
            states[r + 1],
            #[trigger] promoted[r],
            content[r],
        )
}

/// What was set of a promoted node is what its layer shows after any number of
/// rebuilds, if each of them lists the node, whatever changed; if one of them
/// does not, the node is back where it was never moved.
pub proof fn what_was_set_is_shown<N: Num>(
    states: Seq<Map<u32, PromotedState<N>>>,
    promoted: Seq<Seq<PromotedRange<N>>>,
    content: Seq<bool>,
    node: NodeId,
    viewport: [u32; 2],
    epoch: u64,
    total: usize,
    k: int,
)
    requires
        rebuilt_in_turn(states, promoted, content),
        promoted.len() > 0,
        promoted.last().len() < 0x4000_0000,
        0 <= k < promoted.last().len(),
        promoted.last()[k].node == node,
    ensures
        ({
            let ls = layers_of(promoted.last(), states.last(), viewport, epoch, total);
            let l = rooted(ls)[k];
            let set = if forall|r: int|
                0 <= r < promoted.len() ==> promotes(#[trigger] promoted[r], node) {
                composited(state_of(states[0], node))
            } else {
                composited(identity_state::<N>())
            };
            &&& rooted(ls).len() == promoted.last().len()
            &&& l.root == Some(node)
            &&& (l.offset, l.scale, l.opacity) == set
        }),
{
    let n = promoted.len();
    composite_state_after(states, promoted, content, node, n);
    promoted_ranges_are_the_rooted_layers(
        promoted.last(),
        states.last(),
        viewport,
        epoch,
        total,
    );
    let ls = layers_of(promoted.last(), states.last(), viewport, epoch, total);
    assert(shows_subtree(rooted(ls)[k], promoted.last()[k], states.last()));
    assert(states.last() == states[n as int]);
}

proof fn composite_state_after<N: Num>(
    states: Seq<Map<u32, PromotedState<N>>>,
    promoted: Seq<Seq<PromotedRange<N>>>,
    content: Seq<bool>,
    node: NodeId,
    n: nat,
)
    requires
        rebuilt_in_turn(states, promoted, content),
        n <= promoted.len(),
    ensures
        composited(state_of(states[n as int], node)) == if forall|r: int|
            0 <= r < n ==> promotes(#[trigger] promoted[r], node) {
            composited(state_of(states[0], node))
        } else {
            composited(identity_state::<N>())
        },
    decreases n,
{
    if n > 0 {
        let r = n - 1;
        composite_state_after(states, promoted, content, node, r as nat);
        assert(states_after(states[r], states[r + 1], promoted[r], content[r]));
        if promotes(promoted[r], node) {
            let i = choose|i: int|
                0 <= i < promoted[r].len() && (#[trigger] promoted[r][i]).node == node;
            composite_state_survives_rebuild(states[r], states[r + 1], promoted[r], content[r], i);
            if forall|q: int| 0 <= q < r ==> promotes(#[trigger] promoted[q], node) {
                assert forall|q: int| 0 <= q < n implies promotes(#[trigger] promoted[q], node) by {
                    if q == r {
                    }
                }
            } else {
                let q = choose|q: int| 0 <= q < r && !promotes(#[trigger] promoted[q], node);
                assert(!promotes(promoted[q], node));
            }
        } else {
            vanished_promotion_is_forgotten(
                states[r],
                states[r + 1],
                promoted[r],
                content[r],
                node,
            );
        }
    }
}

/// Setting the offset, the opacity or the scale of a node sets it for the layer
/// of that node, leaves the rest of it, and leaves all other layers.
pub proof fn what_is_set_is_set_for_one_node<N>(
    l: Layer<N>,
    node: NodeId,
    pair: [N; 2],
    opacity: N,
)
    ensures
        l.root == Some(node) ==> {
            &&& layer_moved(l, node, pair).offset == pair
            &&& layer_moved(l, node, pair) == (Layer { offset: pair, ..l })
            &&& layer_scaled(l, node, pair).scale == pair
            &&& layer_scaled(l, node, pair) == (Layer { scale: pair, ..l })
            &&& layer_faded(l, node, opacity).opacity == opacity
            &&& layer_faded(l, node, opacity) == (Layer { opacity, ..l })
        },
        l.root != Some(node) ==> layer_moved(l, node, pair) == l && layer_scaled(l, node, pair) == l
            && layer_faded(l, node, opacity) == l,
{
}

} // verus!
