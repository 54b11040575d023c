//! Textures that nodes show in place of drawn shapes: a video, a canvas, or
//! a clip whose frames all stay on the GPU and are shown in turn.
use std::collections::HashMap;

use vstd::prelude::*;

use crate::node::NodeId;

verus! {

broadcast use vstd::std_specs::hash::group_hash_axioms;

/// What a node shows.
#[derive(Copy, Clone, Debug, PartialEq, Eq, Structural)]
pub enum Shown {
    /// A texture of the caller's, by the caller's number.
    Caller(u64),
    /// The texture kept for frames that are uploaded one over the other.
    Streamed,
    /// A frame of the node's resident clip.
    Frame(usize),
}

/// The resident clip of a node.
#[derive(Copy, Clone, Debug, PartialEq, Eq, Structural)]
pub struct FrameSet {
    pub node: NodeId,
    pub frames: usize,
    pub bytes: u64,
}

/// Which texture each node shows.
#[derive(Debug)]
pub struct ExternalTextures {
    shown: HashMap<u32, Shown>,
    streamed: HashMap<u32, (u32, u32)>,
    sets: Vec<FrameSet>,
}

/// No two clips belong to one node.
pub open spec fn one_set_each(sets: Seq<FrameSet>) -> bool {
    forall|i: int, j: int|
        0 <= i < j < sets.len() ==> (#[trigger] sets[i]).node != (#[trigger] sets[j]).node
}

pub open spec fn has_set(sets: Seq<FrameSet>, node: NodeId) -> bool {
    exists|i: int| 0 <= i < sets.len() && (#[trigger] sets[i]).node == node
}

/// The clip of a node.
pub open spec fn set_of(sets: Seq<FrameSet>, node: NodeId) -> Option<FrameSet> {
    if has_set(sets, node) {
        Some(sets[choose|i: int| 0 <= i < sets.len() && (#[trigger] sets[i]).node == node])
    } else {
        None
    }
}

/// Bytes of all clips.
pub open spec fn resident(sets: Seq<FrameSet>) -> int
    decreases sets.len(),
{
    if sets.len() == 0 {
        0
    } else {
        resident(sets.drop_last()) + sets.last().bytes
    }
}

proof fn resident_changes(sets: Seq<FrameSet>, i: int, s: FrameSet)
    requires
        0 <= i < sets.len(),
    ensures
        resident(sets.update(i, s)) == resident(sets) - sets[i].bytes + s.bytes,
        resident(sets.remove(i)) == resident(sets) - sets[i].bytes,
        resident(sets) >= sets[i].bytes,
    decreases sets.len(),
{
    let init = sets.drop_last();
    resident_at_least_zero(init);
    if i == sets.len() - 1 {
        assert(sets.update(i, s).drop_last() =~= init);
        assert(sets.remove(i) =~= init);
    } else {
        resident_changes(init, i, s);
        assert(sets.update(i, s).drop_last() =~= init.update(i, s));
        assert(sets.remove(i).drop_last() =~= init.remove(i));
    }
}

proof fn resident_at_least_zero(sets: Seq<FrameSet>)
    ensures
        resident(sets) >= 0,
    decreases sets.len(),
{
    if sets.len() > 0 {
        resident_at_least_zero(sets.drop_last());
    }
}

proof fn set_of_is_unique(sets: Seq<FrameSet>, i: int)
    requires
        one_set_each(sets),
        0 <= i < sets.len(),
    ensures
        set_of(sets, sets[i].node) == Some(sets[i]),
{
    let node = sets[i].node;
    assert(has_set(sets, node));
    let k = choose|k: int| 0 <= k < sets.len() && (#[trigger] sets[k]).node == node;
    if k < i {
        assert(sets[k].node != sets[i].node);
    } else if i < k {
        assert(sets[i].node != sets[k].node);
    }
}

/// Removing a clip leaves the others.
proof fn removing_leaves_others(sets: Seq<FrameSet>, i: int)
    requires
        one_set_each(sets),
        0 <= i < sets.len(),
    ensures
        one_set_each(sets.remove(i)),
        forall|n: NodeId| #[trigger]
            set_of(sets.remove(i), n) == (if n == sets[i].node {
                None
            } else {
                set_of(sets, n)
            }),
{
    let rest = sets.remove(i);
    assert forall|j: int| 0 <= j < rest.len() implies #[trigger] rest[j] == sets[if j < i {
        j
    } else {
        j + 1
    }] by {}
    assert(one_set_each(rest));
    assert forall|n: NodeId| #[trigger] set_of(rest, n) == (if n == sets[i].node {
        None
    } else {
        set_of(sets, n)
    }) by {
        if has_set(rest, n) {
            let j = choose|j: int| 0 <= j < rest.len() && (#[trigger] rest[j]).node == n;
            let k = if j < i {
                j
            } else {
                j + 1
            };
            assert(rest[j] == sets[k]);
            set_of_is_unique(rest, j);
            set_of_is_unique(sets, k);
            if n == sets[i].node {
                assert(sets[if k < i {
                    k
                } else {
                    i
                }].node != sets[if k < i {
                    i
                } else {
                    k
                }].node);
            }
        } else if n != sets[i].node && has_set(sets, n) {
            let k = choose|k: int| 0 <= k < sets.len() && (#[trigger] sets[k]).node == n;
            let j = if k < i {
                k
            } else {
                k - 1
            };
            assert(rest[j] == sets[k]);
        }
    }
}

/// Adding the clip of a node that has none leaves the others.
proof fn adding_leaves_others(sets: Seq<FrameSet>, s: FrameSet)
    requires
        one_set_each(sets),
        !has_set(sets, s.node),
    ensures
        one_set_each(sets.push(s)),
        resident(sets.push(s)) == resident(sets) + s.bytes,
        forall|n: NodeId| #[trigger]
            set_of(sets.push(s), n) == (if n == s.node {
                Some(s)
            } else {
                set_of(sets, n)
            }),
{
    let all = sets.push(s);
    assert(all.drop_last() =~= sets);
    assert(one_set_each(all));
    assert forall|n: NodeId| #[trigger] set_of(all, n) == (if n == s.node {
        Some(s)
    } else {
        set_of(sets, n)
    }) by {
        if n == s.node {
            assert(all[sets.len() as int] == s);
            set_of_is_unique(all, sets.len() as int);
        } else if has_set(sets, n) {
            let k = choose|k: int| 0 <= k < sets.len() && (#[trigger] sets[k]).node == n;
            assert(all[k] == sets[k]);
            set_of_is_unique(all, k);
            set_of_is_unique(sets, k);
        } else if has_set(all, n) {
            let k = choose|k: int| 0 <= k < all.len() && (#[trigger] all[k]).node == n;
            assert(all[k] == sets[k]);
        }
    }
}

/// Bytes of the clip of a node.
pub open spec fn clip_bytes(t: ExternalTextures, node: NodeId) -> int {
    match t.clip(node) {
        Some(s) => s.bytes as int,
        None => 0,
    }
}

/// All clips but those of two nodes are the same.
pub open spec fn other_clips_kept(
    before: ExternalTextures,
    after: ExternalTextures,
    a: NodeId,
    b: NodeId,
) -> bool {
    forall|n: NodeId| n != a && n != b ==> #[trigger] after.clip(n) == before.clip(n)
}

/// All clips are the same.
pub open spec fn clips_kept(before: ExternalTextures, after: ExternalTextures) -> bool {
    &&& forall|n: NodeId| #[trigger] after.clip(n) == before.clip(n)
    &&& after.resident_bytes() == before.resident_bytes()
}

/// Everything kept for a node was dropped.
pub open spec fn cleared(before: ExternalTextures, after: ExternalTextures, node: NodeId) -> bool {
    &&& after.showing() == before.showing().remove(node.index)
    &&& after.streams() == before.streams().remove(node.index)
    &&& after.clip(node) is None
    &&& other_clips_kept(before, after, node, node)
    &&& after.resident_bytes() == before.resident_bytes() - clip_bytes(before, node)
}

/// A frame was added to the clip of a node, and is shown.
pub open spec fn pushed(
    before: ExternalTextures,
    after: ExternalTextures,
    node: NodeId,
    width: u32,
    height: u32,
) -> bool {
    let index: usize = match before.clip(node) {
        Some(s) => s.frames,
        None => 0,
    };
    let size = width * height * 4;
    &&& after.showing() == before.showing().insert(node.index, Shown::Frame(index))
    &&& after.streams() == before.streams()
    &&& after.clip(node) == Some(
        FrameSet {
            node,
            frames: (index + 1) as usize,
            bytes: (size + clip_bytes(before, node)) as u64,
        },
    )
    &&& other_clips_kept(before, after, node, node)
    &&& after.resident_bytes() == before.resident_bytes() + size
}

/// A frame of the clip of a node is shown, if there is such a frame.
pub open spec fn selected(
    before: ExternalTextures,
    after: ExternalTextures,
    node: NodeId,
    index: usize,
) -> bool {
    &&& after.showing() == (if before.clip(node) is Some && index < before.clip(node)->0.frames {
        before.showing().insert(node.index, Shown::Frame(index))
    } else {
        before.showing()
    })
    &&& after.streams() == before.streams()
    &&& clips_kept(before, after)
}

/// The clip of one node belongs to another, in place of its own, and its last
/// frame is shown there.
pub open spec fn migrated(
    before: ExternalTextures,
    after: ExternalTextures,
    from: NodeId,
    to: NodeId,
) -> bool {
    &&& after.streams() == before.streams()
    &&& if from == to || before.clip(from) is None {
        after.showing() == before.showing() && clips_kept(before, after)
    } else {
        let s = before.clip(from)->0;
        &&& after.showing() == before.showing().remove(from.index).insert(
            to.index,
            Shown::Frame((s.frames - 1) as usize),
        )
        &&& after.clip(to) == Some(FrameSet { node: to, ..s })
        &&& after.clip(from) is None
        &&& other_clips_kept(before, after, from, to)
        &&& after.resident_bytes() == before.resident_bytes() - clip_bytes(before, to)
    }
}

/// A frame was uploaded over the last one.
pub open spec fn streamed_over(
    before: ExternalTextures,
    after: ExternalTextures,
    node: NodeId,
    width: u32,
    height: u32,
) -> bool {
    &&& after.streams() == before.streams().insert(node.index, (width, height))
    &&& after.showing() == before.showing().insert(node.index, Shown::Streamed)
    &&& clips_kept(before, after)
}

impl ExternalTextures {
    /// What each node shows, by node index.
    pub closed spec fn showing(self) -> Map<u32, Shown> {
        self.shown@
    }

    /// The sizes of the kept textures for streamed frames, by node index.
    pub closed spec fn streams(self) -> Map<u32, (u32, u32)> {
        self.streamed@
    }

    /// The clip of a node.
    pub closed spec fn clip(self, node: NodeId) -> Option<FrameSet> {
        set_of(self.sets@, node)
    }

    /// Bytes of all clips.
    pub closed spec fn resident_bytes(self) -> int {
        resident(self.sets@)
    }

    /// A node that shows a frame of its clip has a clip with that frame, and
    /// a node that shows its streamed texture has one.
    pub closed spec fn wf(self) -> bool {
        &&& one_set_each(self.sets@)
        &&& self.resident_bytes() <= u64::MAX
        &&& forall|i: int|
            0 <= i < self.sets@.len() ==> (#[trigger] self.sets@[i]).frames > 0
        &&& forall|n: u32| #[trigger]
            self.showing().contains_key(n) ==> shown_ok(
                self.showing()[n],
                self.clip(NodeId { index: n }),
                self.streams().contains_key(n),
            )
    }

    pub fn new() -> (r: Self)
        ensures
            r.wf(),
            r.showing() == Map::<u32, Shown>::empty(),
            r.streams() == Map::<u32, (u32, u32)>::empty(),
            forall|n: NodeId| #[trigger] r.clip(n) is None,
            r.resident_bytes() == 0,
    {
        ExternalTextures { shown: HashMap::new(), streamed: HashMap::new(), sets: Vec::new() }
    }

    /// What a node shows.
    pub fn get(&self, node: NodeId) -> (r: Option<Shown>)
        ensures
            r == (if self.showing().contains_key(node.index) {
                Some(self.showing()[node.index])
            } else {
                None
            }),
    {
        match self.shown.get(&node.index) {
            Some(s) => Some(*s),
            None => None,
        }
    }

    /// Bytes of all clips.
    pub fn frame_bytes(&self) -> (r: u64)
        requires
            self.wf(),
        ensures
            r == self.resident_bytes(),
    {
        let mut total: u64 = 0;
        let mut i: usize = 0;
        while i < self.sets.len()
            invariant
                i <= self.sets@.len(),
                resident(self.sets@) <= u64::MAX,
                total == resident(self.sets@.take(i as int)),
            decreases self.sets.len() - i,
        {
            proof {
                let upto = self.sets@.take(i + 1);
                assert(upto.drop_last() =~= self.sets@.take(i as int));
                resident_grows(self.sets@, i + 1);
            }
            total = total + self.sets[i].bytes;
            i = i + 1;
        }
        assert(self.sets@.take(i as int) =~= self.sets@);
        total
    }

    fn find(&self, node: NodeId) -> (r: Option<usize>)
        ensures
            match r {
                Some(i) => i < self.sets@.len() && self.sets@[i as int].node == node,
                None => !has_set(self.sets@, node),
            },
    {
        let mut i: usize = 0;
        while i < self.sets.len()
            invariant
                i <= self.sets@.len(),
                forall|j: int| 0 <= j < i ==> (#[trigger] self.sets@[j]).node != node,
            decreases self.sets.len() - i,
        {
            if self.sets[i].node == node {
                return Some(i);
            }
            i = i + 1;
        }
        None
    }

    /// Registers or replaces the caller's texture for a node.
    pub fn set_external_texture(&mut self, node: NodeId, texture: u64)
        requires
            old(self).wf(),
        ensures
            final(self).wf(),
            final(self).showing() == old(self).showing().insert(node.index, Shown::Caller(texture)),
            final(self).streams() == old(self).streams(),
            clips_kept(*old(self), *final(self)),
    {
        self.shown.insert(node.index, Shown::Caller(texture));
        proof {
            assert forall|n: u32| #[trigger] self.showing().contains_key(n) implies shown_ok(
                self.showing()[n],
                self.clip(NodeId { index: n }),
                self.streams().contains_key(n),
            ) by {
                assert(NodeId { index: node.index } == node);
                if n != node.index {
                    assert(old(self).showing().contains_key(n));
                }
            }
        }
    }

    /// Drops what a node shows and every texture kept for it.
    pub fn clear_external_texture(&mut self, node: NodeId)
        requires
            old(self).wf(),
        ensures
            final(self).wf(),
            cleared(*old(self), *final(self), node),
    {
        self.shown.remove(&node.index);
        self.streamed.remove(&node.index);
        if let Some(i) = self.find(node) {
            proof {
                removing_leaves_others(self.sets@, i as int);
                resident_changes(self.sets@, i as int, self.sets@[i as int]);
                set_of_is_unique(self.sets@, i as int);
            }
            self.sets.remove(i);
        }
        proof {
            assert forall|n: u32| #[trigger] self.showing().contains_key(n) implies shown_ok(
                self.showing()[n],
                self.clip(NodeId { index: n }),
                self.streams().contains_key(n),
            ) by {
                assert(old(self).showing().contains_key(n));
            }
        }
    }

    /// Adds a `width` by `height` frame to the clip of a node, which gets one
    /// with its first frame, and shows it. The result is the frame's position.
    pub fn push_external_frame(&mut self, node: NodeId, width: u32, height: u32) -> (r: usize)
        requires
            old(self).wf(),
            width * height * 4 <= u32::MAX,
            old(self).resident_bytes() + width * height * 4 <= u64::MAX,
            old(self).clip(node) matches Some(s) ==> s.frames < usize::MAX,
        ensures
            final(self).wf(),
            r == (match old(self).clip(node) {
                Some(s) => s.frames,
                None => 0,
            }),
            pushed(*old(self), *final(self), node, width, height),
    {
        let w: u64 = width as u64;
        let h: u64 = height as u64;
        let add: u64 = w * h * 4;
        let ghost before = self.sets@;
        let at: usize = match self.find(node) {
            Some(i) => {
                let s = self.sets[i];
                let grown = FrameSet { node, frames: s.frames + 1, bytes: {
                    proof {
                        resident_changes(before, i as int, s);
                    }
                    s.bytes + add
                } };
                self.sets[i] = grown;
                proof {
                    assert(self.sets@ =~= before.update(i as int, grown));
                    resident_changes(before, i as int, grown);
                    set_of_is_unique(before, i as int);
                    set_of_is_unique(self.sets@, i as int);
                    assert(one_set_each(self.sets@));
                    assert forall|n: NodeId| n != node implies #[trigger] set_of(self.sets@, n)
                        == set_of(before, n) by {
                        if has_set(before, n) {
                            let k = choose|k: int|
                                0 <= k < before.len() && (#[trigger] before[k]).node == n;
                            assert(self.sets@[k] == before[k]);
                            set_of_is_unique(before, k);
                            set_of_is_unique(self.sets@, k);
                        } else if has_set(self.sets@, n) {
                            let k = choose|k: int|
                                0 <= k < self.sets@.len() && (#[trigger] self.sets@[k]).node == n;
                            assert(self.sets@[k] == before[k]);
                        }
                    }
                }
                s.frames
            },
            None => {
                let first = FrameSet { node, frames: 1, bytes: add };
                proof {
                    adding_leaves_others(before, first);
                    assert(set_of(before, node) is None);
                }
                self.sets.push(first);
                0
            },
        };
        self.shown.insert(node.index, Shown::Frame(at));
        proof {
            assert forall|n: u32| #[trigger] self.showing().contains_key(n) implies shown_ok(
                self.showing()[n],
                self.clip(NodeId { index: n }),
                self.streams().contains_key(n),
            ) by {
                if n != node.index {
                    assert(old(self).showing().contains_key(n));
                    assert(NodeId { index: n } != node);
                }
            }
        }
        at
    }

    /// Shows frame `index` of the clip of a node. Nothing happens if there is
    /// no such frame.
    pub fn select_external_frame(&mut self, node: NodeId, index: usize)
        requires
            old(self).wf(),
        ensures
            final(self).wf(),
            selected(*old(self), *final(self), node, index),
    {
        if let Some(i) = self.find(node) {
            proof {
                set_of_is_unique(self.sets@, i as int);
            }
            if index < self.sets[i].frames {
                self.shown.insert(node.index, Shown::Frame(index));
            }
        } else {
            assert(set_of(self.sets@, node) is None);
        }
        proof {
            assert forall|n: u32| #[trigger] self.showing().contains_key(n) implies shown_ok(
                self.showing()[n],
                self.clip(NodeId { index: n }),
                self.streams().contains_key(n),
            ) by {
                assert(NodeId { index: node.index } == node);
                if n != node.index || self.showing() == old(self).showing() {
                    assert(old(self).showing().contains_key(n));
                }
            }
        }
    }

    /// Gives the clip of `from` to `to`, which then shows its last frame.
    pub fn migrate_external_frames(&mut self, from: NodeId, to: NodeId)
        requires
            old(self).wf(),
        ensures
            final(self).wf(),
            migrated(*old(self), *final(self), from, to),
    {
        if from == to {
            return;
        }
        let i: usize = match self.find(from) {
            Some(i) => i,
            None => {
                assert(set_of(self.sets@, from) is None);
                return;
            },
        };
        let ghost before = self.sets@;
        proof {
            removing_leaves_others(before, i as int);
            resident_changes(before, i as int, before[i as int]);
            set_of_is_unique(before, i as int);
        }
        let s = self.sets.remove(i);
        let ghost middle = self.sets@;
        assert forall|k: int| 0 <= k < middle.len() implies (#[trigger] middle[k]).frames > 0 by {
            assert(middle[k] == before[if k < i {
                k
            } else {
                k + 1
            }]);
        }
        self.shown.remove(&from.index);
        if let Some(j) = self.find(to) {
            proof {
                removing_leaves_others(middle, j as int);
                resident_changes(middle, j as int, middle[j as int]);
            }
            self.sets.remove(j);
            assert forall|k: int| 0 <= k < self.sets@.len() implies (
            #[trigger] self.sets@[k]).frames > 0 by {
                assert(self.sets@[k] == middle[if k < j {
                    k
                } else {
                    k + 1
                }]);
            }
        }
        let ghost rest = self.sets@;
        let moved = FrameSet { node: to, frames: s.frames, bytes: s.bytes };
        proof {
            assert(!has_set(rest, to)) by {
                assert(set_of(rest, to) is None);
            }
            adding_leaves_others(rest, moved);
        }
        self.sets.push(moved);
        self.shown.insert(to.index, Shown::Frame(s.frames - 1));
        proof {
            assert(set_of(rest, from) is None);
            assert forall|n: u32| #[trigger] self.showing().contains_key(n) implies shown_ok(
                self.showing()[n],
                self.clip(NodeId { index: n }),
                self.streams().contains_key(n),
            ) by {
                if n != to.index {
                    assert(old(self).showing().contains_key(n));
                    assert(n != from.index);
                    let id = NodeId { index: n };
                    assert(id != from && id != to);
                    assert(set_of(rest, id) == set_of(before, id));
                }
            }
        }
    }

    /// A `width` by `height` frame is uploaded over the last one. The result
    /// says whether a texture has to be made for it: there is none yet, or
    /// one of another size.
    pub fn upload_external_frame(&mut self, node: NodeId, width: u32, height: u32) -> (r: bool)
        requires
            old(self).wf(),
        ensures
            final(self).wf(),
            r == !(old(self).streams().contains_key(node.index) && old(self).streams()[node.index]
                == (width, height)),
            streamed_over(*old(self), *final(self), node, width, height),
    {
        let reuse: bool = match self.streamed.get(&node.index) {
            Some(size) => size.0 == width && size.1 == height,
            None => false,
        };
        self.streamed.insert(node.index, (width, height));
        self.shown.insert(node.index, Shown::Streamed);
        proof {
            assert forall|n: u32| #[trigger] self.showing().contains_key(n) implies shown_ok(
                self.showing()[n],
                self.clip(NodeId { index: n }),
                self.streams().contains_key(n),
            ) by {
                assert(NodeId { index: node.index } == node);
                if n != node.index {
                    assert(old(self).showing().contains_key(n));
                }
            }
        }
        !reuse
    }
}

/// What a node shows is there.
pub open spec fn shown_ok(s: Shown, clip: Option<FrameSet>, streamed: bool) -> bool {
    match s {
        Shown::Caller(_) => true,
        Shown::Streamed => streamed,
        Shown::Frame(i) => clip is Some && i < clip->0.frames,
    }
}

proof fn resident_grows(sets: Seq<FrameSet>, i: int)
    requires
        0 <= i <= sets.len(),
    ensures
        resident(sets.take(i)) <= resident(sets),
    decreases sets.len(),
{
    if i < sets.len() {
        resident_grows(sets.drop_last(), i);
        assert(sets.drop_last().take(i) =~= sets.take(i));
    } else {
        assert(sets.take(i) =~= sets);
    }
}

/// A node never shows a frame that is not on the GPU.
pub proof fn shown_frames_are_resident(t: ExternalTextures, node: NodeId, index: usize)
    requires
        t.wf(),
        t.showing().contains_key(node.index),
        t.showing()[node.index] == Shown::Frame(index),
    ensures
        t.clip(node) is Some,
        index < t.clip(node)->0.frames,
{
    assert(NodeId { index: node.index } == node);
}

/// A frame that is pushed comes last in its clip and is shown; the frames
/// before it stay, and so does what other nodes show.
pub proof fn pushed_frames_are_shown(
    before: ExternalTextures,
    after: ExternalTextures,
    node: NodeId,
    width: u32,
    height: u32,
    other: NodeId,
)
    requires
        pushed(before, after, node, width, height),
        before.clip(node) matches Some(s) ==> s.frames < usize::MAX,
        other != node,
    ensures
        ({
            let had: int = if before.clip(node) is Some {
                before.clip(node)->0.frames as int
            } else {
                0
            };
            &&& after.clip(node) is Some
            &&& after.clip(node)->0.frames == had + 1
            &&& after.showing().contains_key(node.index)
            &&& after.showing()[node.index] == Shown::Frame(had as usize)
            &&& after.showing().contains_key(other.index) == before.showing().contains_key(
                other.index,
            )
            &&& before.showing().contains_key(other.index) ==> after.showing()[other.index]
                == before.showing()[other.index]
            &&& after.clip(other) == before.clip(other)
            &&& after.resident_bytes() - before.resident_bytes() == 4 * width * height
        }),
{
    assert(4 * width * height == width * height * 4) by (nonlinear_arith);
}

/// Clearing a node undoes what was pushed for it: the bytes come back, and the
/// node shows nothing.
pub proof fn clearing_undoes_pushing(
    before: ExternalTextures,
    mid: ExternalTextures,
    after: ExternalTextures,
    node: NodeId,
    width: u32,
    height: u32,
)
    requires
        before.clip(node) is None,
        pushed(before, mid, node, width, height),
        cleared(mid, after, node),
        width * height * 4 <= u64::MAX,
    ensures
        after.resident_bytes() == before.resident_bytes(),
        after.clip(node) is None,
        !after.showing().contains_key(node.index),
        !after.streams().contains_key(node.index),
        forall|n: NodeId| n != node ==> #[trigger] after.clip(n) == before.clip(n),
{
    assert forall|n: NodeId| n != node implies #[trigger] after.clip(n) == before.clip(n) by {
        assert(mid.clip(n) == before.clip(n));
    }
}

/// A clip that goes to another node is there with all its frames, the last of
/// which is shown; where it came from nothing is left. Going back undoes it, if
/// the other node had none.
pub proof fn clips_move_whole(
    before: ExternalTextures,
    mid: ExternalTextures,
    after: ExternalTextures,
    from: NodeId,
    to: NodeId,
)
    requires
        from != to,
        before.clip(from) is Some,
        before.clip(from)->0.node == from,
        before.clip(from)->0.frames > 0,
        migrated(before, mid, from, to),
        migrated(mid, after, to, from),
    ensures
        ({
            let s = before.clip(from)->0;
            &&& mid.clip(from) is None
            &&& !mid.showing().contains_key(from.index)
            &&& mid.clip(to) is Some
            &&& mid.clip(to)->0.node == to
            &&& mid.clip(to)->0.frames == s.frames
            &&& mid.clip(to)->0.bytes == s.bytes
            &&& mid.showing()[to.index] == Shown::Frame((s.frames - 1) as usize)
            &&& after.clip(from) == before.clip(from)
            &&& before.clip(to) is None ==> after.clip(to) is None && after.resident_bytes()
                == before.resident_bytes()
        }),
{
}

/// A frame that is selected is shown, if the clip has it; otherwise the node
/// shows what it showed.
pub proof fn selected_frames_are_shown(
    before: ExternalTextures,
    after: ExternalTextures,
    node: NodeId,
    index: usize,
)
    requires
        selected(before, after, node, index),
    ensures
        before.clip(node) is Some && index < before.clip(node)->0.frames ==> after.showing()[
        node.index] == Shown::Frame(index),
        before.clip(node) is None || index >= before.clip(node)->0.frames ==> after.showing()
            == before.showing(),
        forall|n: NodeId| #[trigger] after.clip(n) == before.clip(n),
        after.resident_bytes() == before.resident_bytes(),
{
}

/// A streamed frame takes the place of the last one: no clip grows.
pub proof fn streamed_frames_replace_one_another(
    before: ExternalTextures,
    after: ExternalTextures,
    node: NodeId,
    width: u32,
    height: u32,
)
    requires
        streamed_over(before, after, node, width, height),
    ensures
        after.showing()[node.index] == Shown::Streamed,
        after.streams()[node.index] == (width, height),
        after.resident_bytes() == before.resident_bytes(),
        after.clip(node) == before.clip(node),
{
}

} // verus!
