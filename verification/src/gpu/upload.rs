//! Which shapes have to be sent to the GPU.
//!
//! The instance buffer is mirrored: a frame with as many shapes as the last
//! one sends only the runs of shapes that differ, any other sends them all.
use vstd::prelude::*;

use crate::gpu::instance::{SHAPE_KIND_GLASS, SHAPE_KIND_MASK};

verus! {

/// Bytes of one shape in the instance buffer.
pub const STRIDE: u64 = 160;

/// Shapes that a new buffer has room for.
pub const FIRST_CAPACITY: u64 = 16;

/// No buffer grows past this many shapes: positions are 32 bits.
pub const MAX_CAPACITY: u64 = 0x2_0000_0000;

/// A shape as it is in the instance buffer.
#[derive(Copy, Clone, Debug)]
pub struct EncodedShape {
    pub kind: u32,
    pub bytes: [u8; 160],
}

pub open spec fn encoded_glass(s: EncodedShape) -> bool {
    s.kind & SHAPE_KIND_MASK == SHAPE_KIND_GLASS
}

pub(crate) fn is_encoded_glass(s: &EncodedShape) -> (r: bool)
    ensures
        r == encoded_glass(*s),
{
    s.kind & SHAPE_KIND_MASK == SHAPE_KIND_GLASS
}

fn same_shape(a: &EncodedShape, b: &EncodedShape) -> (r: bool)
    ensures
        r == (*a == *b),
{
    if a.kind != b.kind {
        return false;
    }
    let mut i: usize = 0;
    while i < 160
        invariant
            i <= 160,
            forall|j: int| 0 <= j < i ==> a.bytes[j] == b.bytes[j],
        decreases 160 - i,
    {
        if a.bytes[i] != b.bytes[i] {
            return false;
        }
        i = i + 1;
    }
    assert(a.bytes =~= b.bytes);
    true
}

/// Shapes `start..end` of a buffer.
#[derive(Copy, Clone, Debug, PartialEq, Eq, Structural)]
pub struct ShapeRun {
    pub start: usize,
    pub end: usize,
}

/// What to do to the instance buffer.
#[derive(Debug)]
pub struct UploadPlan {
    /// Make a new buffer with room for this many shapes first.
    pub grow: Option<u64>,
    /// The shapes to write, in order.
    pub writes: Vec<ShapeRun>,
}

/// `capacity` doubled until there is room for `needed`.
pub open spec fn doubled(capacity: int, needed: int) -> int
    decreases 2 * needed - capacity,
{
    if capacity >= needed || capacity <= 0 {
        capacity
    } else {
        doubled(2 * capacity, needed)
    }
}

/// The capacity of a buffer after it was asked to hold `needed` shapes.
pub open spec fn capacity_for(capacity: u64, needed: int) -> int {
    if needed > capacity {
        doubled(
            if capacity == 0 {
                1
            } else {
                capacity as int
            },
            needed,
        )
    } else {
        capacity as int
    }
}

proof fn doubled_bounds(capacity: int, needed: int)
    requires
        0 < capacity,
    ensures
        doubled(capacity, needed) >= needed,
        doubled(capacity, needed) >= capacity,
        doubled(capacity, needed) <= capacity || doubled(capacity, needed) < 2 * needed,
    decreases 2 * needed - capacity,
{
    if capacity < needed {
        doubled_bounds(2 * capacity, needed);
    }
}

/// The capacity needed to hold `needed` shapes, if it is not there yet.
pub fn grown_capacity(capacity: u64, needed: usize) -> (r: Option<u64>)
    requires
        capacity <= MAX_CAPACITY,
        needed <= u32::MAX,
    ensures
        r is Some <==> needed > capacity,
        r matches Some(c) ==> c == capacity_for(capacity, needed as int) && needed <= c
            <= MAX_CAPACITY,
        capacity_for(capacity, needed as int) <= MAX_CAPACITY,
{
    if needed as u64 <= capacity {
        return None;
    }
    let mut c: u64 = if capacity == 0 {
        1
    } else {
        capacity
    };
    let ghost first = c as int;
    proof {
        doubled_bounds(first, needed as int);
    }
    while c < needed as u64
        invariant
            0 < c,
            needed <= u32::MAX,
            c < 2 * needed || c == first,
            first < needed || c == first,
            first <= needed || c == first,
            c <= MAX_CAPACITY,
            doubled(c as int, needed as int) == doubled(first, needed as int),
        decreases 2 * needed - c,
    {
        c = c * 2;
    }
    Some(c)
}

/// Shape `i` is in one of the runs.
pub open spec fn written(writes: Seq<ShapeRun>, i: int) -> bool {
    exists|k: int| 0 <= k < writes.len() && (#[trigger] writes[k]).start <= i < writes[k].end
}

/// Runs that are not empty and have a gap between any two.
pub open spec fn runs_apart(writes: Seq<ShapeRun>) -> bool {
    &&& forall|k: int| 0 <= k < writes.len() ==> (#[trigger] writes[k]).start < writes[k].end
    &&& forall|k: int, l: int|
        0 <= k < l < writes.len() ==> (#[trigger] writes[k]).end < (#[trigger] writes[l]).start
}

/// The runs of shapes that differ between two lists of the same length.
fn differing_runs(old_shapes: &[EncodedShape], new_shapes: &[EncodedShape]) -> (r: Vec<ShapeRun>)
    requires
        old_shapes@.len() == new_shapes@.len(),
    ensures
        runs_apart(r@),
        forall|i: int|
            0 <= i < new_shapes@.len() ==> (written(r@, i) <==> #[trigger] new_shapes@[i]
                != old_shapes@[i]),
        forall|k: int| 0 <= k < r@.len() ==> (#[trigger] r@[k]).end <= new_shapes@.len(),
{
    let n: usize = new_shapes.len();
    let mut runs: Vec<ShapeRun> = Vec::new();
    let mut i: usize = 0;
    while i < n
        invariant
            n == new_shapes@.len() == old_shapes@.len(),
            i <= n,
            runs_apart(runs@),
            forall|k: int| 0 <= k < runs@.len() ==> (#[trigger] runs@[k]).end <= i,
            forall|j: int|
                0 <= j < i ==> (written(runs@, j) <==> #[trigger] new_shapes@[j]
                    != old_shapes@[j]),
            runs@.len() > 0 && i < n ==> runs@.last().end < i || new_shapes@[i as int]
                == old_shapes@[i as int],
        decreases n - i,
    {
        if same_shape(&new_shapes[i], &old_shapes[i]) {
            proof {
                if written(runs@, i as int) {
                    let k = choose|k: int|
                        0 <= k < runs@.len() && (#[trigger] runs@[k]).start <= i < runs@[k].end;
                }
                if runs@.len() > 0 {
                    assert(runs@.last() == runs@[runs@.len() - 1]);
                }
            }
            i = i + 1;
            continue;
        }
        let start: usize = i;
        while i < n && !same_shape(&new_shapes[i], &old_shapes[i])
            invariant
                n == new_shapes@.len() == old_shapes@.len(),
                start <= i <= n,
                forall|j: int|
                    start <= j < i ==> #[trigger] new_shapes@[j] != old_shapes@[j],
            ensures
                i < n ==> new_shapes@[i as int] == old_shapes@[i as int],
            decreases n - i,
        {
            i = i + 1;
        }
        assert(i > start);
        let ghost before = runs@;
        runs.push(ShapeRun { start, end: i });
        proof {
            assert(before.len() > 0 ==> before[before.len() - 1].end < start);
            assert(runs_apart(runs@)) by {
                assert forall|k: int, l: int| 0 <= k < l < runs@.len() implies (
                #[trigger] runs@[k]).end < (#[trigger] runs@[l]).start by {
                    if l == before.len() {
                        assert(runs@[k] == before[k]);
                        if k < before.len() - 1 {
                            assert(before[k].end < before[before.len() - 1].start);
                        }
                    }
                }
            }
            assert forall|j: int| 0 <= j < i implies (written(runs@, j) <==>
                #[trigger] new_shapes@[j] != old_shapes@[j]) by {
                assert(runs@[before.len() as int] == ShapeRun { start, end: i });
                if j < start {
                    if written(before, j) {
                        let k = choose|k: int|
                            0 <= k < before.len() && (#[trigger] before[k]).start <= j
                                < before[k].end;
                        assert(runs@[k] == before[k]);
                    }
                    if written(runs@, j) {
                        let k = choose|k: int|
                            0 <= k < runs@.len() && (#[trigger] runs@[k]).start <= j
                                < runs@[k].end;
                        assert(runs@[k] == before[k]);
                    }
                }
            }
        }
    }
    runs
}

/// The plan turns a buffer with room for `room` shapes that holds `held` into
/// one that holds `shapes`, and writes no more than it has to.
pub open spec fn brings_up_to_date(
    plan: UploadPlan,
    room: u64,
    held: Seq<EncodedShape>,
    shapes: Seq<EncodedShape>,
) -> bool {
    let n = shapes.len();
    &&& plan.grow == (if n > room {
        Some(capacity_for(room, n as int) as u64)
    } else {
        None
    })
    &&& n > room || n != held.len() ==> plan.writes@ == (if n == 0 {
        Seq::<ShapeRun>::empty()
    } else {
        seq![ShapeRun { start: 0, end: n as usize }]
    })
    &&& n <= room && n == held.len() ==> {
        &&& runs_apart(plan.writes@)
        &&& forall|i: int|
            0 <= i < n ==> (written(plan.writes@, i) <==> #[trigger] shapes[i] != held[i])
    }
    &&& forall|k: int| 0 <= k < plan.writes@.len() ==> (#[trigger] plan.writes@[k]).end <= n
}

/// The instance buffer: its capacity, and the shapes in it.
#[derive(Debug)]
pub struct InstanceBuffer {
    capacity: u64,
    shapes: Vec<EncodedShape>,
}

impl View for InstanceBuffer {
    type V = Seq<EncodedShape>;

    closed spec fn view(&self) -> Seq<EncodedShape> {
        self.shapes@
    }
}

impl InstanceBuffer {
    pub closed spec fn room(self) -> u64 {
        self.capacity
    }

    pub closed spec fn wf(self) -> bool {
        &&& self.capacity <= MAX_CAPACITY
        &&& self@.len() <= u32::MAX
        &&& self@.len() <= self.capacity
    }

    pub(crate) proof fn room_is_bounded(self)
        requires
            self.wf(),
        ensures
            self.room() <= MAX_CAPACITY,
            self@.len() <= u32::MAX,
    {
    }

    pub fn new() -> (r: Self)
        ensures
            r.wf(),
            r@ == Seq::<EncodedShape>::empty(),
            r.room() == FIRST_CAPACITY,
    {
        InstanceBuffer { capacity: FIRST_CAPACITY, shapes: Vec::new() }
    }

    pub fn capacity(&self) -> (r: u64)
        ensures
            r == self.room(),
    {
        self.capacity
    }

    pub fn shapes(&self) -> (r: &Vec<EncodedShape>)
        ensures
            r@ == self@,
    {
        &self.shapes
    }

    /// Takes the shapes of the next frame and says how to bring the GPU's
    /// copy up to date.
    pub fn set_instances(&mut self, instances: &[EncodedShape]) -> (r: UploadPlan)
        requires
            old(self).wf(),
            instances@.len() <= u32::MAX,
        ensures
            final(self).wf(),
            final(self)@ == instances@,
            final(self).room() == capacity_for(old(self).room(), instances@.len() as int),
            brings_up_to_date(r, old(self).room(), old(self)@, instances@),
    {
        let n: usize = instances.len();
        let grow = grown_capacity(self.capacity, n);
        if let Some(c) = grow {
            self.capacity = c;
        }
        let mut writes: Vec<ShapeRun> = Vec::new();
        if grow.is_some() || n != self.shapes.len() {
            if n > 0 {
                writes.push(ShapeRun { start: 0, end: n });
            }
            assert(writes@ =~= (if n == 0 {
                Seq::<ShapeRun>::empty()
            } else {
                seq![ShapeRun { start: 0, end: n }]
            }));
        } else {
            writes = differing_runs(self.shapes.as_slice(), instances);
        }
        self.shapes = vstd::slice::slice_to_vec(instances);
        UploadPlan { grow, writes }
    }
}

/// What is not written is what the buffer held already: after the writes the
/// buffer holds the new shapes.
pub proof fn writes_bring_the_buffer_up_to_date(
    plan: UploadPlan,
    room: u64,
    held: Seq<EncodedShape>,
    shapes: Seq<EncodedShape>,
    i: int,
)
    requires
        brings_up_to_date(plan, room, held, shapes),
        shapes.len() <= usize::MAX,
        0 <= i < shapes.len(),
    ensures
        written(plan.writes@, i) || (plan.grow is None && held.len() == shapes.len() && held[i]
            == shapes[i]),
{
    if plan.grow is Some || held.len() != shapes.len() {
        assert(plan.writes@[0].start <= i < plan.writes@[0].end);
    }
}

/// A buffer that is too small is made large enough, but less than twice as
/// large as is needed; one that is large enough stays. It never shrinks, and
/// asking again changes nothing.
pub proof fn buffers_grow_as_needed(capacity: u64, needed: int)
    requires
        0 <= needed,
    ensures
        needed <= capacity_for(capacity, needed),
        capacity <= capacity_for(capacity, needed),
        needed <= capacity ==> capacity_for(capacity, needed) == capacity,
        needed > capacity && needed > 1 ==> capacity_for(capacity, needed) < 2 * needed,
        capacity_for(capacity, needed) <= u64::MAX ==> capacity_for(
            capacity_for(capacity, needed) as u64,
            needed,
        ) == capacity_for(capacity, needed),
{
    let from: int = if capacity == 0 {
        1
    } else {
        capacity as int
    };
    doubled_bounds(from, needed);
}

} // verus!
