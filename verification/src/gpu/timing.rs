//! Query bookkeeping for GPU frame timing, split by pass.
//!
//! Query pairs are handed out in the order in which passes run within a
//! frame, so the queries written in a frame are a prefix `0..query_count`
//! and nothing unwritten is ever resolved. Readback goes through a ring of
//! two slots: a frame that finds no idle slot skips its copy, so reported
//! timings are at most one frame behind and nothing waits on the GPU.
use vstd::prelude::*;

use crate::num::{computes_exactly, fractions_are_exact, zero, Num};

verus! {

/// Logical passes: opaque, final, overdraw count and overdraw compose.
pub const MAX_PASSES: usize = 4;

/// Queries in the query set, two for each pass.
pub const QUERY_COUNT: u32 = 8;

pub const PASS_OPAQUE: usize = 0;

pub const PASS_FINAL: usize = 1;

pub const PASS_OD_COUNT: usize = 2;

pub const PASS_OD_COMPOSE: usize = 3;

/// Assigns query-pair indices to passes as they run within one frame.
///
/// A pass that was given pair `p` owns the queries `2p` (begin) and `2p + 1`
/// (end); a pass with no pair has not run in this frame.
#[derive(Copy, Clone, Debug)]
pub struct PassAlloc {
    pair_of: [Option<u8>; 4],
    next_pair: u8,
}

spec fn taken(pair: Option<u8>) -> int {
    if pair is Some {
        1
    } else {
        0
    }
}

/// No pass has a pair.
pub closed spec fn no_passes() -> PassAlloc {
    PassAlloc { pair_of: [None, None, None, None], next_pair: 0 }
}

impl PassAlloc {
    /// The pair that each pass owns.
    pub closed spec fn pairs(&self) -> Seq<Option<u8>> {
        self.pair_of@
    }

    /// The number of pairs handed out.
    pub closed spec fn given(&self) -> nat {
        self.next_pair as nat
    }

    /// The pairs handed out are `0..given`, each to one pass.
    pub closed spec fn wf(&self) -> bool {
        let p = self.pair_of@;
        &&& self.next_pair == taken(p[0]) + taken(p[1]) + taken(p[2]) + taken(p[3])
        &&& forall|i: int| 0 <= i < 4 && #[trigger] p[i] is Some ==> p[i]->0 < self.next_pair
        &&& forall|i: int, j: int|
            0 <= i < j < 4 && #[trigger] p[i] is Some && #[trigger] p[j] is Some ==> p[i]->0
                != p[j]->0
    }

    pub(crate) proof fn given_at_most_passes(self)
        requires
            self.wf(),
        ensures
            self.given() <= MAX_PASSES,
    {
    }

    /// No pass has run.
    pub fn new() -> (r: PassAlloc)
        ensures
            r == no_passes(),
            r.wf(),
            r.given() == 0,
            r.pairs() == seq![None::<u8>, None, None, None],
    {
        PassAlloc { pair_of: [None, None, None, None], next_pair: 0 }
    }

    /// Hands the next pair to `pass_id`, which must not have one yet, and
    /// returns its begin and end query.
    pub fn alloc_pair(&mut self, pass_id: usize) -> (r: (u32, u32))
        requires
            old(self).wf(),
            pass_id < MAX_PASSES,
            old(self).pairs()[pass_id as int] is None,
        ensures
            final(self).wf(),
            r == ((2 * old(self).given()) as u32, (2 * old(self).given() + 1) as u32),
            old(self).given() < MAX_PASSES,
            final(self).given() == old(self).given() + 1,
            old(self).pairs().len() == MAX_PASSES,
            final(self).pairs().len() == MAX_PASSES,
            final(self).pairs() == old(self).pairs().update(
                pass_id as int,
                Some(old(self).given() as u8),
            ),
    {
        let pair: u8 = self.next_pair;
        self.pair_of[pass_id] = Some(pair);
        self.next_pair = self.next_pair + 1;
        let begin: u32 = (pair as u32) * 2;
        (begin, begin + 1)
    }

    /// The number of queries written in this frame.
    pub fn query_count(&self) -> (r: u32)
        ensures
            r == 2 * self.given(),
    {
        (self.next_pair as u32) * 2
    }

    /// The pair of a pass, if it ran.
    pub fn pair(&self, pass_id: usize) -> (r: Option<u8>)
        requires
            pass_id < MAX_PASSES,
        ensures
            r == self.pairs()[pass_id as int],
    {
        self.pair_of[pass_id]
    }
}

impl Default for PassAlloc {
    fn default() -> (r: PassAlloc)
        ensures
            r.wf(),
            r.given() == 0,
            r.pairs() == seq![None::<u8>, None, None, None],
    {
        PassAlloc::new()
    }
}

/// Two passes never share a query, and every query that a pass owns lies in
/// the written prefix, which fits the query set.
pub proof fn queries_are_a_prefix_without_overlap(a: PassAlloc, p: int, q: int)
    requires
        a.wf(),
        0 <= p < MAX_PASSES,
        0 <= q < MAX_PASSES,
        a.pairs()[p] is Some,
    ensures
        2 * a.given() <= QUERY_COUNT,
        2 * a.pairs()[p]->0 + 1 < 2 * a.given(),
        p != q && a.pairs()[q] is Some ==> a.pairs()[p]->0 != a.pairs()[q]->0,
{
    let s = a.pair_of@;
    assert(s[p]->0 < a.next_pair);
    if p < q {
        assert(s[p] is Some && s[q] is Some ==> s[p]->0 != s[q]->0);
    } else if q < p {
        assert(s[q] is Some && s[p] is Some ==> s[q]->0 != s[p]->0);
    }
}

/// Milliseconds spent in each pass group of a frame.
#[derive(Copy, Clone, Debug)]
pub struct FrameTiming<N> {
    pub total_ms: N,
    pub opaque_ms: N,
    pub final_ms: N,
    pub overdraw_ms: N,
}

/// Milliseconds between the begin and end tick of a pair; a clock that ran
/// backwards counts as no time.
pub open spec fn pair_ms<N: Num>(ticks: Seq<u64>, pair: Option<u8>, period_ns: N) -> N {
    match pair {
        None => N::fraction(0, 1),
        Some(p) => {
            let b = ticks[2 * p];
            let e = ticks[2 * p + 1];
            let span = if e >= b {
                (e - b) as u64
            } else {
                0
            };
            N::natural(span).product(period_ns).quotient(N::fraction(1_000_000, 1))
        },
    }
}

/// The timing of a frame whose queries read `ticks`.
pub open spec fn timing_of<N: Num>(
    ticks: Seq<u64>,
    pairs: Seq<Option<u8>>,
    period_ns: N,
) -> FrameTiming<N> {
    let opaque = pair_ms(ticks, pairs[PASS_OPAQUE as int], period_ns);
    let last = pair_ms(ticks, pairs[PASS_FINAL as int], period_ns);
    let overdraw = pair_ms(ticks, pairs[PASS_OD_COUNT as int], period_ns).sum(
        pair_ms(ticks, pairs[PASS_OD_COMPOSE as int], period_ns),
    );
    FrameTiming {
        total_ms: opaque.sum(last).sum(overdraw),
        opaque_ms: opaque,
        final_ms: last,
        overdraw_ms: overdraw,
    }
}

fn ms_for<N: Num>(raw: &[u64], alloc: &PassAlloc, pass_id: usize, period_ns: N) -> (r: N)
    requires
        alloc.wf(),
        pass_id < MAX_PASSES,
        2 * alloc.given() <= raw.len(),
    ensures
        r == pair_ms(raw@, alloc.pairs()[pass_id as int], period_ns),
{
    match alloc.pair(pass_id) {
        None => N::of_ratio(0, 1),
        Some(pair) => {
            proof {
                queries_are_a_prefix_without_overlap(*alloc, pass_id as int, pass_id as int);
            }
            let b: u64 = raw[(pair as usize) * 2];
            let e: u64 = raw[(pair as usize) * 2 + 1];
            let span: u64 = if e >= b {
                e - b
            } else {
                0
            };
            N::of_u64(span).times(period_ns).over(N::of_ratio(1_000_000, 1))
        },
    }
}

/// Reads the tick values of a frame as milliseconds per pass.
pub fn parse_frame_timing<N: Num>(raw: &[u64], alloc: &PassAlloc, period_ns: N) -> (r: FrameTiming<
    N,
>)
    requires
        alloc.wf(),
        2 * alloc.given() <= raw.len(),
    ensures
        r == timing_of(raw@, alloc.pairs(), period_ns),
{
    let opaque_ms: N = ms_for(raw, alloc, PASS_OPAQUE, period_ns);
    let final_ms: N = ms_for(raw, alloc, PASS_FINAL, period_ns);
    let count_ms: N = ms_for(raw, alloc, PASS_OD_COUNT, period_ns);
    let compose_ms: N = ms_for(raw, alloc, PASS_OD_COMPOSE, period_ns);
    let overdraw_ms: N = count_ms.plus(compose_ms);
    FrameTiming {
        total_ms: opaque_ms.plus(final_ms).plus(overdraw_ms),
        opaque_ms,
        final_ms,
        overdraw_ms,
    }
}

/// Readback buffers in the ring.
pub const SLOTS: usize = 2;

/// Bytes of one readback buffer.
pub const RESOLVE_BYTES: u64 = 256;

#[derive(Copy, Clone, Debug, PartialEq, Eq, Structural)]
pub enum SlotState {
    /// May be copied into.
    Idle,
    /// Holds a copy that has not been read back yet.
    Pending,
}

/// A readback buffer: what the frame copied into it had run, and how many
/// bytes it wrote.
#[derive(Copy, Clone, Debug)]
pub struct ReadbackSlot {
    pub state: SlotState,
    pub alloc: PassAlloc,
    pub bytes: u64,
}

/// Queries to be resolved and copied into a readback buffer.
#[derive(Copy, Clone, Debug, PartialEq, Eq, Structural)]
pub struct ResolvePlan {
    pub slot: usize,
    /// The queries are `0..count`.
    pub count: u32,
    pub bytes: u64,
}

/// A readback buffer to be mapped, up to `bytes`.
#[derive(Copy, Clone, Debug, PartialEq, Eq, Structural)]
pub struct MapRequest {
    pub slot: usize,
    pub bytes: u64,
}

/// The ring of readback buffers and the last timing read from it.
pub struct Timing<N> {
    slots: [ReadbackSlot; 2],
    pending_kick: Option<usize>,
    period_ns: N,
    last: Option<FrameTiming<N>>,
}

/// What holds of a readback buffer: it is pending exactly while it holds the
/// queries of some pass.
pub open spec fn slot_ok(s: ReadbackSlot) -> bool {
    &&& s.alloc.wf()
    &&& s.bytes == 16 * s.alloc.given()
    &&& s.state == SlotState::Idle <==> s.bytes == 0
}

/// The first idle buffer.
pub open spec fn first_idle(slots: Seq<ReadbackSlot>) -> Option<usize> {
    if slots[0].state == SlotState::Idle {
        Some(0usize)
    } else if slots[1].state == SlotState::Idle {
        Some(1usize)
    } else {
        None
    }
}

/// A mapping that has ended: what the buffer holds, or nothing if it could not
/// be mapped.
#[derive(Clone, Debug)]
pub struct Mapped {
    pub slot: usize,
    pub ticks: Option<Vec<u64>>,
}

/// A buffer that holds nothing.
pub closed spec fn idle_slot() -> ReadbackSlot {
    ReadbackSlot { state: SlotState::Idle, alloc: no_passes(), bytes: 0 }
}

/// An idle buffer may be copied into, and holds the queries of no pass.
pub proof fn idle_slots_hold_nothing()
    ensures
        idle_slot().state == SlotState::Idle,
        idle_slot().bytes == 0,
        idle_slot().alloc.given() == 0,
        slot_ok(idle_slot()),
{
}

/// The mapping is of a buffer of the ring, and read all that was written.
pub open spec fn readable(ring: Seq<ReadbackSlot>, m: Mapped) -> bool {
    &&& m.slot < SLOTS
    &&& m.ticks matches Some(t) ==> ring[m.slot as int].bytes <= 8 * t@.len()
}

/// The ring after the first `n` mappings ended.
pub open spec fn ring_after(ring: Seq<ReadbackSlot>, ended: Seq<Mapped>, n: nat) -> Seq<ReadbackSlot>
    decreases n,
{
    if n == 0 {
        ring
    } else {
        ring_after(ring, ended, (n - 1) as nat).update(ended[n - 1].slot as int, idle_slot())
    }
}

/// The times that are reported after the first `n` mappings ended.
pub open spec fn reported_after<N: Num>(
    last: Option<FrameTiming<N>>,
    ring: Seq<ReadbackSlot>,
    ended: Seq<Mapped>,
    period_ns: N,
    n: nat,
) -> Option<FrameTiming<N>>
    decreases n,
{
    if n == 0 {
        last
    } else {
        let m = ended[n - 1];
        match m.ticks {
            Some(t) => Some(
                timing_of(
                    t@,
                    ring_after(ring, ended, (n - 1) as nat)[m.slot as int].alloc.pairs(),
                    period_ns,
                ),
            ),
            None => reported_after(last, ring, ended, period_ns, (n - 1) as nat),
        }
    }
}

impl<N: Num> Timing<N> {
    pub closed spec fn ring(self) -> Seq<ReadbackSlot> {
        self.slots@
    }

    /// The buffer that this frame was copied into and that is still to be
    /// mapped.
    pub closed spec fn copied(self) -> Option<usize> {
        self.pending_kick
    }

    pub closed spec fn period(self) -> N {
        self.period_ns
    }

    pub closed spec fn reported(self) -> Option<FrameTiming<N>> {
        self.last
    }

    pub closed spec fn wf(self) -> bool {
        &&& slot_ok(self.ring()[0])
        &&& slot_ok(self.ring()[1])
        &&& self.copied() matches Some(i) ==> i < SLOTS
    }

    /// An idle ring. `period_ns` is the length of a tick.
    pub fn new(period_ns: N) -> (r: Self)
        ensures
            r.wf(),
            r.ring() == seq![idle_slot(), idle_slot()],
            r.copied() is None,
            r.period() == period_ns,
            r.reported() is None,
    {
        let slot = ReadbackSlot { state: SlotState::Idle, alloc: PassAlloc::new(), bytes: 0 };
        let slots: [ReadbackSlot; 2] = [slot, slot];
        assert(slots@ =~= seq![idle_slot(), idle_slot()]);
        Timing { slots, pending_kick: None, period_ns, last: None }
    }

    /// Picks the first idle buffer for the queries of a frame. A frame in
    /// which no pass ran, or that finds no idle buffer, is not copied.
    pub fn encode_resolve(&mut self, alloc: PassAlloc) -> (r: Option<ResolvePlan>)
        requires
            old(self).wf(),
            alloc.wf(),
        ensures
            final(self).wf(),
            final(self).period() == old(self).period(),
            final(self).reported() == old(self).reported(),
            match r {
                None => {
                    &&& alloc.given() == 0 || first_idle(old(self).ring()) is None
                    &&& final(self).ring() == old(self).ring()
                    &&& final(self).copied() is None
                },
                Some(plan) => {
                    &&& alloc.given() > 0
                    &&& first_idle(old(self).ring()) == Some(plan.slot)
                    &&& plan.count == 2 * alloc.given()
                    &&& plan.bytes == 8 * plan.count
                    &&& plan.bytes <= RESOLVE_BYTES
                    &&& final(self).copied() == Some(plan.slot)
                    &&& final(self).ring() == old(self).ring().update(
                        plan.slot as int,
                        ReadbackSlot { state: SlotState::Pending, alloc, bytes: plan.bytes },
                    )
                },
            },
    {
        self.pending_kick = None;
        let count: u32 = alloc.query_count();
        if count == 0 {
            return None;
        }
        let slot: usize = if self.slots[0].state == SlotState::Idle {
            0
        } else if self.slots[1].state == SlotState::Idle {
            1
        } else {
            return None;
        };
        let bytes: u64 = count as u64 * 8;
        assert(alloc.given() <= 4) by {
            alloc.given_at_most_passes();
        }
        self.slots[slot] = ReadbackSlot { state: SlotState::Pending, alloc, bytes };
        self.pending_kick = Some(slot);
        assert(self.slots@ =~= old(self).slots@.update(
            slot as int,
            ReadbackSlot { state: SlotState::Pending, alloc, bytes },
        ));
        Some(ResolvePlan { slot, count, bytes })
    }

    /// The buffer to be mapped, once, after the frame that was copied into it
    /// has been submitted.
    pub fn kick_map_async(&mut self) -> (r: Option<MapRequest>)
        requires
            old(self).wf(),
        ensures
            final(self).wf(),
            final(self).ring() == old(self).ring(),
            final(self).period() == old(self).period(),
            final(self).reported() == old(self).reported(),
            final(self).copied() is None,
            r == match old(self).copied() {
                None => None,
                Some(slot) => if old(self).ring()[slot as int].bytes == 0 {
                    None
                } else {
                    Some(MapRequest { slot, bytes: old(self).ring()[slot as int].bytes })
                },
            },
    {
        let slot: usize = match self.pending_kick {
            None => return None,
            Some(slot) => slot,
        };
        self.pending_kick = None;
        let bytes: u64 = self.slots[slot].bytes;
        if bytes == 0 {
            return None;
        }
        Some(MapRequest { slot, bytes })
    }

    /// Takes the mappings that have ended, in the order in which they did.
    /// Each buffer becomes idle, and the times of the last one that could be
    /// read are reported.
    pub fn poll(&mut self, ended: &Vec<Mapped>)
        requires
            old(self).wf(),
            forall|i: int|
                0 <= i < ended@.len() ==> readable(
                    ring_after(old(self).ring(), ended@, i as nat),
                    #[trigger] ended@[i],
                ),
        ensures
            final(self).wf(),
            final(self).period() == old(self).period(),
            final(self).copied() == old(self).copied(),
            final(self).ring() == ring_after(old(self).ring(), ended@, ended@.len()),
            final(self).reported() == reported_after(
                old(self).reported(),
                old(self).ring(),
                ended@,
                old(self).period(),
                ended@.len(),
            ),
    {
        let mut i: usize = 0;
        while i < ended.len()
            invariant
                i <= ended@.len(),
                self.wf(),
                forall|j: int|
                    0 <= j < ended@.len() ==> readable(
                        ring_after(old(self).ring(), ended@, j as nat),
                        #[trigger] ended@[j],
                    ),
                self.period() == old(self).period(),
                self.copied() == old(self).copied(),
                self.ring() == ring_after(old(self).ring(), ended@, i as nat),
                self.reported() == reported_after(
                    old(self).reported(),
                    old(self).ring(),
                    ended@,
                    old(self).period(),
                    i as nat,
                ),
            decreases ended.len() - i,
        {
            let m = &ended[i];
            assert(readable(self.ring(), *m));
            let slot: usize = m.slot;
            if let Some(t) = &m.ticks {
                let alloc: PassAlloc = self.slots[slot].alloc;
                self.last = Some(parse_frame_timing(t.as_slice(), &alloc, self.period_ns));
            }
            let ghost before = self.slots@;
            let idle = ReadbackSlot { state: SlotState::Idle, alloc: PassAlloc::new(), bytes: 0 };
            self.slots[slot] = idle;
            assert(self.slots@ =~= before.update(slot as int, idle_slot()));
            i = i + 1;
        }
    }

    /// The timing of the last frame that was read back.
    pub fn last(&self) -> (r: Option<FrameTiming<N>>)
        ensures
            r == self.reported(),
    {
        self.last
    }
}

/// What the renderer reports of a frame.
#[derive(Copy, Clone, Debug)]
pub struct FrameStats<N> {
    pub cpu_ms: N,
    pub gpu_ms: N,
    pub opaque_ms: N,
    pub final_ms: N,
    pub overdraw_ms: N,
    pub instance_count: u32,
    pub opaque_count: u32,
    pub glass_count: u32,
    pub drawcalls: u32,
    pub dirty_mask: u32,
    /// Layers in the layer tree.
    pub layer_count: u32,
    /// Layers drawn into their texture in this frame.
    pub raster_count: u32,
    /// Layers composited to the surface in this frame.
    pub composite_count: u32,
    /// Backdrops built in this frame.
    pub backdrop_builds: u32,
    /// Bytes of the layer textures.
    pub layer_vram: u64,
}

impl<N: Num> Default for FrameStats<N> {
    fn default() -> (r: Self)
        ensures
            r == (FrameStats {
                cpu_ms: zero::<N>(),
                gpu_ms: zero::<N>(),
                opaque_ms: zero::<N>(),
                final_ms: zero::<N>(),
                overdraw_ms: zero::<N>(),
                instance_count: 0u32,
                opaque_count: 0u32,
                glass_count: 0u32,
                drawcalls: 0u32,
                dirty_mask: 0u32,
                layer_count: 0u32,
                raster_count: 0u32,
                composite_count: 0u32,
                backdrop_builds: 0u32,
                layer_vram: 0u64,
            }),
    {
        let z: N = N::of_ratio(0, 1);
        FrameStats {
            cpu_ms: z,
            gpu_ms: z,
            opaque_ms: z,
            final_ms: z,
            overdraw_ms: z,
            instance_count: 0,
            opaque_count: 0,
            glass_count: 0,
            drawcalls: 0,
            dirty_mask: 0,
            layer_count: 0,
            raster_count: 0,
            composite_count: 0,
            backdrop_builds: 0,
            layer_vram: 0,
        }
    }
}

/// In exact numbers, the time of a pass is the number of ticks between its two
/// queries times the period of a tick, in milliseconds; a clock that ran
/// backwards, and a pass that was not drawn, count for nothing. The whole is
/// the sum of its parts.
pub proof fn ticks_become_milliseconds<N: Num>(
    value: spec_fn(N) -> real,
    ticks: Seq<u64>,
    pairs: Seq<Option<u8>>,
    period_ns: N,
    p: int,
)
    requires
        computes_exactly(value),
        0 <= p < pairs.len(),
    ensures
        ({
            let ms = value(pair_ms(ticks, pairs[p], period_ns));
            match pairs[p] {
                None => ms == 0real,
                Some(q) => if ticks[2 * q] <= ticks[2 * q + 1] {
                    ms * 1_000_000real == ((ticks[2 * q + 1] - ticks[2 * q]) as real) * value(
                        period_ns,
                    )
                } else {
                    ms == 0real
                },
            }
        }),
        ({
            let t = timing_of(ticks, pairs, period_ns);
            &&& value(t.total_ms) == value(t.opaque_ms) + value(t.final_ms) + value(t.overdraw_ms)
            &&& t.opaque_ms == pair_ms(ticks, pairs[0], period_ns)
            &&& t.final_ms == pair_ms(ticks, pairs[1], period_ns)
            &&& value(t.overdraw_ms) == value(pair_ms(ticks, pairs[2], period_ns)) + value(
                pair_ms(ticks, pairs[3], period_ns),
            )
        }),
{
    fractions_are_exact(value);
    if let Some(q) = pairs[p] {
        let (b, e) = (ticks[2 * q], ticks[2 * q + 1]);
        let span: u64 = if e >= b {
            (e - b) as u64
        } else {
            0
        };
        let n = N::natural(span).product(period_ns);
        let d = N::fraction(1_000_000, 1);
        assert((1_000_000i32 as real) == 1_000_000real);
        assert(value(d) == 1_000_000real);
        let ms = value(n.quotient(d));
        assert(ms * 1_000_000real == value(n));
        if span == 0 {
            assert(value(n) == 0real) by (nonlinear_arith)
                requires
                    value(n) == 0real * value(period_ns),
            ;
            assert(ms == 0real) by (nonlinear_arith)
                requires
                    ms * 1_000_000real == 0real,
            ;
        }
    }
}

/// The times that are reported are those of the last mapping that could be read;
/// where none could, those that were reported before. A mapping that ended
/// leaves its buffer idle.
pub proof fn the_last_reading_is_reported<N: Num>(
    last: Option<FrameTiming<N>>,
    ring: Seq<ReadbackSlot>,
    ended: Seq<Mapped>,
    period_ns: N,
    n: nat,
)
    requires
        0 < n <= ended.len(),
        forall|i: int| 0 <= i < ended.len() ==> (#[trigger] ended[i]).slot < ring.len(),
    ensures
        ({
            let r = reported_after(last, ring, ended, period_ns, n);
            let m = ended[n - 1];
            &&& m.ticks is None ==> r == reported_after(
                last,
                ring,
                ended,
                period_ns,
                (n - 1) as nat,
            )
            &&& m.ticks matches Some(t) ==> r == Some(
                timing_of(
                    t@,
                    ring_after(ring, ended, (n - 1) as nat)[m.slot as int].alloc.pairs(),
                    period_ns,
                ),
            )
            &&& reported_after(last, ring, ended, period_ns, 0) == last
            &&& ring_after(ring, ended, n)[m.slot as int].state is Idle
            &&& ring_after(ring, ended, n).len() == ring.len()
            &&& forall|j: int|
                0 <= j < ring.len() && j != m.slot ==> #[trigger] ring_after(ring, ended, n)[j]
                    == ring_after(ring, ended, (n - 1) as nat)[j]
        }),
{
    ring_keeps_its_length(ring, ended, (n - 1) as nat);
    let m = ended[n - 1];
}

proof fn ring_keeps_its_length(ring: Seq<ReadbackSlot>, ended: Seq<Mapped>, n: nat)
    requires
        n <= ended.len(),
        forall|i: int| 0 <= i < ended.len() ==> (#[trigger] ended[i]).slot < ring.len(),
    ensures
        ring_after(ring, ended, n).len() == ring.len(),
    decreases n,
{
    if n > 0 {
        ring_keeps_its_length(ring, ended, (n - 1) as nat);
        let m = ended[n - 1];
    }
}

} // verus!
