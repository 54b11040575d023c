//! Animation: tweens that move reactive cells along easing curves.
//!
//! A [`Timeline`] holds running tweens, at most one for each key. Starting a
//! tween reads the cell's current value as its origin, so an interrupted
//! motion continues from where it is. [`Timeline::tick`] moves every tween
//! to the given time, writes the cells, and drops what has finished.
//!
//! Times and durations are nanosecond counts of one clock.
use vstd::prelude::*;

use crate::num::{
    clamp_unit, computes_exactly, exact, fractions_are_exact, one, unit_clamped, zero, Num,
};
use crate::signal::{same_value, store_written, value_eq, Cell, SignalId, Signals, Value};

verus! {

/// Interpolation between two numbers: `from + (to - from) * t`.
pub open spec fn lerped<N: Num>(from: N, to: N, t: N) -> N {
    from.sum(to.difference(from).product(t))
}

/// Interpolates between two numbers.
pub fn lerp<N: Num>(from: N, to: N, t: N) -> (r: N)
    ensures
        r == lerped(from, to, t),
{
    from.plus(to.minus(from).times(t))
}

/// Interpolation between two values, component by component. Values of
/// different shapes have nothing between them: the target stands.
pub open spec fn value_lerped<N: Num>(from: Value<N>, to: Value<N>, t: N) -> Value<N> {
    match (from, to) {
        (Value::Scalar(a), Value::Scalar(b)) => Value::Scalar(lerped(a, b, t)),
        (Value::Pair(a), Value::Pair(b)) => Value::Pair(
            [lerped(a[0], b[0], t), lerped(a[1], b[1], t)],
        ),
        (Value::Quad(a), Value::Quad(b)) => Value::Quad(
            [
                lerped(a[0], b[0], t),
                lerped(a[1], b[1], t),
                lerped(a[2], b[2], t),
                lerped(a[3], b[3], t),
            ],
        ),
        _ => to,
    }
}

/// Interpolates between two values.
pub fn lerp_value<N: Num>(from: Value<N>, to: Value<N>, t: N) -> (r: Value<N>)
    ensures
        r == value_lerped(from, to, t),
{
    match (from, to) {
        (Value::Scalar(a), Value::Scalar(b)) => Value::Scalar(lerp(a, b, t)),
        (Value::Pair(a), Value::Pair(b)) => Value::Pair(
            [lerp(a[0], b[0], t), lerp(a[1], b[1], t)],
        ),
        (Value::Quad(a), Value::Quad(b)) => Value::Quad(
            [
                lerp(a[0], b[0], t),
                lerp(a[1], b[1], t),
                lerp(a[2], b[2], t),
                lerp(a[3], b[3], t),
            ],
        ),
        _ => to,
    }
}

/// Easing curves.
///
/// `CubicBezier` holds `[x1, y1, x2, y2]`, the inner control points of a
/// timing curve from `(0, 0)` to `(1, 1)`. `Spring` is driven by elapsed
/// seconds; the duration only caps it.
#[derive(Copy, Clone, Debug)]
pub enum Curve<N> {
    Linear,
    EaseInOut,
    CubicBezier([N; 4]),
    Spring { stiffness: N, damping: N },
}

/// The cubic `3(1-t)^2 t p + 3(1-t) t^2 q + t^3`.
pub open spec fn bezier_at<N: Num>(p: N, q: N, t: N) -> N {
    let three = N::fraction(3, 1);
    let it = one::<N>().difference(t);
    three.product(it).product(it).product(t).product(p).sum(
        three.product(it).product(t).product(t).product(q),
    ).sum(t.product(t).product(t))
}

/// The slope of that cubic.
pub open spec fn bezier_slope_at<N: Num>(p: N, q: N, t: N) -> N {
    let three = N::fraction(3, 1);
    let it = one::<N>().difference(t);
    three.product(it).product(it).product(p).sum(
        N::fraction(6, 1).product(it).product(t).product(q.difference(p)),
    ).sum(three.product(t).product(t).product(one::<N>().difference(q)))
}

/// Where Newton's method is, after at most `steps` steps from `t`, in
/// solving for the parameter at which the curve's x coordinate is `x`. It
/// stops early once the error or the slope is negligible.
pub open spec fn newton<N: Num>(x1: N, x2: N, x: N, t: N, steps: nat) -> N
    decreases steps,
{
    let err = bezier_at(x1, x2, t).difference(x);
    let slope = bezier_slope_at(x1, x2, t);
    if steps == 0 || err.magnitude().below(N::fraction(1, 10_000)) || slope.magnitude().below(
        N::fraction(1, 1_000_000),
    ) {
        t
    } else {
        newton(x1, x2, x, unit_clamped(t.difference(err.quotient(slope))), (steps - 1) as nat)
    }
}

fn bezier<N: Num>(p: N, q: N, t: N) -> (r: N)
    ensures
        r == bezier_at(p, q, t),
{
    let three: N = N::of_ratio(3, 1);
    let it: N = N::of_ratio(1, 1).minus(t);
    three.times(it).times(it).times(t).times(p).plus(
        three.times(it).times(t).times(t).times(q),
    ).plus(t.times(t).times(t))
}

fn bezier_slope<N: Num>(p: N, q: N, t: N) -> (r: N)
    ensures
        r == bezier_slope_at(p, q, t),
{
    let three: N = N::of_ratio(3, 1);
    let it: N = N::of_ratio(1, 1).minus(t);
    three.times(it).times(it).times(p).plus(
        N::of_ratio(6, 1).times(it).times(t).times(q.minus(p)),
    ).plus(three.times(t).times(t).times(N::of_ratio(1, 1).minus(q)))
}

/// The height of the timing curve through `(x1, y1)` and `(x2, y2)` above
/// `x`: eight steps of Newton's method from `x` find the parameter.
pub fn cubic_bezier_y_at_x<N: Num>(x1: N, y1: N, x2: N, y2: N, x: N) -> (r: N)
    ensures
        r == bezier_at(y1, y2, newton(x1, x2, x, x, 8)),
{
    let mut t: N = x;
    let mut left: u32 = 8;
    while left > 0
        invariant_except_break
            left <= 8,
            newton(x1, x2, x, t, left as nat) == newton(x1, x2, x, x, 8),
        ensures
            t == newton(x1, x2, x, x, 8),
        decreases left,
    {
        let err: N = bezier(x1, x2, t).minus(x);
        if err.abs().lt(N::of_ratio(1, 10_000)) {
            break;
        }
        let slope: N = bezier_slope(x1, x2, t);
        if slope.abs().lt(N::of_ratio(1, 1_000_000)) {
            break;
        }
        t = clamp_unit(t.minus(err.over(slope)));
        left = left - 1;
    }
    bezier(y1, y2, t)
}

/// The progress that a curve other than a spring gives at normalized time
/// `t`.
pub open spec fn eased<N: Num>(curve: Curve<N>, t: N) -> N {
    let u = unit_clamped(t);
    match curve {
        Curve::Linear => u,
        Curve::EaseInOut => u.product(u).product(
            N::fraction(3, 1).difference(N::fraction(2, 1).product(u)),
        ),
        Curve::CubicBezier(c) => bezier_at(c[1], c[3], newton(c[0], c[2], u, u, 8)),
        Curve::Spring { .. } => u,
    }
}

impl<N: Num> Curve<N> {
    /// Evaluates a curve other than a spring at normalized time `t`.
    pub fn eval(&self, t: N) -> (r: N)
        requires
            !(self is Spring),
        ensures
            r == eased(*self, t),
    {
        let u: N = clamp_unit(t);
        match *self {
            Curve::EaseInOut => u.times(u).times(
                N::of_ratio(3, 1).minus(N::of_ratio(2, 1).times(u)),
            ),
            Curve::CubicBezier(c) => cubic_bezier_y_at_x(c[0], c[1], c[2], c[3], u),
            _ => u,
        }
    }
}

/// Position and velocity of a unit spring at some time after it was let go
/// at zero with target one.
#[derive(Copy, Clone, Debug)]
pub struct SpringSample<N> {
    pub position: N,
    pub velocity: N,
}

/// Nanoseconds from `start` to `now`; none when `now` comes first.
pub open spec fn elapsed_between(start: u64, now: u64) -> u64 {
    if now >= start {
        (now - start) as u64
    } else {
        0
    }
}

/// Nanoseconds from `start` to `now`; none when `now` comes first.
pub fn elapsed_since(start: u64, now: u64) -> (r: u64)
    ensures
        r == elapsed_between(start, now),
{
    if now >= start {
        now - start
    } else {
        0
    }
}

/// Progress of a curve `elapsed` nanoseconds in, and whether it is over.
///
/// A spring is over once it rests within a thousandth of its target, or when
/// its duration has passed; any other curve when its normalized time reaches
/// one.
pub open spec fn progress_of<N: Num>(
    curve: Curve<N>,
    elapsed: u64,
    duration: u64,
    spring: SpringSample<N>,
) -> (N, bool) {
    match curve {
        Curve::Spring { .. } => {
            let near = N::fraction(1, 1_000);
            let settled = spring.position.difference(one()).magnitude().below(near)
                && spring.velocity.magnitude().below(near);
            (spring.position, settled || elapsed >= duration)
        },
        _ => {
            let total = N::nanoseconds(duration).larger(N::fraction(1, 1_000_000));
            let t = N::nanoseconds(elapsed).quotient(total);
            (eased(curve, unit_clamped(t)), one::<N>().at_most(t))
        },
    }
}

/// Progress of a curve `elapsed` nanoseconds in, and whether it is over.
/// `spring` is the state of the unit spring at that time, and is read only
/// for a spring curve.
pub fn eval_progress<N: Num>(
    curve: Curve<N>,
    elapsed: u64,
    duration: u64,
    spring: SpringSample<N>,
) -> (r: (N, bool))
    ensures
        r == progress_of(curve, elapsed, duration, spring),
{
    match curve {
        Curve::Spring { .. } => {
            let near: N = N::of_ratio(1, 1_000);
            let settled: bool = spring.position.minus(N::of_ratio(1, 1)).abs().lt(near)
                && spring.velocity.abs().lt(near);
            (spring.position, settled || elapsed >= duration)
        },
        _ => {
            let total: N = N::of_nanos(duration).max(N::of_ratio(1, 1_000_000));
            let t: N = N::of_nanos(elapsed).over(total);
            let done: bool = N::of_ratio(1, 1).le(t);
            (curve.eval(clamp_unit(t)), done)
        },
    }
}

/// One running tween.
#[derive(Copy, Clone, Debug)]
pub struct Tween<N> {
    pub key: u32,
    pub signal: SignalId,
    pub from: Value<N>,
    pub to: Value<N>,
    pub curve: Curve<N>,
    pub start: u64,
    pub duration: u64,
}

/// What a tween writes at `now`, and whether it is over. A tween that is
/// over writes its target exactly.
pub open spec fn sampled<N: Num>(tw: Tween<N>, now: u64, spring: SpringSample<N>) -> (
    Value<N>,
    bool,
) {
    let (progress, done) = progress_of(
        tw.curve,
        elapsed_between(tw.start, now),
        tw.duration,
        spring,
    );
    (
        if done {
            tw.to
        } else {
            value_lerped(tw.from, tw.to, progress)
        },
        done,
    )
}

impl<N: Num> Tween<N> {
    /// Moves the tween to `now` and writes its cell. Returns whether the
    /// cell changed and whether the tween is over.
    pub fn step(&self, signals: &mut Signals<N>, now: u64, spring: SpringSample<N>) -> (r: (
        bool,
        bool,
    ))
        requires
            self.signal.index < old(signals)@.len(),
        ensures
            final(signals)@ == store_written(
                old(signals)@,
                self.signal.index as int,
                sampled(*self, now, spring).0,
            ),
            r.0 == !same_value(
                old(signals)@[self.signal.index as int].value,
                sampled(*self, now, spring).0,
            ),
            r.1 == sampled(*self, now, spring).1,
    {
        let elapsed: u64 = elapsed_since(self.start, now);
        let (progress, done) = eval_progress(self.curve, elapsed, self.duration, spring);
        let value: Value<N> = if done {
            self.to
        } else {
            lerp_value(self.from, self.to, progress)
        };
        let updated: bool = signals.set(self.signal, value);
        (updated, done)
    }
}

/// Result of one [`Timeline::tick`].
#[derive(Copy, Clone, Debug, PartialEq, Eq, Structural)]
pub struct TickResult {
    /// Whether any cell changed value.
    pub updated: bool,
    /// When to tick again; `None` when nothing is running.
    pub next_deadline: Option<u64>,
}

/// Nanoseconds between ticks of a new timeline: 16 ms.
pub const DEFAULT_TICK_INTERVAL: u64 = 16_000_000;

/// The running tweens, at most one for each key.
pub struct Timeline<N> {
    tweens: Vec<Tween<N>>,
    tick_interval: u64,
}

impl<N: Num> View for Timeline<N> {
    type V = Seq<Tween<N>>;

    closed spec fn view(&self) -> Seq<Tween<N>> {
        self.tweens@
    }
}

/// No two tweens share a key.
pub open spec fn distinct_keys<N: Num>(tweens: Seq<Tween<N>>) -> bool {
    forall|i: int, j: int|
        0 <= i < j < tweens.len() ==> (#[trigger] tweens[i]).key != (#[trigger] tweens[j]).key
}

/// The tweens whose key is not `key`, in order.
pub open spec fn without_key<N: Num>(tweens: Seq<Tween<N>>, key: u32) -> Seq<Tween<N>> {
    tweens.filter(|t: Tween<N>| t.key != key)
}

/// The tweens after one was started: those that there were, where the cell
/// already holds the target.
pub open spec fn tween_started<N: Num>(
    tweens: Seq<Tween<N>>,
    store: Seq<Cell<N>>,
    key: u32,
    signal: SignalId,
    to: Value<N>,
    animation: (Curve<N>, u64),
    now: u64,
) -> Seq<Tween<N>> {
    let from = store[signal.index as int].value;
    if same_value(from, to) {
        tweens
    } else {
        without_key(tweens, key).push(
            Tween {
                key,
                signal,
                from,
                to,
                curve: animation.0,
                start: now,
                duration: animation.1,
            },
        )
    }
}

/// The tweens after the one with the key was dropped and the next started.
pub open spec fn tween_restarted<N: Num>(
    tweens: Seq<Tween<N>>,
    store: Seq<Cell<N>>,
    key: u32,
    signal: SignalId,
    to: Value<N>,
    animation: (Curve<N>, u64),
    now: u64,
) -> Seq<Tween<N>> {
    tween_started(without_key(tweens, key), store, key, signal, to, animation, now)
}

/// The store after the first `n` tweens have been moved to `now`.
pub open spec fn stepped_store<N: Num>(
    tweens: Seq<Tween<N>>,
    springs: Seq<SpringSample<N>>,
    now: u64,
    store: Seq<Cell<N>>,
    n: nat,
) -> Seq<Cell<N>>
    decreases n,
{
    if n == 0 {
        store
    } else {
        let before = stepped_store(tweens, springs, now, store, (n - 1) as nat);
        let tw = tweens[n - 1];
        store_written(before, tw.signal.index as int, sampled(tw, now, springs[n - 1]).0)
    }
}

/// Whether the tween at `i` changes its cell when the timeline ticks.
pub open spec fn step_changes<N: Num>(
    tweens: Seq<Tween<N>>,
    springs: Seq<SpringSample<N>>,
    now: u64,
    store: Seq<Cell<N>>,
    i: int,
) -> bool {
    let before = stepped_store(tweens, springs, now, store, i as nat);
    !same_value(
        before[tweens[i].signal.index as int].value,
        sampled(tweens[i], now, springs[i]).0,
    )
}

/// The tweens among the first `n` that are not over at `now`, in order.
pub open spec fn still_running<N: Num>(
    tweens: Seq<Tween<N>>,
    springs: Seq<SpringSample<N>>,
    now: u64,
    n: nat,
) -> Seq<Tween<N>>
    decreases n,
{
    if n == 0 {
        Seq::empty()
    } else {
        let before = still_running(tweens, springs, now, (n - 1) as nat);
        if sampled(tweens[n - 1], now, springs[n - 1]).1 {
            before
        } else {
            before.push(tweens[n - 1])
        }
    }
}

/// Every tween writes a cell of a store of `cells` cells.
pub open spec fn within_store<N: Num>(tweens: Seq<Tween<N>>, cells: nat) -> bool {
    forall|i: int| 0 <= i < tweens.len() ==> (#[trigger] tweens[i]).signal.index < cells
}

proof fn filter_push<N: Num>(s: Seq<Tween<N>>, key: u32, n: int)
    requires
        0 <= n < s.len(),
    ensures
        without_key(s.take(n + 1), key) == if s[n].key != key {
            without_key(s.take(n), key).push(s[n])
        } else {
            without_key(s.take(n), key)
        },
{
    reveal(Seq::filter);
    assert(s.take(n + 1).drop_last() =~= s.take(n));
}

impl<N: Num> Timeline<N> {
    /// Nanoseconds between ticks.
    pub closed spec fn interval(&self) -> u64 {
        self.tick_interval
    }

    /// An idle timeline that ticks every 16 ms.
    pub fn new() -> (r: Timeline<N>)
        ensures
            r@ == Seq::<Tween<N>>::empty(),
            r.interval() == DEFAULT_TICK_INTERVAL,
            distinct_keys(r@),
    {
        Timeline { tweens: Vec::new(), tick_interval: DEFAULT_TICK_INTERVAL }
    }

    /// Whether anything is running.
    pub fn active(&self) -> (r: bool)
        ensures
            r == (self@.len() > 0),
    {
        self.tweens.len() > 0
    }

    /// The number of running tweens.
    pub fn len(&self) -> (r: usize)
        ensures
            r == self@.len(),
    {
        self.tweens.len()
    }

    /// Whether nothing is running.
    pub fn is_empty(&self) -> (r: bool)
        ensures
            r == (self@.len() == 0),
    {
        self.tweens.len() == 0
    }

    /// Nanoseconds between ticks.
    pub fn tick_interval(&self) -> (r: u64)
        ensures
            r == self.interval(),
    {
        self.tick_interval
    }

    /// Sets the nanoseconds between ticks.
    pub fn set_tick_interval(&mut self, dt: u64)
        ensures
            final(self)@ == old(self)@,
            final(self).interval() == dt,
    {
        self.tick_interval = dt;
    }

    /// The tween at position `i`.
    pub fn tween(&self, i: usize) -> (r: Tween<N>)
        requires
            i < self@.len(),
        ensures
            r == self@[i as int],
    {
        self.tweens[i]
    }

    /// Starts a tween of a cell toward `to` under `key`, in place of any
    /// tween with that key. The cell's present value is the origin; where it
    /// already equals the target nothing happens.
    pub fn start(
        &mut self,
        signals: &Signals<N>,
        key: u32,
        signal: SignalId,
        to: Value<N>,
        curve: Curve<N>,
        duration: u64,
        now: u64,
    )
        requires
            signal.index < signals@.len(),
        ensures
            final(self)@ == tween_started(
                old(self)@,
                signals@,
                key,
                signal,
                to,
                (curve, duration),
                now,
            ),
            final(self).interval() == old(self).interval(),
            distinct_keys(old(self)@) ==> distinct_keys(final(self)@),
            within_store(old(self)@, signals@.len()) ==> within_store(
                final(self)@,
                signals@.len(),
            ),
    {
        let from: Value<N> = signals.get(signal);
        if value_eq(from, to) {
            return ;
        }
        self.stop(key);
        let ghost stopped = self.tweens@;
        assert(within_store(old(self)@, signals@.len()) ==> within_store(stopped, signals@.len()));
        self.tweens.push(Tween { key, signal, from, to, curve, start: now, duration });
        assert(within_store(stopped, signals@.len()) ==> within_store(
            self.tweens@,
            signals@.len(),
        ));
    }

    /// Drops the tween with this key, whatever the cell holds, and starts the
    /// next one. A cell that is back at the target by chance while a tween
    /// pulls it elsewhere is so left in peace.
    pub fn restart(
        &mut self,
        signals: &Signals<N>,
        key: u32,
        signal: SignalId,
        to: Value<N>,
        curve: Curve<N>,
        duration: u64,
        now: u64,
    )
        requires
            signal.index < signals@.len(),
        ensures
            final(self)@ == tween_restarted(
                old(self)@,
                signals@,
                key,
                signal,
                to,
                (curve, duration),
                now,
            ),
            final(self).interval() == old(self).interval(),
            distinct_keys(old(self)@) ==> distinct_keys(final(self)@),
            within_store(old(self)@, signals@.len()) ==> within_store(
                final(self)@,
                signals@.len(),
            ),
    {
        self.stop(key);
        self.start(signals, key, signal, to, curve, duration, now);
    }

    /// Drops the tween with this key.
    pub fn stop(&mut self, key: u32)
        ensures
            final(self)@ == without_key(old(self)@, key),
            final(self).interval() == old(self).interval(),
            forall|i: int| 0 <= i < final(self)@.len() ==> (#[trigger] final(self)@[i]).key != key,
            distinct_keys(old(self)@) ==> distinct_keys(final(self)@),
            forall|n: nat| within_store(old(self)@, n) ==> #[trigger] within_store(final(self)@, n),
    {
        let ghost all = self.tweens@;
        let mut kept: Vec<Tween<N>> = Vec::new();
        let mut i: usize = 0;
        while i < self.tweens.len()
            invariant
                i <= self.tweens.len(),
                self.tweens@ == all,
                self.tick_interval == old(self).tick_interval,
                kept@ == without_key(all.take(i as int), key),
                forall|j: int| 0 <= j < kept@.len() ==> (#[trigger] kept@[j]).key != key,
                forall|j: int|
                    0 <= j < kept@.len() ==> exists|k: int|
                        0 <= k < i && #[trigger] all[k] == #[trigger] kept@[j],
                distinct_keys(all) ==> distinct_keys(kept@),
            decreases self.tweens.len() - i,
        {
            let t: Tween<N> = self.tweens[i];
            proof {
                filter_push(all, key, i as int);
            }
            if t.key != key {
                let ghost before = kept@;
                kept.push(t);
                assert forall|j: int| 0 <= j < kept@.len() implies exists|k: int|
                    0 <= k < i + 1 && #[trigger] all[k] == #[trigger] kept@[j] by {
                    if j == before.len() {
                        assert(all[i as int] == kept@[j]);
                    } else {
                        assert(kept@[j] == before[j]);
                    }
                }
                assert(distinct_keys(all) ==> distinct_keys(kept@)) by {
                    if distinct_keys(all) {
                        assert forall|a: int, b: int| 0 <= a < b < kept@.len() implies (
                        #[trigger] kept@[a]).key != (#[trigger] kept@[b]).key by {
                            assert(kept@[a] == before[a]);
                            if b == before.len() {
                                let k = choose|k: int|
                                    0 <= k < i && #[trigger] all[k] == before[a];
                                assert(all[k].key != all[i as int].key);
                            } else {
                                assert(kept@[b] == before[b]);
                            }
                        }
                    }
                }
            }
            i += 1;
        }
        assert(all.take(all.len() as int) =~= all);
        self.tweens = kept;
    }

    /// Drops every tween.
    pub fn clear(&mut self)
        ensures
            final(self)@ == Seq::<Tween<N>>::empty(),
            final(self).interval() == old(self).interval(),
    {
        self.tweens = Vec::new();
    }

    /// Moves every tween to `now`, writes the cells, and drops the tweens
    /// that are over. `springs[i]` is the state of the unit spring of the
    /// tween at `i`, and is read only where its curve is a spring.
    pub fn tick(
        &mut self,
        signals: &mut Signals<N>,
        springs: &Vec<SpringSample<N>>,
        now: u64,
    ) -> (r: TickResult)
        requires
            within_store(old(self)@, old(signals)@.len()),
            springs@.len() == old(self)@.len(),
            now + old(self).interval() <= u64::MAX,
        ensures
            final(self)@ == still_running(old(self)@, springs@, now, old(self)@.len()),
            final(signals)@ == stepped_store(
                old(self)@,
                springs@,
                now,
                old(signals)@,
                old(self)@.len(),
            ),
            r.updated == exists|i: int|
                0 <= i < old(self)@.len() && #[trigger] step_changes(
                    old(self)@,
                    springs@,
                    now,
                    old(signals)@,
                    i,
                ),
            r.next_deadline == if final(self)@.len() == 0 {
                None
            } else {
                Some((now + old(self).interval()) as u64)
            },
            final(self).interval() == old(self).interval(),
            distinct_keys(old(self)@) ==> distinct_keys(final(self)@),
            within_store(final(self)@, final(signals)@.len()),
            final(signals)@.len() == old(signals)@.len(),
    {
        let ghost all = self.tweens@;
        let ghost store = signals@;
        let mut updated: bool = false;
        let mut kept: Vec<Tween<N>> = Vec::new();
        let mut i: usize = 0;
        while i < self.tweens.len()
            invariant
                i <= self.tweens.len(),
                self.tweens@ == all,
                self.tick_interval == old(self).tick_interval,
                springs@.len() == all.len(),
                within_store(all, store.len()),
                signals@ == stepped_store(all, springs@, now, store, i as nat),
                signals@.len() == store.len(),
                kept@ == still_running(all, springs@, now, i as nat),
                updated == exists|j: int|
                    0 <= j < i && #[trigger] step_changes(all, springs@, now, store, j),
                forall|j: int|
                    0 <= j < kept@.len() ==> exists|k: int|
                        0 <= k < i && #[trigger] all[k] == #[trigger] kept@[j],
                distinct_keys(all) ==> distinct_keys(kept@),
            decreases self.tweens.len() - i,
        {
            let tw: Tween<N> = self.tweens[i];
            let (changed, done) = tw.step(signals, now, springs[i]);
            assert(changed == step_changes(all, springs@, now, store, i as int));
            if changed {
                updated = true;
            }
            let ghost before = kept@;
            if !done {
                kept.push(tw);
                assert forall|j: int| 0 <= j < kept@.len() implies exists|k: int|
                    0 <= k < i + 1 && #[trigger] all[k] == #[trigger] kept@[j] by {
                    if j == before.len() {
                        assert(all[i as int] == kept@[j]);
                    } else {
                        assert(kept@[j] == before[j]);
                    }
                }
                assert(distinct_keys(all) ==> distinct_keys(kept@)) by {
                    if distinct_keys(all) {
                        assert forall|a: int, b: int| 0 <= a < b < kept@.len() implies (
                        #[trigger] kept@[a]).key != (#[trigger] kept@[b]).key by {
                            assert(kept@[a] == before[a]);
                            if b == before.len() {
                                let k = choose|k: int|
                                    0 <= k < i && #[trigger] all[k] == before[a];
                                assert(all[k].key != all[i as int].key);
                            } else {
                                assert(kept@[b] == before[b]);
                            }
                        }
                    }
                }
            }
            i += 1;
        }
        self.tweens = kept;
        let next_deadline: Option<u64> = if self.tweens.len() == 0 {
            None
        } else {
            Some(now + self.tick_interval)
        };
        TickResult { updated, next_deadline }
    }
}

/// A timeline that ticks leaves no tween that is over, and keeps the order
/// of the others.
pub proof fn running_tweens_are_not_over<N: Num>(
    tweens: Seq<Tween<N>>,
    springs: Seq<SpringSample<N>>,
    now: u64,
    n: nat,
    j: int,
)
    requires
        n <= tweens.len(),
        0 <= j < still_running(tweens, springs, now, n).len(),
    ensures
        exists|i: int|
            0 <= i < n && #[trigger] tweens[i] == still_running(tweens, springs, now, n)[j]
                && !sampled(tweens[i], now, springs[i]).1,
    decreases n,
{
    let before = still_running(tweens, springs, now, (n - 1) as nat);
    if j < before.len() {
        running_tweens_are_not_over(tweens, springs, now, (n - 1) as nat, j);
        let i = choose|i: int|
            0 <= i < n - 1 && #[trigger] tweens[i] == before[j] && !sampled(
                tweens[i],
                now,
                springs[i],
            ).1;
        assert(tweens[i] == still_running(tweens, springs, now, n)[j]);
    } else {
        assert(tweens[n - 1] == still_running(tweens, springs, now, n)[j]);
    }
}

/// A tween that is over leaves its cell at its target: a later reader sees
/// the target itself, or a value equal to it.
pub proof fn finished_tween_lands_on_target<N: Num>(
    tweens: Seq<Tween<N>>,
    springs: Seq<SpringSample<N>>,
    now: u64,
    store: Seq<Cell<N>>,
    n: nat,
    i: int,
)
    requires
        within_store(tweens, store.len()),
        0 <= i < n <= tweens.len(),
        sampled(tweens[i], now, springs[i]).1,
        forall|k: int|
            i < k < n ==> (#[trigger] tweens[k]).signal.index != tweens[i].signal.index,
    ensures
        ({
            let cell = stepped_store(tweens, springs, now, store, n)[tweens[i].signal.index as int];
            cell.value == tweens[i].to || same_value(cell.value, tweens[i].to)
        }),
        stepped_store(tweens, springs, now, store, n).len() == store.len(),
    decreases n,
{
    stepped_store_keeps_cells(tweens, springs, now, store, (n - 1) as nat);
    assert(tweens[n - 1].signal.index < store.len());
    if i < n - 1 {
        finished_tween_lands_on_target(tweens, springs, now, store, (n - 1) as nat, i);
    }
}

proof fn stepped_store_keeps_cells<N: Num>(
    tweens: Seq<Tween<N>>,
    springs: Seq<SpringSample<N>>,
    now: u64,
    store: Seq<Cell<N>>,
    n: nat,
)
    requires
        within_store(tweens, store.len()),
        n <= tweens.len(),
    ensures
        stepped_store(tweens, springs, now, store, n).len() == store.len(),
    decreases n,
{
    if n > 0 {
        stepped_store_keeps_cells(tweens, springs, now, store, (n - 1) as nat);
        assert(tweens[n - 1].signal.index < store.len());
    }
}

impl<N: Num> Default for Timeline<N> {
    fn default() -> (r: Timeline<N>)
        ensures
            r@ == Seq::<Tween<N>>::empty(),
            r.interval() == DEFAULT_TICK_INTERVAL,
    {
        Timeline::new()
    }
}

/// A curve is at rest outside of the unit interval: what it gives there is
/// what it gives at the nearer end, for any numbers of which neither zero nor
/// one is below itself, nor one below zero.
pub proof fn curves_rest_outside_the_unit<N: Num>(curve: Curve<N>, t: N)
    requires
        !zero::<N>().below(zero()),
        !one::<N>().below(one()),
        !one::<N>().below(zero()),
    ensures
        eased(curve, unit_clamped(t)) == eased(curve, t),
        t.below(zero()) ==> eased(curve, t) == eased(curve, zero()),
        one::<N>().below(t) && !t.below(zero()) ==> eased(curve, t) == eased(curve, one()),
{
}

/// In exact numbers, zero, one, two and three are what they are called.
proof fn small_numbers<N: Num>(value: spec_fn(N) -> real)
    requires
        exact(value),
    ensures
        value(zero()) == 0real,
        value(one()) == 1real,
        value(N::fraction(2, 1)) == 2real,
        value(N::fraction(3, 1)) == 3real,
{
    assert(value(N::fraction(0, 1)) * (1i32 as real) == 0i32 as real);
    assert(value(N::fraction(1, 1)) * (1i32 as real) == 1i32 as real);
    assert(value(N::fraction(2, 1)) * (1i32 as real) == 2i32 as real);
    assert(value(N::fraction(3, 1)) * (1i32 as real) == 3i32 as real);
}

proof fn newton_stays_at_a_root<N: Num>(value: spec_fn(N) -> real, x1: N, x2: N, x: N)
    requires
        exact(value),
        value(x) == 0real || value(x) == 1real,
    ensures
        newton(x1, x2, x, x, 8) == x,
{
    small_numbers(value);
    bezier_ends(value, x1, x2, x);
    let small = N::fraction(1, 10_000);
    let err = bezier_at(x1, x2, x).difference(x);
    assert(value(small) > 0real) by {
        let v = value(small);
        assert(v * (10_000i32 as real) == 1i32 as real);
        assert(v > 0real) by (nonlinear_arith)
            requires
                v * 10_000real == 1real,
        ;
    }
    assert(err.magnitude().below(small));
}

proof fn bezier_ends<N: Num>(value: spec_fn(N) -> real, p: N, q: N, t: N)
    requires
        exact(value),
        value(t) == 0real || value(t) == 1real,
    ensures
        value(bezier_at(p, q, t)) == value(t),
{
    small_numbers(value);
    let it = one::<N>().difference(t);
    let three = N::fraction(3, 1);
    let a = three.product(it).product(it).product(t).product(p);
    let b = three.product(it).product(t).product(t).product(q);
    let c = t.product(t).product(t);
    let (x, y, z) = (value(t), value(p), value(q));
    assert(value(it) == 1real - x);
    assert(value(a) == 3real * (1real - x) * (1real - x) * x * y);
    assert(value(b) == 3real * (1real - x) * x * x * z);
    assert(value(c) == x * x * x);
    if x == 0real {
        assert(3real * (1real - x) * (1real - x) * x * y == 0real) by (nonlinear_arith)
            requires
                x == 0real,
        ;
        assert(3real * (1real - x) * x * x * z == 0real) by (nonlinear_arith)
            requires
                x == 0real,
        ;
        assert(x * x * x == 0real) by (nonlinear_arith)
            requires
                x == 0real,
        ;
    } else {
        assert(3real * (1real - x) * (1real - x) * x * y == 0real) by (nonlinear_arith)
            requires
                x == 1real,
        ;
        assert(3real * (1real - x) * x * x * z == 0real) by (nonlinear_arith)
            requires
                x == 1real,
        ;
        assert(x * x * x == 1real) by (nonlinear_arith)
            requires
                x == 1real,
        ;
    }
}

/// In exact numbers, interpolation weighs the ends by `1 - t` and `t`: it
/// starts at the one and ends at the other.
pub proof fn interpolation_weighs_the_ends<N: Num>(
    value: spec_fn(N) -> real,
    from: N,
    to: N,
    t: N,
)
    requires
        exact(value),
    ensures
        value(lerped(from, to, t)) == value(from) * (1real - value(t)) + value(to) * value(t),
        value(t) == 0real ==> value(lerped(from, to, t)) == value(from),
        value(t) == 1real ==> value(lerped(from, to, t)) == value(to),
{
    let (a, b, u) = (value(from), value(to), value(t));
    assert(value(lerped(from, to, t)) == a + (b - a) * u);
    assert(a + (b - a) * u == a * (1real - u) + b * u) by (nonlinear_arith);
    assert(u == 0real ==> a * (1real - u) + b * u == a) by (nonlinear_arith);
    assert(u == 1real ==> a * (1real - u) + b * u == b) by (nonlinear_arith);
}

/// In exact numbers, every curve but a spring starts at zero and ends at one,
/// whatever its control points.
pub proof fn curves_start_at_zero_and_end_at_one<N: Num>(
    value: spec_fn(N) -> real,
    curve: Curve<N>,
    t: N,
)
    requires
        exact(value),
    ensures
        value(t) <= 0real ==> value(eased(curve, t)) == 0real,
        value(t) >= 1real ==> value(eased(curve, t)) == 1real,
{
    small_numbers(value);
    let u = unit_clamped(t);
    if value(t) <= 0real || value(t) >= 1real {
        assert(value(u) == 0real || value(u) == 1real);
        match curve {
            Curve::CubicBezier(c) => {
                newton_stays_at_a_root(value, c[0], c[2], u);
                bezier_ends(value, c[1], c[3], u);
            },
            Curve::EaseInOut => {
                let x = value(u);
                eased_value(value, u);
                assert(x * x * (3real - 2real * x) == x) by (nonlinear_arith)
                    requires
                        x == 0real || x == 1real,
                ;
            },
            _ => {},
        }
    }
}

proof fn eased_value<N: Num>(value: spec_fn(N) -> real, u: N)
    requires
        exact(value),
    ensures
        value(
            u.product(u).product(N::fraction(3, 1).difference(N::fraction(2, 1).product(u))),
        ) == value(u) * value(u) * (3real - 2real * value(u)),
{
    small_numbers(value);
    let slope = N::fraction(3, 1).difference(N::fraction(2, 1).product(u));
    assert(value(slope) == 3real - 2real * value(u));
    assert(value(u.product(u)) == value(u) * value(u));
}

/// In exact numbers, the straight curve and the one that eases in and out
/// never go back, and stay between zero and one.
pub proof fn easing_never_goes_back<N: Num>(
    value: spec_fn(N) -> real,
    curve: Curve<N>,
    s: N,
    t: N,
)
    requires
        exact(value),
        curve is Linear || curve is EaseInOut,
        value(s) <= value(t),
    ensures
        0real <= value(eased(curve, s)) <= value(eased(curve, t)) <= 1real,
{
    small_numbers(value);
    let u = unit_clamped(s);
    let v = unit_clamped(t);
    let (x, y) = (value(u), value(v));
    assert(0real <= x <= y <= 1real);
    if curve is EaseInOut {
        eased_value(value, u);
        eased_value(value, v);
        assert(0real <= x * x * (3real - 2real * x) <= y * y * (3real - 2real * y) <= 1real)
            by (nonlinear_arith)
            requires
                0real <= x <= y <= 1real,
        ;
    }
}

/// The cubic from zero to one with the inner control values `p` and `q`, at
/// the parameter `s`.
pub open spec fn cubic(p: real, q: real, s: real) -> real {
    3real * (1real - s) * (1real - s) * s * p + 3real * (1real - s) * s * s * q + s * s * s
}

/// Its derivative.
pub open spec fn cubic_slope(p: real, q: real, s: real) -> real {
    3real * (1real - s) * (1real - s) * p + 6real * (1real - s) * s * (q - p) + 3real * s * s * (
    1real - q)
}

/// `v` held between zero and one.
pub open spec fn in_unit(v: real) -> real {
    if v < 0real {
        0real
    } else if v > 1real {
        1real
    } else {
        v
    }
}

/// `b` is where one step of Newton's method for `cubic(p, q, s) == x` leads
/// from `a`.
pub open spec fn newton_leads(p: real, q: real, x: real, a: real, b: real) -> bool {
    exists|d: real|
        b == #[trigger] in_unit(a - d) && d * cubic_slope(p, q, a) == cubic(p, q, a) - x
}

/// A path of steps of Newton's method that ends at `s`.
pub open spec fn newton_path(p: real, q: real, x: real, path: Seq<real>, s: real) -> bool {
    &&& path.len() > 0
    &&& path.last() == s
    &&& forall|i: int|
        0 <= i < path.len() - 1 ==> newton_leads(p, q, x, #[trigger] path[i], path[i + 1])
}

proof fn bezier_value<N: Num>(value: spec_fn(N) -> real, p: N, q: N, t: N)
    requires
        exact(value),
    ensures
        value(bezier_at(p, q, t)) == cubic(value(p), value(q), value(t)),
{
    fractions_are_exact(value);
    let it = one::<N>().difference(t);
    let three = N::fraction(3, 1);
    assert(value(it) == 1real - value(t));
    assert(value(three) == 3real);
    assert(value(three.product(it).product(it).product(t).product(p)) == 3real * value(it) * value(
        it,
    ) * value(t) * value(p));
    assert(value(three.product(it).product(t).product(t).product(q)) == 3real * value(it) * value(
        t,
    ) * value(t) * value(q));
}

proof fn bezier_slope_value<N: Num>(value: spec_fn(N) -> real, p: N, q: N, t: N)
    requires
        exact(value),
    ensures
        value(bezier_slope_at(p, q, t)) == cubic_slope(value(p), value(q), value(t)),
{
    fractions_are_exact(value);
    let it = one::<N>().difference(t);
    let three = N::fraction(3, 1);
    let six = N::fraction(6, 1);
    assert(value(it) == 1real - value(t));
    assert(value(three) == 3real);
    assert(value(six) == 6real);
    assert(value(three.product(it).product(it).product(p)) == 3real * value(it) * value(it)
        * value(p));
    assert(value(six.product(it).product(t).product(q.difference(p))) == 6real * value(it) * value(
        t,
    ) * (value(q) - value(p)));
    assert(value(three.product(t).product(t).product(one::<N>().difference(q))) == 3real * value(t)
        * value(t) * (1real - value(q)));
}

proof fn unit_value<N: Num>(value: spec_fn(N) -> real, v: N)
    requires
        exact(value),
    ensures
        value(unit_clamped(v)) == in_unit(value(v)),
{
    fractions_are_exact(value);
}

proof fn newton_finds<N: Num>(
    value: spec_fn(N) -> real,
    x1: N,
    x2: N,
    x: N,
    t: N,
    steps: nat,
) -> (path: Seq<real>)
    requires
        computes_exactly(value),
        0real <= value(t) <= 1real,
    ensures
        ({
            let s = value(newton(x1, x2, x, t, steps));
            let (p, q) = (value(x1), value(x2));
            &&& 0real <= s <= 1real
            &&& path.len() <= steps + 1
            &&& path.len() > 0
            &&& path[0] == value(t)
            &&& newton_path(p, q, value(x), path, s)
            &&& path.len() == steps + 1 || 10_000real * (cubic(p, q, s) - value(x)) < 1real && -1real
                < 10_000real * (cubic(p, q, s) - value(x)) || -1real < 1_000_000real * cubic_slope(
                p,
                q,
                s,
            ) < 1real
        }),
    decreases steps,
{
    let (p, q) = (value(x1), value(x2));
    let err = bezier_at(x1, x2, t).difference(x);
    let slope = bezier_slope_at(x1, x2, t);
    bezier_value(value, x1, x2, t);
    bezier_slope_value(value, x1, x2, t);
    let small = N::fraction(1, 10_000);
    let tiny = N::fraction(1, 1_000_000);
    assert(value(small) * (10_000i32 as real) == 1i32 as real);
    assert(value(tiny) * (1_000_000i32 as real) == 1i32 as real);
    if steps == 0 || err.magnitude().below(small) || slope.magnitude().below(tiny) {
        let path = seq![value(t)];
        assert(newton_path(p, q, value(x), path, value(t)));
        path
    } else {
        let step = err.quotient(slope);
        let next = unit_clamped(t.difference(step));
        unit_value(value, t.difference(step));
        assert(value(slope) != 0real);
        assert(value(step) * value(slope) == value(err));
        let d = value(step);
        assert(d * cubic_slope(p, q, value(t)) == cubic(p, q, value(t)) - value(x));
        assert(newton_leads(p, q, value(x), value(t), value(next)));
        let rest = newton_finds(value, x1, x2, x, next, (steps - 1) as nat);
        let path = seq![value(t)] + rest;
        let s = value(newton(x1, x2, x, t, steps));
        assert(path.last() == rest.last());
        assert forall|i: int| 0 <= i < path.len() - 1 implies newton_leads(
            p,
            q,
            value(x),
            #[trigger] path[i],
            path[i + 1],
        ) by {
            if i > 0 {
                assert(path[i] == rest[i - 1]);
                assert(path[i + 1] == rest[i]);
            }
        }
        path
    }
}

/// In exact numbers, a cubic timing curve gives the height of the curve above
/// the time: there is a parameter in the unit interval at which the first
/// coordinates come to the time, as near as the search goes, and the result is
/// what the second coordinates come to. The search starts at the time, makes
/// at most eight steps of Newton's method, and stops early only where it is
/// within a ten-thousandth, or where the curve runs upright.
pub proof fn timing_curves_are_read_above_the_time<N: Num>(
    value: spec_fn(N) -> real,
    c: [N; 4],
    t: N,
) -> (path: Seq<real>)
    requires
        computes_exactly(value),
    ensures
        ({
            let (x1, y1, x2, y2) = (value(c[0]), value(c[1]), value(c[2]), value(c[3]));
            let x = in_unit(value(t));
            let s = path.last();
            &&& 0real <= s <= 1real
            &&& value(eased(Curve::CubicBezier(c), t)) == cubic(y1, y2, s)
            &&& path[0] == x
            &&& path.len() <= 9
            &&& newton_path(x1, x2, x, path, s)
            &&& path.len() < 9 ==> -1real < 10_000real * (cubic(x1, x2, s) - x) < 1real || -1real
                < 1_000_000real * cubic_slope(x1, x2, s) < 1real
        }),
{
    let u = unit_clamped(t);
    unit_value(value, t);
    let path = newton_finds(value, c[0], c[2], u, u, 8);
    bezier_value(value, c[1], c[3], newton(c[0], c[2], u, u, 8));
    path
}

/// In exact numbers, where the first coordinates run evenly the result is the
/// cubic of the second ones at the time itself.
pub proof fn even_timing_curves_are_cubics<N: Num>(
    value: spec_fn(N) -> real,
    c: [N; 4],
    t: N,
)
    requires
        computes_exactly(value),
        3real * value(c[0]) == 1real,
        3real * value(c[2]) == 2real,
        0real <= value(t) <= 1real,
    ensures
        value(eased(Curve::CubicBezier(c), t)) == cubic(value(c[1]), value(c[3]), value(t)),
{
    let u = unit_clamped(t);
    unit_value(value, t);
    bezier_value(value, c[0], c[2], u);
    bezier_value(value, c[1], c[3], u);
    let (s, p, q) = (value(u), value(c[0]), value(c[2]));
    assert(cubic(p, q, s) == s) by (nonlinear_arith)
        requires
            3real * p == 1real,
            3real * q == 2real,
            cubic(p, q, s) == 3real * (1real - s) * (1real - s) * s * p + 3real * (1real - s) * s
                * s * q + s * s * s,
    ;
    let small = N::fraction(1, 10_000);
    assert(value(small) * (10_000i32 as real) == 1i32 as real);
    let err = bezier_at(c[0], c[2], u).difference(u);
    assert(value(err) == 0real);
    assert(err.magnitude().below(small));
    assert(newton(c[0], c[2], u, u, 8) == u);
}

/// In exact numbers, a straight tween has gone as much of its way as of its
/// time, and a tween other than a spring is over when its time is, which is at
/// least a microsecond.
pub proof fn straight_tweens_keep_time<N: Num>(
    value: spec_fn(N) -> real,
    curve: Curve<N>,
    elapsed: u64,
    duration: u64,
    spring: SpringSample<N>,
)
    requires
        computes_exactly(value),
        !(curve is Spring),
    ensures
        ({
            let span = if duration < 1000 {
                1000int
            } else {
                duration as int
            };
            let (progress, done) = progress_of(curve, elapsed, duration, spring);
            &&& done <==> elapsed >= span
            &&& curve is Linear && elapsed <= span ==> value(progress) * (span as real)
                == elapsed as real
        }),
{
    fractions_are_exact(value);
    let total = N::nanoseconds(duration).larger(N::fraction(1, 1_000_000));
    let t = N::nanoseconds(elapsed).quotient(total);
    let least = value(N::fraction(1, 1_000_000));
    assert(least * (1_000_000i32 as real) == 1i32 as real);
    let (d, e, w, r) = (
        value(N::nanoseconds(duration)),
        value(N::nanoseconds(elapsed)),
        value(total),
        value(t),
    );
    assert(d * 1_000_000_000real == duration as real);
    assert(e * 1_000_000_000real == elapsed as real);
    let span = if duration < 1000 {
        1000int
    } else {
        duration as int
    };
    assert((1_000_000i32 as real) == 1_000_000real);
    assert(least * 1_000_000real == 1real);
    assert(least * 1_000_000_000real == 1000real) by (nonlinear_arith)
        requires
            least * 1_000_000real == 1real,
    ;
    assert(span as real == if duration < 1000 {
        1000real
    } else {
        duration as real
    });
    assert((d < least) <==> duration < 1000) by {
        assert((d < least) <==> (duration as real) < 1000real);
        assert(((duration as real) < 1000real) <==> duration < 1000);
    }
    assert(w == if d < least {
        least
    } else {
        d
    });
    assert(w * 1_000_000_000real == span as real);
    assert(w > 0real);
    assert(r * w == e);
    assert((r >= 1real) <==> (e >= w)) by (nonlinear_arith)
        requires
            r * w == e,
            w > 0real,
    ;
    assert((elapsed as real >= span as real) <==> elapsed >= span);
    unit_value(value, t);
    unit_value(value, unit_clamped(t));
    if curve is Linear && elapsed <= span {
        assert(0real <= r <= 1real) by (nonlinear_arith)
            requires
                r * w == e,
                w > 0real,
                0real <= e <= w,
        ;
        assert(r * (span as real) == elapsed as real) by (nonlinear_arith)
            requires
                r * w == e,
                w * 1_000_000_000real == span as real,
                e * 1_000_000_000real == elapsed as real,
        ;
    }
}

/// In exact numbers, a spring tween is where the spring is, and is over once
/// it rests at its target, within a thousandth, or when its time is over.
pub proof fn spring_tweens_follow_the_spring<N: Num>(
    value: spec_fn(N) -> real,
    stiffness: N,
    damping: N,
    elapsed: u64,
    duration: u64,
    spring: SpringSample<N>,
)
    requires
        computes_exactly(value),
    ensures
        ({
            let curve = Curve::Spring { stiffness, damping };
            let (progress, done) = progress_of(curve, elapsed, duration, spring);
            let (x, v) = (value(spring.position), value(spring.velocity));
            &&& value(progress) == x
            &&& done <==> elapsed >= duration || (-1real < 1000real * (x - 1real) < 1real && -1real
                < 1000real * v < 1real)
        }),
{
    fractions_are_exact(value);
    assert(value(N::fraction(1, 1_000)) * (1_000i32 as real) == 1i32 as real);
}

/// The numbers of a value, by their places.
pub open spec fn part<N>(v: Value<N>, i: int) -> Option<N> {
    match v {
        Value::Scalar(a) => if i == 0 {
            Some(a)
        } else {
            None
        },
        Value::Pair(a) => if 0 <= i < 2 {
            Some(a[i])
        } else {
            None
        },
        Value::Quad(a) => if 0 <= i < 4 {
            Some(a[i])
        } else {
            None
        },
        _ => None,
    }
}

/// In exact numbers, a tween that runs writes its two ends weighed by its
/// progress, each number by itself; before it starts it is at its origin, and
/// when it is over at its target.
pub proof fn tweens_weigh_their_ends<N: Num>(
    value: spec_fn(N) -> real,
    tw: Tween<N>,
    now: u64,
    spring: SpringSample<N>,
    i: int,
)
    requires
        computes_exactly(value),
        part(tw.from, i) is Some,
        part(tw.to, i) is Some,
        (tw.from is Scalar) == (tw.to is Scalar),
        (tw.from is Pair) == (tw.to is Pair),
    ensures
        ({
            let since = if now >= tw.start {
                (now - tw.start) as u64
            } else {
                0u64
            };
            let (progress, done) = progress_of(tw.curve, since, tw.duration, spring);
            let (written, over) = sampled(tw, now, spring);
            let (a, b, u) = (value(part(tw.from, i)->0), value(part(tw.to, i)->0), value(progress));
            &&& over == done
            &&& done ==> written == tw.to
            &&& !done ==> part(written, i) is Some && value(part(written, i)->0) == a * (1real - u)
                + b * u
            &&& now <= tw.start && !(tw.curve is Spring) ==> !done && value(part(written, i)->0)
                == a
        }),
{
    let since = if now >= tw.start {
        (now - tw.start) as u64
    } else {
        0u64
    };
    let (progress, done) = progress_of(tw.curve, since, tw.duration, spring);
    let (a, b) = (part(tw.from, i)->0, part(tw.to, i)->0);
    interpolation_weighs_the_ends(value, a, b, progress);
    if !done {
        let (written, _) = sampled(tw, now, spring);
        assert(part(written, i) == Some(lerped(a, b, progress)));
    }
    if now <= tw.start && !(tw.curve is Spring) {
        straight_tweens_keep_time(value, tw.curve, since, tw.duration, spring);
        let total = N::nanoseconds(tw.duration).larger(N::fraction(1, 1_000_000));
        let t = N::nanoseconds(since).quotient(total);
        let (w, r, e) = (value(total), value(t), value(N::nanoseconds(since)));
        assert(e * 1_000_000_000real == 0real);
        assert(value(N::fraction(1, 1_000_000)) * (1_000_000i32 as real) == 1i32 as real);
        assert(w > 0real);
        assert(r == 0real) by (nonlinear_arith)
            requires
                r * w == e,
                e == 0real,
                w > 0real,
        ;
        unit_value(value, t);
        curves_start_at_zero_and_end_at_one(value, tw.curve, unit_clamped(t));
    }
}

/// Starting a tween toward another value than the cell holds leaves exactly
/// one tween with its key, from the present value to the target, and the
/// others as they were; stopping one leaves none with its key.
pub proof fn a_key_has_one_tween<N: Num>(
    tweens: Seq<Tween<N>>,
    store: Seq<Cell<N>>,
    key: u32,
    signal: SignalId,
    to: Value<N>,
    animation: (Curve<N>, u64),
    now: u64,
)
    requires
        !same_value(store[signal.index as int].value, to),
    ensures
        ({
            let after = tween_started(tweens, store, key, signal, to, animation, now);
            let new = after.last();
            &&& after.len() > 0
            &&& new.key == key && new.signal == signal && new.start == now
            &&& new.from == store[signal.index as int].value && new.to == to
            &&& new.curve == animation.0 && new.duration == animation.1
            &&& forall|i: int| 0 <= i < after.len() - 1 ==> (#[trigger] after[i]).key != key
            &&& forall|tw: Tween<N>| tw.key != key ==> (#[trigger] after.contains(tw)
                <==> tweens.contains(tw))
        }),
        forall|tw: Tween<N>| #[trigger]
            without_key(tweens, key).contains(tw) <==> tweens.contains(tw) && tw.key != key,
{
    let rest = without_key(tweens, key);
    let after = tween_started(tweens, store, key, signal, to, animation, now);
    let keeps = |t: Tween<N>| t.key != key;
    tweens.filter_lemma(keeps);
    assert forall|tw: Tween<N>| #[trigger] rest.contains(tw) <==> tweens.contains(tw) && tw.key
        != key by {
        if rest.contains(tw) {
            let i = choose|i: int| 0 <= i < rest.len() && rest[i] == tw;
            tweens.lemma_filter_contains_rev(keeps, tw);
        }
        if tweens.contains(tw) && tw.key != key {
            let i = choose|i: int| 0 <= i < tweens.len() && tweens[i] == tw;
            assert(keeps(tweens[i]));
        }
    }
    assert forall|i: int| 0 <= i < after.len() - 1 implies (#[trigger] after[i]).key != key by {
        assert(rest.contains(rest[i]));
    }
    assert forall|tw: Tween<N>| tw.key != key implies (#[trigger] after.contains(tw)
        <==> tweens.contains(tw)) by {
        if after.contains(tw) {
            let i = choose|i: int| 0 <= i < after.len() && after[i] == tw;
            assert(rest[i] == tw);
            assert(rest.contains(tw));
        }
        if rest.contains(tw) {
            let i = choose|i: int| 0 <= i < rest.len() && rest[i] == tw;
            assert(after[i] == tw);
        }
    }
}

/// A tick keeps every tween that is not over.
pub proof fn tweens_run_until_they_are_over<N: Num>(
    tweens: Seq<Tween<N>>,
    springs: Seq<SpringSample<N>>,
    now: u64,
    n: nat,
    i: int,
)
    requires
        0 <= i < n <= tweens.len(),
        !sampled(tweens[i], now, springs[i]).1,
    ensures
        still_running(tweens, springs, now, n).contains(tweens[i]),
    decreases n,
{
    let before = still_running(tweens, springs, now, (n - 1) as nat);
    let all = still_running(tweens, springs, now, n);
    if i < n - 1 {
        tweens_run_until_they_are_over(tweens, springs, now, (n - 1) as nat, i);
        let j = choose|j: int| 0 <= j < before.len() && before[j] == tweens[i];
        assert(all[j] == tweens[i]);
    } else {
        assert(all[before.len() as int] == tweens[i]);
    }
}

/// Dropping a key drops all tweens under it, and no other.
pub proof fn dropped_keys_are_gone<N: Num>(tweens: Seq<Tween<N>>, key: u32)
    ensures
        forall|i: int|
            0 <= i < without_key(tweens, key).len() ==> (#[trigger] without_key(tweens, key)[i]).key
                != key,
        forall|i: int|
            0 <= i < tweens.len() && (#[trigger] tweens[i]).key != key ==> without_key(
                tweens,
                key,
            ).contains(tweens[i]),
{
    let keeps = |t: Tween<N>| t.key != key;
    tweens.filter_lemma(keeps);
    assert forall|i: int| 0 <= i < tweens.len() && (#[trigger] tweens[i]).key != key implies
        without_key(tweens, key).contains(tweens[i]) by {
        assert(keeps(tweens[i]));
    }
}

/// A tick writes every tween: its cell holds what the tween comes to at that
/// time, unless another tween writes the same cell; a cell that no tween writes
/// stays.
pub proof fn ticks_write_every_tween<N: Num>(
    value: spec_fn(N) -> real,
    tweens: Seq<Tween<N>>,
    springs: Seq<SpringSample<N>>,
    now: u64,
    store: Seq<Cell<N>>,
    n: nat,
    c: int,
)
    requires
        computes_exactly(value),
        within_store(tweens, store.len()),
        n <= tweens.len(),
        0 <= c < store.len(),
    ensures
        stepped_store(tweens, springs, now, store, n).len() == store.len(),
        (forall|i: int| 0 <= i < n ==> (#[trigger] tweens[i]).signal.index != c) ==> stepped_store(
            tweens,
            springs,
            now,
            store,
            n,
        )[c] == store[c],
        forall|i: int|
            0 <= i < n && (#[trigger] tweens[i]).signal.index == c && (forall|j: int|
                0 <= j < n && j != i ==> (#[trigger] tweens[j]).signal.index != c)
                ==> crate::signal::reads_alike(
                value,
                stepped_store(tweens, springs, now, store, n)[c].value,
                sampled(tweens[i], now, springs[i]).0,
            ),
    decreases n,
{
    if n > 0 {
        let m = (n - 1) as nat;
        ticks_write_every_tween(value, tweens, springs, now, store, m, c);
        let before = stepped_store(tweens, springs, now, store, m);
        let tw = tweens[n - 1];
        assert(tw.signal.index < store.len());
        crate::signal::what_is_written_is_read(
            value,
            before,
            tw.signal.index as int,
            sampled(tw, now, springs[n - 1]).0,
        );
        assert forall|i: int|
            0 <= i < n && (#[trigger] tweens[i]).signal.index == c && (forall|j: int|
                0 <= j < n && j != i ==> (#[trigger] tweens[j]).signal.index != c) implies
            crate::signal::reads_alike(
            value,
            stepped_store(tweens, springs, now, store, n)[c].value,
            sampled(tweens[i], now, springs[i]).0,
        ) by {
            if i < m {
                assert(tweens[n - 1].signal.index != c);
                assert forall|j: int| 0 <= j < m && j != i implies (
                #[trigger] tweens[j]).signal.index != c by {}
            }
        }
    }
}

} // verus!
