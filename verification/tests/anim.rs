use frostify_gfx::anim::{Curve, SpringSample, Timeline};
use frostify_gfx::num::Num;
use frostify_gfx::signal::{SignalId, Signals, Value};

/// Numbers as the shell uses them.
#[derive(Clone, Copy, Debug, PartialEq, PartialOrd)]
struct F(f32);

impl Num for F {
    fn of_ratio(num: i32, den: i32) -> F {
        F(num as f32 / den as f32)
    }
    fn of_u64(n: u64) -> F {
        F(n as f32)
    }
    fn of_nanos(ns: u64) -> F {
        F(std::time::Duration::from_nanos(ns).as_secs_f32())
    }
    fn lowest_value() -> F {
        F(f32::NEG_INFINITY)
    }
    fn greatest_value() -> F {
        F(f32::MAX)
    }
    fn far_value() -> F {
        F(1.0e30)
    }
    fn plus(self, other: F) -> F {
        F(self.0 + other.0)
    }
    fn minus(self, other: F) -> F {
        F(self.0 - other.0)
    }
    fn times(self, other: F) -> F {
        F(self.0 * other.0)
    }
    fn over(self, other: F) -> F {
        F(self.0 / other.0)
    }
    fn negated(self) -> F {
        F(-self.0)
    }
    fn abs(self) -> F {
        F(self.0.abs())
    }
    fn max(self, other: F) -> F {
        F(self.0.max(other.0))
    }
    fn min(self, other: F) -> F {
        F(self.0.min(other.0))
    }
    fn floor(self) -> F {
        F(self.0.floor())
    }
    fn ceil(self) -> F {
        F(self.0.ceil())
    }
    fn round(self) -> F {
        F(self.0.round())
    }
    fn to_u32(self) -> u32 {
        self.0 as u32
    }
    fn lt(self, other: F) -> bool {
        self.0 < other.0
    }
    fn le(self, other: F) -> bool {
        self.0 <= other.0
    }
    fn eq(self, other: F) -> bool {
        self.0 == other.0
    }
}

const MS: u64 = 1_000_000;

fn still(n: usize) -> Vec<SpringSample<F>> {
    vec![SpringSample { position: F(0.0), velocity: F(0.0) }; n]
}

fn scalar(s: &Signals<F>, id: SignalId) -> f32 {
    match s.get(id) {
        Value::Scalar(v) => v.0,
        _ => panic!("not a number"),
    }
}

fn quad(s: &Signals<F>, id: SignalId) -> [f32; 4] {
    match s.get(id) {
        Value::Quad(v) => [v[0].0, v[1].0, v[2].0, v[3].0],
        _ => panic!("not a colour"),
    }
}

fn tick(
    tl: &mut Timeline<F>,
    s: &mut Signals<F>,
    now: u64,
) -> frostify_gfx::anim::TickResult {
    let springs = still(tl.len());
    tl.tick(s, &springs, now)
}

#[test]
fn linear_end_to_end() {
    let mut signals: Signals<F> = Signals::new();
    let s = signals.create(Value::Scalar(F(0.0)));
    let mut tl: Timeline<F> = Timeline::new();
    let now = 1_000 * MS;
    tl.start(&signals, 0, s, Value::Scalar(F(1.0)), Curve::Linear, 100 * MS, now);
    assert!(tl.active());
    let mid = tick(&mut tl, &mut signals, now + 50 * MS);
    assert!(mid.updated);
    assert!((scalar(&signals, s) - 0.5).abs() < 1e-3);
    let end = tick(&mut tl, &mut signals, now + 120 * MS);
    assert!(end.updated);
    assert!(!tl.active());
    assert_eq!(scalar(&signals, s), 1.0);
}

#[test]
fn ease_in_out_monotonic() {
    let c: Curve<F> = Curve::EaseInOut;
    let mut prev = -1.0;
    for i in 0..=10 {
        let y = c.eval(F(i as f32 / 10.0)).0;
        assert!(y >= prev);
        prev = y;
    }
    assert!((c.eval(F(0.0)).0).abs() < 1e-4);
    assert!((c.eval(F(1.0)).0 - 1.0).abs() < 1e-4);
}

#[test]
fn cubic_bezier_endpoints() {
    let c = Curve::CubicBezier([F(0.42), F(0.0), F(0.58), F(1.0)]);
    assert!(c.eval(F(0.0)).0.abs() < 1e-3);
    assert!((c.eval(F(1.0)).0 - 1.0).abs() < 1e-3);
}

#[test]
fn restart_picks_up_current_value() {
    let mut signals: Signals<F> = Signals::new();
    let s = signals.create(Value::Scalar(F(0.0)));
    let mut tl: Timeline<F> = Timeline::new();
    let now = 1_000 * MS;
    tl.start(&signals, 0, s, Value::Scalar(F(1.0)), Curve::Linear, 100 * MS, now);
    tick(&mut tl, &mut signals, now + 40 * MS);
    let mid_val = scalar(&signals, s);
    assert!(mid_val > 0.3 && mid_val < 0.5);
    tl.start(&signals, 0, s, Value::Scalar(F(0.0)), Curve::Linear, 100 * MS, now + 40 * MS);
    assert_eq!(tl.len(), 1);
    tick(&mut tl, &mut signals, now + 90 * MS);
    let after = scalar(&signals, s);
    let expected = mid_val * 0.5;
    assert!((after - expected).abs() < 0.05, "after={after} expected~{expected}");
}

#[test]
fn vector_tween_lerps_components() {
    let mut signals: Signals<F> = Signals::new();
    let s = signals.create(Value::Quad([F(0.0), F(0.0), F(0.0), F(1.0)]));
    let mut tl: Timeline<F> = Timeline::new();
    let now = 1_000 * MS;
    tl.start(
        &signals,
        0,
        s,
        Value::Quad([F(1.0), F(0.5), F(0.25), F(1.0)]),
        Curve::Linear,
        100 * MS,
        now,
    );
    tick(&mut tl, &mut signals, now + 50 * MS);
    let v = quad(&signals, s);
    assert!((v[0] - 0.5).abs() < 1e-3);
    assert!((v[1] - 0.25).abs() < 1e-3);
    assert!((v[2] - 0.125).abs() < 1e-3);
    assert_eq!(v[3], 1.0);
    let end = tick(&mut tl, &mut signals, now + 120 * MS);
    assert!(end.updated);
    assert_eq!(quad(&signals, s), [1.0, 0.5, 0.25, 1.0]);
}

#[test]
fn tween_to_the_present_value_does_not_start() {
    let mut signals: Signals<F> = Signals::new();
    let s = signals.create(Value::Scalar(F(0.25)));
    let mut tl: Timeline<F> = Timeline::new();
    tl.start(&signals, 7, s, Value::Scalar(F(0.25)), Curve::Linear, 100 * MS, 0);
    assert!(tl.is_empty());
}

#[test]
fn a_running_tween_is_left_alone_by_a_start_at_the_present_value() {
    let mut signals: Signals<F> = Signals::new();
    let s = signals.create(Value::Scalar(F(0.0)));
    let mut tl: Timeline<F> = Timeline::new();
    tl.start(&signals, 7, s, Value::Scalar(F(1.0)), Curve::Linear, 100 * MS, 0);
    tl.start(&signals, 7, s, Value::Scalar(F(0.0)), Curve::Linear, 100 * MS, 0);
    assert_eq!(tl.len(), 1);
    assert!(matches!(tl.tween(0).to, Value::Scalar(F(v)) if v == 1.0));
    // A restart drops it first.
    tl.restart(&signals, 7, s, Value::Scalar(F(0.0)), Curve::Linear, 100 * MS, 0);
    assert!(tl.is_empty());
    tl.start(&signals, 7, s, Value::Scalar(F(1.0)), Curve::Linear, 100 * MS, 0);
    tl.restart(&signals, 7, s, Value::Scalar(F(2.0)), Curve::Linear, 100 * MS, 5);
    assert_eq!(tl.len(), 1);
    assert!(matches!(tl.tween(0).to, Value::Scalar(F(v)) if v == 2.0));
    assert_eq!(tl.tween(0).start, 5);
}

#[test]
fn curves_rest_outside_of_the_unit_interval() {
    let bezier = Curve::CubicBezier([F(0.42), F(0.0), F(0.58), F(1.0)]);
    for c in [Curve::Linear, Curve::EaseInOut, bezier] {
        assert_eq!(c.eval(F(-3.0)), c.eval(F(0.0)));
        assert_eq!(c.eval(F(7.0)), c.eval(F(1.0)));
        assert_eq!(c.eval(F(0.0)), F(0.0));
        assert_eq!(c.eval(F(1.0)), F(1.0));
    }
    assert_eq!(Curve::EaseInOut.eval(F(0.5)), F(0.5));
    assert_eq!(Curve::EaseInOut.eval(F(0.25)), F(0.15625));
}

#[test]
fn stop_drops_only_its_key() {
    let mut signals: Signals<F> = Signals::new();
    let a = signals.create(Value::Scalar(F(0.0)));
    let b = signals.create(Value::Scalar(F(0.0)));
    let mut tl: Timeline<F> = Timeline::new();
    tl.start(&signals, 1, a, Value::Scalar(F(1.0)), Curve::Linear, 100 * MS, 0);
    tl.start(&signals, 2, b, Value::Scalar(F(1.0)), Curve::Linear, 100 * MS, 0);
    tl.stop(1);
    assert_eq!(tl.len(), 1);
    assert_eq!(tl.tween(0).key, 2);
    tl.clear();
    assert!(!tl.active());
}

#[test]
fn tick_asks_for_the_next_one_while_running() {
    let mut signals: Signals<F> = Signals::new();
    let s = signals.create(Value::Scalar(F(0.0)));
    let mut tl: Timeline<F> = Timeline::new();
    assert_eq!(tl.tick_interval(), 16 * MS);
    tl.set_tick_interval(8 * MS);
    tl.start(&signals, 0, s, Value::Scalar(F(1.0)), Curve::Linear, 100 * MS, 0);
    let r = tick(&mut tl, &mut signals, 10 * MS);
    assert_eq!(r.next_deadline, Some(18 * MS));
    let r = tick(&mut tl, &mut signals, 200 * MS);
    assert_eq!(r.next_deadline, None);
    // A finished tween lands on its target exactly.
    assert_eq!(scalar(&signals, s), 1.0);
}

#[test]
fn a_spring_tween_writes_the_sampled_position() {
    let mut signals: Signals<F> = Signals::new();
    let s = signals.create(Value::Scalar(F(0.0)));
    let mut tl: Timeline<F> = Timeline::new();
    let spring = Curve::Spring { stiffness: F(180.0), damping: F(20.0) };
    tl.start(&signals, 0, s, Value::Scalar(F(10.0)), spring, 1_000 * MS, 0);
    let sample = vec![SpringSample { position: F(0.5), velocity: F(1.0) }];
    tl.tick(&mut signals, &sample, 10 * MS);
    assert_eq!(scalar(&signals, s), 5.0);
    assert!(tl.active());
    let settled = vec![SpringSample { position: F(1.0), velocity: F(0.0) }];
    tl.tick(&mut signals, &settled, 20 * MS);
    assert!(!tl.active());
    assert_eq!(scalar(&signals, s), 10.0);
}

#[test]
fn writing_an_equal_value_moves_no_version() {
    let mut signals: Signals<F> = Signals::new();
    let s = signals.create(Value::Flag(false));
    assert!(signals.set(s, Value::Flag(true)));
    assert_eq!(signals.version(s), 1);
    assert!(!signals.set(s, Value::Flag(true)));
    assert_eq!(signals.version(s), 1);
}
