//! One turn of the event loop: whether there is anything to do, what, and
//! when to wake up next.
use vstd::prelude::*;

use crate::num::{computes_exactly, zero, Num};

verus! {

/// Nanoseconds between two steps of a scroll in motion.
pub const SCROLL_INTERVAL: u64 = 16_000_000;

/// What can keep the loop awake.
#[derive(Copy, Clone, Debug, PartialEq, Eq, Structural)]
pub struct Wakes {
    pub timeline_active: bool,
    pub scroll_active: bool,
    pub drag_moved: bool,
    pub hover_moved: bool,
    pub dwell_pending: bool,
    pub dwell_fired: bool,
    pub hover_rechecked: bool,
    pub recheck_armed: bool,
    pub hint_repaint: bool,
    pub script: bool,
    pub caret: bool,
}

impl Wakes {
    /// Nothing keeps the loop awake.
    pub open spec fn idle(self) -> bool {
        &&& !self.timeline_active
        &&& !self.scroll_active
        &&& !self.drag_moved
        &&& !self.hover_moved
        &&& !self.dwell_pending
        &&& !self.dwell_fired
        &&& !self.hover_rechecked
        &&& !self.recheck_armed
        &&& !self.hint_repaint
        &&& !self.script
        &&& !self.caret
    }

    /// Whether the loop can sleep until something happens.
    pub fn is_idle(&self) -> (r: bool)
        ensures
            r == self.idle(),
    {
        !self.timeline_active && !self.scroll_active && !self.drag_moved && !self.hover_moved
            && !self.dwell_pending && !self.dwell_fired && !self.hover_rechecked
            && !self.recheck_armed && !self.hint_repaint && !self.script && !self.caret
    }
}

/// The span from one tick to the next in seconds, but not more than a
/// twentieth; `first` where there was no tick before.
pub open spec fn tick_span<N: Num>(last: Option<u64>, now: u64, first: N) -> N {
    match last {
        Some(t) => N::nanoseconds(
            (if now >= t {
                now - t
            } else {
                0
            }) as u64,
        ).smaller(N::fraction(1, 20)),
        None => first,
    }
}

fn span_since<N: Num>(last: Option<u64>, now: u64, first: N) -> (r: N)
    ensures
        r == tick_span(last, now, first),
{
    match last {
        Some(t) => {
            let ns: u64 = if now >= t {
                now - t
            } else {
                0
            };
            N::of_nanos(ns).min(N::of_ratio(1, 20))
        },
        None => first,
    }
}

/// The span by which held keys scroll: a sixtieth of a second at first.
pub fn hold_span<N: Num>(last: Option<u64>, now: u64) -> (r: N)
    ensures
        r == tick_span(last, now, N::fraction(1, 60)),
{
    span_since(last, now, N::of_ratio(1, 60))
}

/// The span by which scrolls in motion move: none at first.
pub fn scroll_span<N: Num>(last: Option<u64>, now: u64) -> (r: N)
    ensures
        r == tick_span(last, now, zero::<N>()),
{
    span_since(last, now, N::of_ratio(0, 1))
}

/// What happened in a turn.
#[derive(Copy, Clone, Debug, PartialEq, Eq, Structural)]
pub struct Happened {
    /// A tween wrote a cell.
    pub tweened: bool,
    /// The frame hook ran.
    pub hook: bool,
    pub scroll_moved: bool,
    pub drag_moved: bool,
    pub hover_moved: bool,
    pub dwell_fired: bool,
    pub caret_blinked: bool,
}

/// What is to be done about it.
#[derive(Copy, Clone, Debug, PartialEq, Eq, Structural)]
pub struct Reaction {
    /// Look at the sources of all binds.
    pub binds: bool,
    /// Make layers follow their opacity cells.
    pub layer_opacities: bool,
    /// Make layers follow their offset cells.
    pub layer_offsets: bool,
    /// Show the displayed values of animated binds.
    pub displays: bool,
    /// Flush the tree.
    pub flush: bool,
}

pub open spec fn reaction_to(h: Happened) -> Reaction {
    Reaction {
        binds: h.tweened || h.hook,
        layer_opacities: h.tweened,
        layer_offsets: h.hover_moved || h.drag_moved,
        displays: h.tweened,
        flush: h.tweened || h.scroll_moved || h.drag_moved || h.hover_moved || h.hook
            || h.dwell_fired || h.caret_blinked,
    }
}

/// What is to be done after a tick.
pub fn react_to(h: Happened) -> (r: Reaction)
    ensures
        r == reaction_to(h),
{
    Reaction {
        binds: h.tweened || h.hook,
        layer_opacities: h.tweened,
        layer_offsets: h.hover_moved || h.drag_moved,
        displays: h.tweened,
        flush: h.tweened || h.scroll_moved || h.drag_moved || h.hover_moved || h.hook
            || h.dwell_fired || h.caret_blinked,
    }
}

/// How far a turn has come.
#[derive(Copy, Clone, Debug, PartialEq, Eq, Structural)]
pub enum TurnAt {
    /// Nothing was done yet.
    Start,
    /// The scene is built anew; `hook` says whether there is a frame hook.
    Rebuilding { hook: bool },
    /// Pictures and frames from other threads are taken over.
    Draining { hook: bool },
    /// The frame hook runs.
    Hooking,
    /// What the frame hook changed is brought to the tree.
    Settling,
    /// The tree is flushed after the frame hook.
    Flushing,
    /// Pointer, keys, script and caret are looked at.
    Gathering { hook: bool },
    /// Scrolls and tweens advance.
    Ticking { hook: bool },
    /// What the tick changed is brought to the tree.
    Reacting,
    /// The turn is over.
    Over,
}

/// What came of the last step of a turn.
#[derive(Copy, Clone, Debug, PartialEq, Eq, Structural)]
pub enum TurnEvent {
    /// The turn begins: whether a picture is due, whether the scene is to be
    /// built anew, and whether there is a frame hook.
    Begun { capture_due: bool, rebuild: bool, hook: bool },
    /// The step was made.
    Done,
    /// The frame hook ran; `rebuild` says whether it asked for a new scene.
    HookRan { rebuild: bool },
    /// What keeps the loop awake.
    Gathered(Wakes),
    /// What happened in the tick.
    Ticked(Happened),
}

/// The next step of a turn.
#[derive(Copy, Clone, Debug, PartialEq, Eq, Structural)]
pub enum TurnStep {
    /// Take the picture and leave.
    Capture,
    /// Build the scene anew.
    Rebuild,
    /// Take over pictures and frames from other threads.
    Drain,
    /// Run the frame hook.
    RunHook,
    /// Look at the sources of all binds.
    ProcessBinds,
    /// Flush the tree.
    Flush,
    /// Look at pointer, keys, script and caret.
    Gather,
    /// Advance scrolls and tweens.
    Tick,
    React(Reaction),
    /// Sleep until something happens.
    Park,
    /// Sleep until the next deadline.
    Schedule,
    /// Nothing: the event does not belong here.
    Nothing,
}

/// The turn once the scene is the right one and all from other threads is
/// there.
pub open spec fn scene_ready(hook: bool) -> (TurnAt, TurnStep) {
    if hook {
        (TurnAt::Hooking, TurnStep::RunHook)
    } else {
        (TurnAt::Gathering { hook: false }, TurnStep::Gather)
    }
}

/// The turn after an event. A scene that is to be built anew comes first, then
/// what other threads delivered, so that the frame hook, which comes next,
/// finds it; and what the hook changed is shown; then the loop sleeps if
/// nothing keeps it awake, or scrolls and tweens advance and what they changed
/// is shown.
pub open spec fn turn_next(at: TurnAt, e: TurnEvent) -> (TurnAt, TurnStep) {
    match (at, e) {
        (TurnAt::Start, TurnEvent::Begun { capture_due, rebuild, hook }) => if capture_due {
            (TurnAt::Over, TurnStep::Capture)
        } else if rebuild {
            (TurnAt::Rebuilding { hook }, TurnStep::Rebuild)
        } else {
            (TurnAt::Draining { hook }, TurnStep::Drain)
        },
        (TurnAt::Rebuilding { hook }, TurnEvent::Done) => (
            TurnAt::Draining { hook },
            TurnStep::Drain,
        ),
        (TurnAt::Draining { hook }, TurnEvent::Done) => scene_ready(hook),
        (TurnAt::Hooking, TurnEvent::HookRan { rebuild }) => (
            TurnAt::Settling,
            if rebuild {
                TurnStep::Rebuild
            } else {
                TurnStep::ProcessBinds
            },
        ),
        (TurnAt::Settling, TurnEvent::Done) => (TurnAt::Flushing, TurnStep::Flush),
        (TurnAt::Flushing, TurnEvent::Done) => (
            TurnAt::Gathering { hook: true },
            TurnStep::Gather,
        ),
        (TurnAt::Gathering { hook }, TurnEvent::Gathered(wakes)) => if wakes.idle() {
            (TurnAt::Over, TurnStep::Park)
        } else {
            (TurnAt::Ticking { hook }, TurnStep::Tick)
        },
        (TurnAt::Ticking { hook }, TurnEvent::Ticked(h)) => (
            TurnAt::Reacting,
            TurnStep::React(reaction_to(Happened { hook, ..h })),
        ),
        (TurnAt::Reacting, TurnEvent::Done) => (TurnAt::Over, TurnStep::Schedule),
        _ => (at, TurnStep::Nothing),
    }
}

fn with_scene_ready(hook: bool) -> (r: (TurnAt, TurnStep))
    ensures
        r == scene_ready(hook),
{
    if hook {
        (TurnAt::Hooking, TurnStep::RunHook)
    } else {
        (TurnAt::Gathering { hook: false }, TurnStep::Gather)
    }
}

/// Decides the next step of a turn.
pub fn turn_step(at: TurnAt, e: TurnEvent) -> (r: (TurnAt, TurnStep))
    ensures
        r == turn_next(at, e),
{
    match (at, e) {
        (TurnAt::Start, TurnEvent::Begun { capture_due, rebuild, hook }) => {
            if capture_due {
                (TurnAt::Over, TurnStep::Capture)
            } else if rebuild {
                (TurnAt::Rebuilding { hook }, TurnStep::Rebuild)
            } else {
                (TurnAt::Draining { hook }, TurnStep::Drain)
            }
        },
        (TurnAt::Rebuilding { hook }, TurnEvent::Done) => {
            (TurnAt::Draining { hook }, TurnStep::Drain)
        },
        (TurnAt::Draining { hook }, TurnEvent::Done) => with_scene_ready(hook),
        (TurnAt::Hooking, TurnEvent::HookRan { rebuild }) => {
            if rebuild {
                (TurnAt::Settling, TurnStep::Rebuild)
            } else {
                (TurnAt::Settling, TurnStep::ProcessBinds)
            }
        },
        (TurnAt::Settling, TurnEvent::Done) => (TurnAt::Flushing, TurnStep::Flush),
        (TurnAt::Flushing, TurnEvent::Done) => (TurnAt::Gathering { hook: true }, TurnStep::Gather),
        (TurnAt::Gathering { hook }, TurnEvent::Gathered(wakes)) => {
            if wakes.is_idle() {
                (TurnAt::Over, TurnStep::Park)
            } else {
                (TurnAt::Ticking { hook }, TurnStep::Tick)
            }
        },
        (TurnAt::Ticking { hook }, TurnEvent::Ticked(h)) => {
            let mut told: Happened = h;
            told.hook = hook;
            (TurnAt::Reacting, TurnStep::React(react_to(told)))
        },
        (TurnAt::Reacting, TurnEvent::Done) => (TurnAt::Over, TurnStep::Schedule),
        _ => (at, TurnStep::Nothing),
    }
}

/// How many steps lie behind at most.
pub open spec fn turn_rank(at: TurnAt) -> int {
    match at {
        TurnAt::Start => 0,
        TurnAt::Rebuilding { hook } => 1,
        TurnAt::Draining { hook } => 2,
        TurnAt::Hooking => 3,
        TurnAt::Settling => 4,
        TurnAt::Flushing => 5,
        TurnAt::Gathering { hook } => 6,
        TurnAt::Ticking { hook } => 7,
        TurnAt::Reacting => 8,
        TurnAt::Over => 9,
    }
}

/// A turn goes forward with every event that belongs where it is, so that it
/// ends; and once it is over nothing more is done.
pub proof fn turns_go_forward(at: TurnAt, e: TurnEvent)
    ensures
        ({
            let (next, step) = turn_next(at, e);
            &&& step is Nothing ==> next == at
            &&& !(step is Nothing) ==> turn_rank(at) < turn_rank(next) <= 9
            &&& at is Over ==> step is Nothing
            &&& step is RunHook <==> next is Hooking && !(at is Hooking)
            &&& step is RunHook ==> at is Draining
            &&& step is Drain <==> next is Draining && !(at is Draining)
            &&& step is Tick ==> next is Ticking
        }),
{
}

/// A turn: `at[i + 1]` and `steps[i]` come of the event `events[i]` at
/// `at[i]`.
pub open spec fn is_turn(at: Seq<TurnAt>, events: Seq<TurnEvent>, steps: Seq<TurnStep>) -> bool {
    &&& at.len() == events.len() + 1
    &&& steps.len() == events.len()
    &&& at[0] == TurnAt::Start
    &&& forall|i: int|
        0 <= i < events.len() ==> (at[i + 1], #[trigger] steps[i]) == turn_next(at[i], events[i])
}

proof fn turns_never_go_back(
    at: Seq<TurnAt>,
    events: Seq<TurnEvent>,
    steps: Seq<TurnStep>,
    i: int,
    j: int,
)
    requires
        is_turn(at, events, steps),
        0 <= i <= j < at.len(),
    ensures
        turn_rank(at[i]) <= turn_rank(at[j]),
    decreases j - i,
{
    if i < j {
        turns_never_go_back(at, events, steps, i, j - 1);
        assert((at[j - 1 + 1], steps[j - 1]) == turn_next(at[j - 1], events[j - 1]));
        turns_go_forward(at[j - 1], events[j - 1]);
    }
}

/// The frame hook runs at most once in a turn, and never after scrolls and
/// tweens advanced.
pub proof fn hook_runs_once_before_the_tick(
    at: Seq<TurnAt>,
    events: Seq<TurnEvent>,
    steps: Seq<TurnStep>,
    i: int,
    j: int,
)
    requires
        is_turn(at, events, steps),
        0 <= i < j < steps.len(),
        steps[i] is RunHook || steps[i] is Tick || steps[i] is Park,
    ensures
        !(steps[j] is RunHook),
{
    assert((at[i + 1], steps[i]) == turn_next(at[i], events[i]));
    assert((at[j + 1], steps[j]) == turn_next(at[j], events[j]));
    turns_go_forward(at[i], events[i]);
    turns_go_forward(at[j], events[j]);
    turns_never_go_back(at, events, steps, i + 1, j);
}

/// A scene that is to be built anew is built before anything else, the frame
/// hook above all.
pub proof fn rebuild_comes_before_the_hook(
    at: Seq<TurnAt>,
    events: Seq<TurnEvent>,
    steps: Seq<TurnStep>,
    hook: bool,
    j: int,
)
    requires
        is_turn(at, events, steps),
        0 <= j < steps.len(),
        events[0] == (TurnEvent::Begun { capture_due: false, rebuild: true, hook }),
    ensures
        steps[0] is Rebuild,
        steps[j] is RunHook ==> j > 0,
{
    let first: int = 0;
    assert((at[first + 1], steps[first]) == turn_next(at[first], events[first]));
}

/// What is known of a turn that began with a frame hook, or without one.
proof fn hook_is_noted(
    at: Seq<TurnAt>,
    events: Seq<TurnEvent>,
    steps: Seq<TurnStep>,
    hook: bool,
    n: int,
)
    requires
        is_turn(at, events, steps),
        0 <= n < at.len(),
        forall|k: int| 0 <= k < events.len() ==> (#[trigger] events[k] matches TurnEvent::Begun {
            capture_due,
            rebuild,
            hook: h,
        } ==> h == hook),
    ensures
        at[n] matches TurnAt::Rebuilding { hook: h } ==> h == hook,
        at[n] matches TurnAt::Draining { hook: h } ==> h == hook,
        at[n] matches TurnAt::Gathering { hook: h } ==> h == hook,
        at[n] matches TurnAt::Ticking { hook: h } ==> h == hook,
        at[n] is Hooking || at[n] is Settling || at[n] is Flushing ==> hook,
        turn_rank(at[n]) >= 3 && hook && !(at[n] is Over && exists|k: int|
            0 <= k < n && #[trigger] steps[k] is Capture) ==> exists|k: int|
            0 <= k < n && #[trigger] steps[k] is RunHook,
    decreases n,
{
    if n > 0 {
        hook_is_noted(at, events, steps, hook, n - 1);
        let before = at[n - 1];
        let e = events[n - 1];
        assert((at[n - 1 + 1], steps[n - 1]) == turn_next(before, e));
        if turn_rank(at[n]) >= 3 && hook {
            if steps[n - 1] is RunHook {
                assert(exists|k: int| 0 <= k < n && #[trigger] steps[k] is RunHook);
            } else if steps[n - 1] is Capture {
                assert(exists|k: int| 0 <= k < n && #[trigger] steps[k] is Capture);
            } else {
                assert(turn_rank(before) >= 3);
                if exists|k: int| 0 <= k < n - 1 && #[trigger] steps[k] is RunHook {
                    let k = choose|k: int| 0 <= k < n - 1 && #[trigger] steps[k] is RunHook;
                    assert(steps[k] is RunHook);
                } else {
                    let k = choose|k: int| 0 <= k < n - 1 && #[trigger] steps[k] is Capture;
                    assert(steps[k] is Capture);
                }
            }
        }
    }
}

/// In a turn with a frame hook, the hook has run before scrolls and tweens
/// advance, and before the loop sleeps; in one without, it never runs.
pub proof fn hook_runs_in_every_turn(
    at: Seq<TurnAt>,
    events: Seq<TurnEvent>,
    steps: Seq<TurnStep>,
    hook: bool,
    j: int,
)
    requires
        is_turn(at, events, steps),
        0 <= j < steps.len(),
        forall|k: int| 0 <= k < events.len() ==> (#[trigger] events[k] matches TurnEvent::Begun {
            capture_due,
            rebuild,
            hook: h,
        } ==> h == hook),
    ensures
        hook && (steps[j] is Tick || steps[j] is Park) ==> exists|k: int|
            0 <= k < j && #[trigger] steps[k] is RunHook,
        !hook ==> !(steps[j] is RunHook),
{
    assert((at[j + 1], steps[j]) == turn_next(at[j], events[j]));
    hook_is_noted(at, events, steps, hook, j);
    hook_is_noted(at, events, steps, hook, j + 1);
    turns_go_forward(at[j], events[j]);
}

/// The earlier of two times.
pub open spec fn earlier(a: Option<u64>, b: Option<u64>) -> Option<u64> {
    match (a, b) {
        (Some(x), Some(y)) => if y < x {
            b
        } else {
            a
        },
        (Some(_), None) => a,
        _ => b,
    }
}

fn earlier_of(a: Option<u64>, b: Option<u64>) -> (r: Option<u64>)
    ensures
        r == earlier(a, b),
{
    match (a, b) {
        (Some(x), Some(y)) => if y < x {
            b
        } else {
            a
        },
        (Some(_), None) => a,
        _ => b,
    }
}

/// What the loop waits for.
#[derive(Copy, Clone, Debug, PartialEq, Eq, Structural)]
pub struct Deadlines {
    /// Something is tweened, and this is the time between ticks.
    pub timeline: Option<u64>,
    /// The next tick of a timeline at rest.
    pub timeline_rest: Option<u64>,
    /// Something scrolls, or a scrollbar is held.
    pub scrolling: bool,
    pub dwell: Option<u64>,
    pub recheck: Option<u64>,
    pub capture: Option<u64>,
    pub script: Option<u64>,
    pub caret: Option<u64>,
}

impl Deadlines {
    /// The next tick of the timeline.
    pub open spec fn timeline_at(self, now: u64) -> Option<u64> {
        match self.timeline {
            Some(interval) => Some((now + interval) as u64),
            None => self.timeline_rest,
        }
    }

    /// The next step of scrolling.
    pub open spec fn scroll_at(self, now: u64) -> Option<u64> {
        if self.scrolling {
            Some((now + SCROLL_INTERVAL) as u64)
        } else {
            None
        }
    }

    /// The earliest of all.
    pub open spec fn first(self, now: u64) -> Option<u64> {
        earlier(
            earlier(
                earlier(
                    earlier(
                        earlier(
                            earlier(self.timeline_at(now), self.scroll_at(now)),
                            self.dwell,
                        ),
                        self.recheck,
                    ),
                    self.capture,
                ),
                self.script,
            ),
            self.caret,
        )
    }

    /// When to wake up next; never, unless something happens, where there is
    /// nothing to wait for.
    pub fn next_wake(&self, now: u64) -> (r: Option<u64>)
        requires
            now + SCROLL_INTERVAL <= u64::MAX,
            self.timeline matches Some(interval) ==> now + interval <= u64::MAX,
        ensures
            r == self.first(now),
    {
        let timeline: Option<u64> = match self.timeline {
            Some(interval) => Some(now + interval),
            None => self.timeline_rest,
        };
        let scroll: Option<u64> = if self.scrolling {
            Some(now + SCROLL_INTERVAL)
        } else {
            None
        };
        let first: Option<u64> = earlier_of(timeline, scroll);
        let first: Option<u64> = earlier_of(first, self.dwell);
        let first: Option<u64> = earlier_of(first, self.recheck);
        let first: Option<u64> = earlier_of(first, self.capture);
        let first: Option<u64> = earlier_of(first, self.script);
        earlier_of(first, self.caret)
    }
}

/// A time is not after a deadline that is set.
pub open spec fn in_time(wake: Option<u64>, deadline: Option<u64>) -> bool {
    deadline matches Some(d) ==> wake matches Some(w) && w <= d
}

/// The loop sleeps past no deadline, and wakes for nothing but a deadline.
pub proof fn no_deadline_is_slept_through(d: Deadlines, now: u64)
    ensures
        ({
            let w = d.first(now);
            &&& in_time(w, d.timeline_at(now))
            &&& in_time(w, d.scroll_at(now))
            &&& in_time(w, d.dwell)
            &&& in_time(w, d.recheck)
            &&& in_time(w, d.capture)
            &&& in_time(w, d.script)
            &&& in_time(w, d.caret)
            &&& w is Some ==> w == d.timeline_at(now) || w == d.scroll_at(now) || w == d.dwell || w
                == d.recheck || w == d.capture || w == d.script || w == d.caret
        }),
{
}

/// Whether the picture that was asked for is due.
pub fn capture_due(deadline: Option<u64>, now: u64) -> (r: bool)
    ensures
        r == (deadline matches Some(d) && now >= d),
{
    match deadline {
        Some(d) => now >= d,
        None => false,
    }
}

/// In exact numbers, the span of a tick is the time since the last one in
/// seconds, but at most a twentieth of a second.
pub proof fn ticks_last_as_long_as_they_took<N: Num>(
    value: spec_fn(N) -> real,
    last: u64,
    now: u64,
    first: N,
)
    requires
        computes_exactly(value),
        last <= now,
    ensures
        ({
            let span = value(tick_span(Some(last), now, first));
            &&& now - last <= 50_000_000 ==> span * 1_000_000_000real == ((now - last) as real)
            &&& now - last > 50_000_000 ==> span * 20real == 1real
            &&& tick_span(None, now, first) == first
        }),
{
    let s = value(N::nanoseconds((now - last) as u64));
    let m = value(N::fraction(1, 20));
    let d = (now - last) as real;
    assert(m * (20i32 as real) == 1i32 as real);
    assert((20i32 as real) == 20real);
    assert(s * 1_000_000_000real == d);
    assert(m < s <==> 50_000_000real < d) by (nonlinear_arith)
        requires
            m * 20real == 1real,
            s * 1_000_000_000real == d,
    ;
    assert(d == ((now - last) as int) as real);
}

/// Nothing that happened in a tick goes unseen, and a tick in which nothing
/// happened leaves the tree alone: the tree is flushed if and only if something
/// happened, and whatever else is done is flushed. Cells that a tween wrote are
/// looked at wherever cells are shown.
pub proof fn what_happened_is_shown(h: Happened)
    ensures
        ({
            let r = reaction_to(h);
            let quiet = !h.tweened && !h.hook && !h.scroll_moved && !h.drag_moved
                && !h.hover_moved && !h.dwell_fired && !h.caret_blinked;
            &&& r.flush <==> !quiet
            &&& r.binds || r.layer_opacities || r.layer_offsets || r.displays ==> r.flush
            &&& h.tweened ==> r.binds && r.layer_opacities && r.displays
            &&& h.hook ==> r.binds
            &&& h.hover_moved || h.drag_moved ==> r.layer_offsets
            &&& !h.tweened && !h.hook ==> !r.binds
            &&& !h.tweened ==> !r.layer_opacities && !r.displays
            &&& !h.hover_moved && !h.drag_moved ==> !r.layer_offsets
        }),
{
}

/// What keeps the loop awake keeps it awake alone.
pub proof fn anything_keeps_the_loop_awake(w: Wakes)
    ensures
        w.idle() <==> w == (Wakes {
            timeline_active: false,
            scroll_active: false,
            drag_moved: false,
            hover_moved: false,
            dwell_pending: false,
            dwell_fired: false,
            hover_rechecked: false,
            recheck_armed: false,
            hint_repaint: false,
            script: false,
            caret: false,
        }),
{
}

/// The steps of a turn come in their order: what other threads delivered is
/// there before the hook runs and before anything is gathered; the hook's
/// changes are brought to the tree and flushed before anything is gathered; the
/// loop parks only where nothing keeps it awake, and otherwise reacts to the
/// tick before it sleeps.
pub proof fn steps_come_in_their_order(
    at: Seq<TurnAt>,
    events: Seq<TurnEvent>,
    steps: Seq<TurnStep>,
    j: int,
)
    requires
        is_turn(at, events, steps),
        0 < j < steps.len(),
        forall|k: int| 0 <= k < steps.len() ==> !(#[trigger] steps[k] is Nothing),
    ensures
        steps[j] is Drain ==> steps[j - 1] is Rebuild,
        steps[j] is RunHook ==> steps[j - 1] is Drain,
        steps[j] is ProcessBinds ==> steps[j - 1] is RunHook,
        steps[j] is Flush ==> steps[j - 1] is ProcessBinds || steps[j - 1] is Rebuild,
        steps[j] is Gather ==> steps[j - 1] is Flush || steps[j - 1] is Drain,
        steps[j] is Tick ==> steps[j - 1] is Gather,
        steps[j] is Park ==> steps[j - 1] is Gather,
        steps[j] is React ==> steps[j - 1] is Tick,
        steps[j] is Schedule ==> steps[j - 1] is React,
        steps[j] is Rebuild ==> steps[j - 1] is RunHook,
        !(steps[j] is Capture),
        steps[j] is Park ==> (events[j] matches TurnEvent::Gathered(w) && w.idle()),
        steps[j] is Tick ==> (events[j] matches TurnEvent::Gathered(w) && !w.idle()),
        steps[j - 1] is Drain && events[j] is Done ==> steps[j] is RunHook || steps[j] is Gather,
        steps[j - 1] is RunHook ==> (events[j] matches TurnEvent::HookRan { rebuild } && (
        steps[j] is Rebuild <==> rebuild)),
{
    let i = j - 1;
    assert((at[i + 1], steps[i]) == turn_next(at[i], events[i]));
    assert((at[j + 1], steps[j]) == turn_next(at[j], events[j]));
    assert(!(steps[i] is Nothing) && !(steps[j] is Nothing));
}

/// What a turn begins with: the picture that is due, else the new scene, else
/// what other threads delivered. What happened in a tick is reacted to, with
/// the hook if it ran.
pub proof fn turns_begin_with_what_is_due(e: TurnEvent, h: Happened, hook: bool)
    ensures
        e matches TurnEvent::Begun { capture_due, rebuild, hook: k } ==> {
            let s = turn_next(TurnAt::Start, e).1;
            &&& s is Capture <==> capture_due
            &&& s is Rebuild <==> !capture_due && rebuild
            &&& s is Drain <==> !capture_due && !rebuild
        },
        turn_next(TurnAt::Ticking { hook }, TurnEvent::Ticked(h)).1 == TurnStep::React(
            reaction_to(Happened { hook, ..h }),
        ),
{
}

/// A scroll in motion is woken for every 16 milliseconds, and a timeline at its
/// own interval, or when it is due again.
pub proof fn motion_is_woken_for(d: Deadlines, now: u64)
    requires
        now + 16_000_000 <= u64::MAX,
        d.timeline matches Some(interval) ==> now + interval <= u64::MAX,
    ensures
        d.scrolling ==> in_time(d.first(now), Some((now + 16_000_000) as u64)),
        d.timeline matches Some(interval) ==> in_time(
            d.first(now),
            Some((now + interval) as u64),
        ),
        d.timeline is None ==> in_time(d.first(now), d.timeline_rest),
{
}

} // verus!
