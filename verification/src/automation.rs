//! Scripted input: a list of steps that drive the shell like a user would.
use vstd::prelude::*;

use crate::num::Num;

verus! {

/// A step of a script. Positions are physical pixels, times nanoseconds.
#[derive(Clone, Debug)]
pub enum Step<N> {
    Wait(u64),
    /// Draw a frame and write it to a file.
    Screenshot(String),
    MoveMouse([N; 2]),
    /// Move there, press and let go.
    Click([N; 2]),
    /// Move there, press the right button and let go.
    RightClick([N; 2]),
    /// Move there and stay for a while.
    Hover([N; 2], u64),
    /// Move there and turn the wheel by so many lines.
    Scroll([N; 2], [N; 2]),
    /// Press at the first place, move to the second and let go.
    Drag([N; 2], [N; 2]),
}

/// The steps of a script, in order.
#[derive(Clone, Debug)]
pub struct Script<N> {
    pub steps: Vec<Step<N>>,
}

impl<N: Num> Script<N> {
    pub fn new(steps: Vec<Step<N>>) -> (r: Self)
        ensures
            r.steps == steps,
    {
        Script { steps }
    }
}

/// How far a script has run.
#[derive(Debug)]
pub struct AutomationState<N> {
    steps: Vec<Step<N>>,
    idx: usize,
    next_at: Option<u64>,
}

impl<N: Num> AutomationState<N> {
    pub closed spec fn script(self) -> Seq<Step<N>> {
        self.steps@
    }

    /// The position of the next step.
    pub closed spec fn position(self) -> usize {
        self.idx
    }

    /// When it is due; at once if no time is set.
    pub closed spec fn due_at(self) -> Option<u64> {
        self.next_at
    }

    pub fn new(script: Script<N>) -> (r: Self)
        ensures
            r.script() == script.steps@,
            r.position() == 0,
            r.due_at() is None,
    {
        AutomationState { steps: script.steps, idx: 0, next_at: None }
    }

    /// Whether all steps were done.
    pub fn finished(&self) -> (r: bool)
        ensures
            r == (self.position() >= self.script().len()),
    {
        self.idx >= self.steps.len()
    }

    /// Whether the next step is due.
    pub fn due(&self, now: u64) -> (r: bool)
        ensures
            r == (self.due_at() matches Some(t) ==> now >= t),
    {
        match self.next_at {
            Some(t) => now >= t,
            None => true,
        }
    }

    /// The next step.
    pub fn current(&self) -> (r: Option<&Step<N>>)
        ensures
            match r {
                Some(s) => self.position() < self.script().len() && *s
                    == self.script()[self.position() as int],
                None => self.position() >= self.script().len(),
            },
    {
        if self.idx < self.steps.len() {
            Some(&self.steps[self.idx])
        } else {
            None
        }
    }

    /// The step is done, and the one after it is due at once. Past the last
    /// step the position goes on all the same.
    pub fn advance_now(&mut self, now: u64)
        requires
            old(self).position() < usize::MAX,
        ensures
            final(self).script() == old(self).script(),
            final(self).position() == old(self).position() + 1,
            final(self).due_at() == Some(now),
    {
        self.idx = self.idx + 1;
        self.next_at = Some(now);
    }

    /// The step is done, and the one after it is due after `delay`.
    pub fn advance_after(&mut self, now: u64, delay: u64)
        requires
            old(self).position() < usize::MAX,
            now + delay <= u64::MAX,
        ensures
            final(self).script() == old(self).script(),
            final(self).position() == old(self).position() + 1,
            final(self).due_at() == Some((now + delay) as u64),
    {
        self.idx = self.idx + 1;
        self.next_at = Some(now + delay);
    }

    /// When the next step is due.
    pub fn next_at(&self) -> (r: Option<u64>)
        ensures
            r == self.due_at(),
    {
        self.next_at
    }
}

/// How long after a step the next one is due.
pub open spec fn delay_of<N>(s: Step<N>) -> u64 {
    match s {
        Step::Wait(d) => d,
        Step::Hover(_, d) => d,
        _ => 0,
    }
}

/// What is fed to the shell.
#[derive(Clone, Debug)]
pub enum Inject<N> {
    Move([N; 2]),
    /// The left button goes down or up.
    Left(bool),
    /// The right button goes down or up.
    Right(bool),
    /// The wheel turns by so many lines.
    Wheel([N; 2]),
    /// Draw a frame and write it to a file.
    Screenshot(String),
}

/// What a step feeds to the shell.
pub open spec fn injected<N>(s: Step<N>) -> Seq<Inject<N>> {
    match s {
        Step::Wait(_) => seq![],
        Step::Hover(p, _) => seq![Inject::Move(p)],
        Step::MoveMouse(p) => seq![Inject::Move(p)],
        Step::Click(p) => seq![Inject::Move(p), Inject::Left(true), Inject::Left(false)],
        Step::RightClick(p) => seq![Inject::Move(p), Inject::Right(true), Inject::Right(false)],
        Step::Scroll(p, d) => seq![Inject::Move(p), Inject::Wheel(d)],
        Step::Drag(a, b) => seq![
            Inject::Move(a),
            Inject::Left(true),
            Inject::Move(b),
            Inject::Left(false),
        ],
        Step::Screenshot(path) => seq![Inject::Screenshot(path)],
    }
}

fn inject<N: Num>(s: &Step<N>) -> (r: Vec<Inject<N>>)
    ensures
        r@ == injected(*s),
{
    let mut out: Vec<Inject<N>> = Vec::new();
    match s {
        Step::Wait(_) => {},
        Step::Hover(p, _) => {
            out.push(Inject::Move(*p));
        },
        Step::MoveMouse(p) => {
            out.push(Inject::Move(*p));
        },
        Step::Click(p) => {
            out.push(Inject::Move(*p));
            out.push(Inject::Left(true));
            out.push(Inject::Left(false));
        },
        Step::RightClick(p) => {
            out.push(Inject::Move(*p));
            out.push(Inject::Right(true));
            out.push(Inject::Right(false));
        },
        Step::Scroll(p, d) => {
            out.push(Inject::Move(*p));
            out.push(Inject::Wheel(*d));
        },
        Step::Drag(a, b) => {
            out.push(Inject::Move(*a));
            out.push(Inject::Left(true));
            out.push(Inject::Move(*b));
            out.push(Inject::Left(false));
        },
        Step::Screenshot(path) => {
            out.push(Inject::Screenshot(path.clone()));
        },
    }
    assert(out@ =~= injected(*s));
    out
}

/// What a tick of a script does.
#[derive(Debug)]
pub enum ScriptTick<N> {
    /// All steps were done: the shell is to exit.
    Done,
    /// Feed this to the shell, and wake at the given time.
    Run { inject: Vec<Inject<N>>, next: Option<u64> },
}

/// Runs the step that is due.
pub fn automation_tick<N: Num>(state: &mut AutomationState<N>, now: u64) -> (r: ScriptTick<N>)
    requires
        old(state).position() < old(state).script().len() ==> now + delay_of(
            old(state).script()[old(state).position() as int],
        ) <= u64::MAX,
    ensures
        final(state).script() == old(state).script(),
        ({
            let i = old(state).position();
            let due = old(state).due_at() matches Some(t) ==> now >= t;
            if i >= old(state).script().len() {
                &&& r is Done
                &&& final(state).position() == i
                &&& final(state).due_at() == old(state).due_at()
            } else if !due {
                &&& r matches ScriptTick::Run { inject, next }
                &&& inject@.len() == 0
                &&& next == old(state).due_at()
                &&& final(state).position() == i
                &&& final(state).due_at() == old(state).due_at()
            } else {
                let s = old(state).script()[i as int];
                &&& r matches ScriptTick::Run { inject, next }
                &&& inject@ == injected(s)
                &&& next == Some((now + delay_of(s)) as u64)
                &&& final(state).position() == i + 1
                &&& final(state).due_at() == next
            }
        }),
{
    let count: usize = state.steps.len();
    if state.finished() {
        return ScriptTick::Done;
    }
    assert(state.position() < count);
    if !state.due(now) {
        return ScriptTick::Run { inject: Vec::new(), next: state.next_at() };
    }
    let mut feed: Vec<Inject<N>> = Vec::new();
    let mut delay: u64 = 0;
    if let Some(step) = state.current() {
        feed = inject(step);
        delay = match step {
            Step::Wait(d) => *d,
            Step::Hover(_, d) => *d,
            _ => 0,
        };
    }
    if delay == 0 {
        state.advance_now(now);
    } else {
        state.advance_after(now, delay);
    }
    ScriptTick::Run { inject: feed, next: state.next_at() }
}

/// Whether the left button is down after the first `n` of `s`.
pub open spec fn left_down<N>(s: Seq<Inject<N>>, n: nat) -> bool
    decreases n,
{
    if n == 0 {
        false
    } else {
        match s[n - 1] {
            Inject::Left(down) => down,
            _ => left_down(s, (n - 1) as nat),
        }
    }
}

/// Whether the right button is down after the first `n` of `s`.
pub open spec fn right_down<N>(s: Seq<Inject<N>>, n: nat) -> bool
    decreases n,
{
    if n == 0 {
        false
    } else {
        match s[n - 1] {
            Inject::Right(down) => down,
            _ => right_down(s, (n - 1) as nat),
        }
    }
}

/// Where the pointer is after the first `n` of `s`, if it was moved.
pub open spec fn pointer_after<N>(s: Seq<Inject<N>>, n: nat) -> Option<[N; 2]>
    decreases n,
{
    if n == 0 {
        None
    } else {
        match s[n - 1] {
            Inject::Move(p) => Some(p),
            _ => pointer_after(s, (n - 1) as nat),
        }
    }
}

/// A step leaves both buttons up, and the pointer where the step ends.
pub proof fn steps_leave_the_buttons_up<N>(s: Step<N>)
    ensures
        ({
            let feed = injected(s);
            let end = pointer_after(feed, feed.len());
            &&& !left_down(feed, feed.len())
            &&& !right_down(feed, feed.len())
            &&& match s {
                Step::Wait(_) => end is None,
                Step::Screenshot(_) => end is None,
                Step::MoveMouse(p) => end == Some(p),
                Step::Click(p) => end == Some(p),
                Step::RightClick(p) => end == Some(p),
                Step::Hover(p, _) => end == Some(p),
                Step::Scroll(p, _) => end == Some(p),
                Step::Drag(_, b) => end == Some(b),
            }
        }),
{
    reveal_with_fuel(left_down, 6);
    reveal_with_fuel(right_down, 6);
    reveal_with_fuel(pointer_after, 6);
}

/// A click presses one button once, and a drag the left one; the pointer is at
/// the place of the press by then. The wheel turns at the place of the scroll.
/// Nothing else presses a button or turns the wheel, and only a screenshot
/// takes a picture.
pub proof fn steps_press_where_they_say<N>(s: Step<N>, i: int)
    requires
        0 <= i < injected(s).len(),
    ensures
        ({
            let feed = injected(s);
            let at = pointer_after(feed, i as nat);
            match feed[i] {
                Inject::Left(down) => {
                    &&& s is Click || s is Drag
                    &&& down != left_down(feed, i as nat)
                    &&& s matches Step::Click(p) ==> at == Some(p)
                    &&& s matches Step::Drag(a, b) ==> at == (if down {
                        Some(a)
                    } else {
                        Some(b)
                    })
                },
                Inject::Right(down) => {
                    &&& s matches Step::RightClick(p) && at == Some(p)
                    &&& down != right_down(feed, i as nat)
                },
                Inject::Wheel(d) => s matches Step::Scroll(p, by) && at == Some(p) && by == d,
                Inject::Screenshot(path) => s matches Step::Screenshot(to) && path == to,
                Inject::Move(_) => true,
            }
        }),
        s is Click ==> injected(s).contains(Inject::Left(true)),
        s is Drag ==> injected(s).contains(Inject::Left(true)),
        s is RightClick ==> injected(s).contains(Inject::Right(true)),
        s matches Step::Scroll(_, d) ==> injected(s).contains(Inject::Wheel(d)),
{
    reveal_with_fuel(left_down, 6);
    reveal_with_fuel(right_down, 6);
    reveal_with_fuel(pointer_after, 6);
    let feed = injected(s);
    match s {
        Step::Click(_) => {
            assert(feed[1] == Inject::<N>::Left(true));
        },
        Step::Drag(_, _) => {
            assert(feed[1] == Inject::<N>::Left(true));
        },
        Step::RightClick(_) => {
            assert(feed[1] == Inject::<N>::Right(true));
        },
        Step::Scroll(_, d) => {
            assert(feed[1] == Inject::Wheel(d));
        },
        _ => {},
    }
}

/// Only waiting and hovering take time, and they take the time they are given.
pub proof fn only_waiting_takes_time<N>(s: Step<N>)
    ensures
        match s {
            Step::Wait(d) => delay_of(s) == d,
            Step::Hover(_, d) => delay_of(s) == d,
            _ => delay_of(s) == 0,
        },
{
}

} // verus!
