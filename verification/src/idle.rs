//! When the server shuts itself down.

use vstd::prelude::*;

verus! {

/// How often the monitor looks, in nanoseconds.
pub const STEP: u128 = 3_000_000_000;

/// The server exits this long after the last browser tab closes, in
/// nanoseconds.
pub const IDLE_GRACE: u128 = 15_000_000_000;

/// The longest time that a `Duration` holds, in nanoseconds.
pub const LONGEST: u128 = 18_446_744_073_709_551_615_999_999_999;

/// What the monitor sees when a step has passed.
pub struct Tick {
    /// How long the step was, in nanoseconds.
    pub step: u128,
    /// Whether any client has ever connected.
    pub armed: bool,
    /// How many clients are connected now.
    pub active: usize,
    /// Whether an `open` request arrived during the step.
    pub opened: bool,
}

/// Whether the server was idle during a step: a client has been there before,
/// none is there now, and none was just asked for.
pub open spec fn is_idle(tick: Tick) -> bool {
    tick.armed && tick.active == 0 && !tick.opened
}

/// How long the server has been idle after one more step.
pub open spec fn idle_after(idle: int, tick: Tick) -> int {
    if is_idle(tick) {
        idle + tick.step
    } else {
        0
    }
}

/// How long the server has been idle after a run of steps.
pub open spec fn idle_for(idle: int, ticks: Seq<Tick>) -> int
    decreases ticks.len(),
{
    if ticks.len() == 0 {
        idle
    } else {
        idle_after(idle_for(idle, ticks.drop_last()), ticks.last())
    }
}

/// How long a run of steps takes.
pub open spec fn total(ticks: Seq<Tick>) -> int
    decreases ticks.len(),
{
    if ticks.len() == 0 {
        0
    } else {
        total(ticks.drop_last()) + ticks.last().step
    }
}

/// The shutdown monitor's decision, kept apart from its thread and clock. All
/// times are in nanoseconds.
#[derive(Debug)]
pub struct IdleClock {
    grace: u128,
    idle: u128,
}

impl IdleClock {
    /// How long the server may be idle.
    pub closed spec fn grace(&self) -> int {
        self.grace as int
    }

    /// How long the server has been idle.
    pub closed spec fn idle(&self) -> int {
        self.idle as int
    }

    /// A clock that starts now.
    pub fn new(grace: u128) -> (clock: IdleClock)
        ensures
            clock.grace() == grace,
            clock.idle() == 0,
    {
        IdleClock { grace, idle: 0 }
    }

    /// How long the server has been idle, in nanoseconds.
    pub fn idle_time(&self) -> (time: u128)
        ensures
            time == self.idle(),
    {
        self.idle
    }

    /// Account for `step` having passed, and return whether the server has now
    /// been idle for the grace period. `armed` is whether any client has ever
    /// connected, `active` how many are connected now, and `opened` whether an
    /// `open` request arrived during the step.
    pub fn tick(&mut self, step: u128, armed: bool, active: usize, opened: bool) -> (exit: bool)
        requires
            idle_after(old(self).idle(), (Tick { step, armed, active, opened })) <= LONGEST,
        ensures
            final(self).grace() == old(self).grace(),
            final(self).idle() == idle_after(
                old(self).idle(),
                (Tick { step, armed, active, opened }),
            ),
            exit == (is_idle((Tick { step, armed, active, opened })) && final(self).idle()
                >= final(self).grace()),
            armed && active == 0 && !opened ==> final(self).idle() == old(self).idle() + step && (
            exit <==> old(self).idle() + step >= old(self).grace()),
            !(armed && active == 0 && !opened) ==> final(self).idle() == 0 && !exit,
    {
        if armed && active == 0 && !opened {
            self.idle = self.idle + step;
            self.idle >= self.grace
        } else {
            self.idle = 0;
            false
        }
    }
}

/// The clock never counts more time than has passed.
proof fn lemma_idle_for(idle: int, ticks: Seq<Tick>)
    requires
        idle >= 0,
    ensures
        0 <= idle_for(idle, ticks) <= idle + total(ticks),
        total(ticks) >= 0,
    decreases ticks.len(),
{
    if ticks.len() > 0 {
        lemma_idle_for(idle, ticks.drop_last());
    }
}

/// A run of steps is the steps before and the steps after.
proof fn lemma_idle_for_concat(idle: int, before: Seq<Tick>, after: Seq<Tick>)
    ensures
        idle_for(idle, before + after) == idle_for(idle_for(idle, before), after),
    decreases after.len(),
{
    if after.len() > 0 {
        lemma_idle_for_concat(idle, before, after.drop_last());
        assert((before + after).drop_last() == before + after.drop_last());
    } else {
        assert(before + after == before);
    }
}

/// Whatever interrupts the idling (a client that is there, or an `open`
/// request, or no client ever) starts the countdown anew: after it, no more
/// counts than the time that has passed since. So the server stays for the
/// whole grace period.
pub proof fn an_interruption_restarts_the_countdown(
    idle: int,
    before: Seq<Tick>,
    tick: Tick,
    after: Seq<Tick>,
)
    requires
        idle >= 0,
        !is_idle(tick),
    ensures
        idle_for(idle, before.push(tick) + after) <= total(after),
{
    lemma_idle_for_concat(idle, before.push(tick), after);
    assert(before.push(tick).drop_last() == before);
    lemma_idle_for(0, after);
}

/// A server that is idle without interruption is counted as idle for all of
/// that time. So it exits as soon as that reaches the grace period.
pub proof fn uninterrupted_idling_counts_in_full(idle: int, ticks: Seq<Tick>)
    requires
        forall|i: int| 0 <= i < ticks.len() ==> is_idle(#[trigger] ticks[i]),
    ensures
        idle_for(idle, ticks) == idle + total(ticks),
    decreases ticks.len(),
{
    if ticks.len() > 0 {
        assert forall|i: int| 0 <= i < ticks.len() - 1 implies is_idle(
            #[trigger] ticks.drop_last()[i],
        ) by {
            assert(ticks.drop_last()[i] == ticks[i]);
        }
        uninterrupted_idling_counts_in_full(idle, ticks.drop_last());
        assert(is_idle(ticks[ticks.len() - 1]));
    }
}

/// A step counts in full exactly if a client has been there, none is, and none
/// was just asked for; any other step sets the count to nothing. Times add up
/// step by step.
pub proof fn a_step_counts_or_starts_over(idle: int, ticks: Seq<Tick>, tick: Tick)
    ensures
        tick.armed && tick.active == 0 && !tick.opened ==> idle_after(idle, tick) == idle
            + tick.step,
        !tick.armed || tick.active > 0 || tick.opened ==> idle_after(idle, tick) == 0,
        is_idle(tick) <==> tick.armed && tick.active == 0 && !tick.opened,
        idle_for(idle, Seq::empty()) == idle,
        idle_for(idle, ticks.push(tick)) == idle_after(idle_for(idle, ticks), tick),
        total(Seq::empty()) == 0,
        total(ticks.push(tick)) == total(ticks) + tick.step,
{
    assert(ticks.push(tick).drop_last() == ticks);
}

} // verus!
