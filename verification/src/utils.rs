//! Scheduling of timed tasks: a handler runs on every tick and on every queued
//! command, one at a time.
use vstd::prelude::*;

use crate::time::Interval;

verus! {

/// What a timed task's handler is asked to do.
#[derive(Debug, PartialEq, Eq)]
pub enum TimedTaskEvent<M> {
    Tick,
    Message(M),
}

/// What the task loop took from its inputs, checked in this order: shutdown,
/// interval changes, the timer, queued commands.
#[derive(Debug)]
pub enum LoopInput<M> {
    /// Shutdown was requested (or its sender dropped).
    Stop,
    /// The interval setting changed to this value; `None` when its sender is gone.
    IntervalChanged(Option<Interval>),
    /// The deadline passed.
    TimerFired,
    /// A queued command; `None` when every sender is gone.
    Received(Option<M>),
}

/// What the task loop does next.
#[derive(Debug, PartialEq, Eq)]
pub enum LoopAction<M> {
    /// Leave the loop.
    Exit,
    /// Run the handler on this event.
    Handle(TimedTaskEvent<M>),
    /// Wait again, for the (possibly moved) deadline.
    Wait,
}

/// The tick schedule of a timed task, on a monotonic clock counted in nanoseconds.
///
/// The first tick waits one interval. Subsequent ticks wait one interval after the
/// previous tick's handler finishes. Commands do not reset the timer. Interval
/// changes restart the delay when processed, without emitting a tick.
pub struct TickSchedule {
    interval: Interval,
    deadline: u128,
}

/// Latest clock value the schedule accepts (leaves room to add any interval).
pub open spec fn clock_limit() -> nat {
    0x1_0000_0000_0000_0000_0000_0000
}

impl TickSchedule {
    pub closed spec fn spec_interval(&self) -> Interval {
        self.interval
    }

    pub closed spec fn spec_deadline(&self) -> nat {
        self.deadline as nat
    }

    /// Starts the schedule at `now`. A zero interval is refused.
    pub fn start(now: u128, interval: Interval) -> (r: TickSchedule)
        requires
            interval.total_nanos() > 0,
            now < clock_limit(),
        ensures
            r.spec_interval() == interval,
            r.spec_deadline() == now + interval.total_nanos(),
    {
        proof {
            interval.lemma_total_nanos_bound();
        }
        TickSchedule { interval, deadline: now + interval.as_nanos() }
    }

    pub fn interval(&self) -> (r: Interval)
        ensures
            r == self.spec_interval(),
    {
        self.interval
    }

    pub fn deadline(&self) -> (r: u128)
        ensures
            r == self.spec_deadline(),
    {
        self.deadline
    }

    /// Decides what the loop does with the input it took at time `now`.
    pub fn on_input<M>(&mut self, input: LoopInput<M>, now: u128) -> (r: LoopAction<M>)
        requires
            now < clock_limit(),
            input matches LoopInput::IntervalChanged(Some(i)) ==> i.total_nanos() > 0,
        ensures
            match input {
                LoopInput::IntervalChanged(Some(i)) => {
                    &&& r == LoopAction::<M>::Wait
                    &&& final(self).spec_interval() == i
                    &&& final(self).spec_deadline() == now + i.total_nanos()
                },
                LoopInput::TimerFired => {
                    &&& r == LoopAction::<M>::Handle(TimedTaskEvent::Tick)
                    &&& *final(self) == *old(self)
                },
                LoopInput::Received(Some(m)) => {
                    &&& r == LoopAction::Handle(TimedTaskEvent::Message(m))
                    &&& *final(self) == *old(self)
                },
                _ => {
                    &&& r == LoopAction::<M>::Exit
                    &&& *final(self) == *old(self)
                },
            },
    {
        match input {
            LoopInput::Stop => LoopAction::Exit,
            LoopInput::IntervalChanged(None) => LoopAction::Exit,
            LoopInput::IntervalChanged(Some(interval)) => {
                proof {
                    interval.lemma_total_nanos_bound();
                }
                self.interval = interval;
                self.deadline = now + interval.as_nanos();
                LoopAction::Wait
            },
            LoopInput::TimerFired => LoopAction::Handle(TimedTaskEvent::Tick),
            LoopInput::Received(None) => LoopAction::Exit,
            LoopInput::Received(Some(m)) => LoopAction::Handle(TimedTaskEvent::Message(m)),
        }
    }

    /// After a tick's handler finished at `now`, the next tick is one interval away,
    /// using the interval setting current at that moment.
    pub fn after_tick(&mut self, now: u128, current: Interval)
        requires
            now < clock_limit(),
            current.total_nanos() > 0,
        ensures
            final(self).spec_interval() == old(self).spec_interval(),
            final(self).spec_deadline() == now + current.total_nanos(),
    {
        proof {
            current.lemma_total_nanos_bound();
        }
        self.deadline = now + current.as_nanos();
    }
}

/// One step of a timed task's run with a fixed interval, with the time it
/// happened: the timer fired, a queued command was taken, or a tick's handler
/// finished.
pub enum RunStep {
    TimerFired { at: nat },
    Command { at: nat },
    TickDone { at: nat },
}

/// The deadline after `run` for a task started at `start` with `interval`:
/// [`TickSchedule::start`] sets it, [`TickSchedule::on_input`] leaves it for a
/// timer or a command, and [`TickSchedule::after_tick`] moves it one interval
/// past the tick's end.
pub open spec fn deadline_after(start: nat, interval: nat, run: Seq<RunStep>) -> nat
    decreases run.len(),
{
    if run.len() == 0 {
        start + interval
    } else {
        match run.last() {
            RunStep::TickDone { at } => at + interval,
            _ => deadline_after(start, interval, run.drop_last()),
        }
    }
}

/// The timer of `run` fires only once the deadline has come.
pub open spec fn fires_at_deadline(start: nat, interval: nat, run: Seq<RunStep>) -> bool {
    forall|i: int|
        0 <= i < run.len() ==> (#[trigger] run[i] matches RunStep::TimerFired { at } ==> at >= deadline_after(
            start,
            interval,
            run.take(i),
        ))
}

/// No tick's handler finished in `run` before step `i`.
pub open spec fn no_tick_done_before(run: Seq<RunStep>, i: int) -> bool {
    forall|j: int| 0 <= j < i ==> !(#[trigger] run[j] is TickDone)
}

/// The deadline depends on the last finished tick alone: commands and timer
/// firings between leave it.
proof fn lemma_deadline_last_tick(start: nat, interval: nat, run: Seq<RunStep>, j: int, i: int)
    requires
        0 <= j < i <= run.len(),
        run[j] is TickDone,
        forall|x: int| j < x < i ==> !(#[trigger] run[x] is TickDone),
    ensures
        deadline_after(start, interval, run.take(i)) == (run[j]->TickDone_at) + interval,
    decreases i,
{
    let prefix = run.take(i);
    assert(prefix.drop_last() =~= run.take(i - 1));
    assert(prefix.last() == run[i - 1]);
    if i - 1 > j {
        lemma_deadline_last_tick(start, interval, run, j, i - 1);
    }
}

/// Before any tick finished, the deadline is one interval after the start.
proof fn lemma_deadline_first(start: nat, interval: nat, run: Seq<RunStep>, i: int)
    requires
        0 <= i <= run.len(),
        no_tick_done_before(run, i),
    ensures
        deadline_after(start, interval, run.take(i)) == start + interval,
    decreases i,
{
    if i > 0 {
        let prefix = run.take(i);
        assert(prefix.drop_last() =~= run.take(i - 1));
        assert(prefix.last() == run[i - 1]);
        lemma_deadline_first(start, interval, run, i - 1);
    }
}

/// The tick timing of a timed task whose interval does not change: the first
/// tick is handled no earlier than one interval after the start; each later
/// tick no earlier than one interval after the previous tick's handler
/// finished; commands in between do not move the deadline.
pub proof fn lemma_tick_timing(start: nat, interval: nat, run: Seq<RunStep>)
    requires
        fires_at_deadline(start, interval, run),
    ensures
        forall|i: int|
            0 <= i < run.len() && no_tick_done_before(run, i) ==> (#[trigger] run[i] matches RunStep::TimerFired {
                at,
            } ==> at >= start + interval),
        forall|i: int, j: int|
            #![trigger run[i], run[j]]
            0 <= j < i < run.len() && run[j] is TickDone && (forall|x: int|
                j < x < i ==> !(#[trigger] run[x] is TickDone)) ==> (run[i] matches RunStep::TimerFired {
                at,
            } ==> at >= (run[j]->TickDone_at) + interval),
        forall|i: int|
            0 <= i < run.len() && !(#[trigger] run[i] is TickDone) ==> deadline_after(
                start,
                interval,
                run.take(i + 1),
            ) == deadline_after(start, interval, run.take(i)),
{
    assert forall|i: int|
        0 <= i < run.len() && no_tick_done_before(run, i) implies (#[trigger] run[i] matches RunStep::TimerFired {
        at,
    } ==> at >= start + interval) by {
        lemma_deadline_first(start, interval, run, i);
    }
    assert forall|i: int, j: int|
        #![trigger run[i], run[j]]
        0 <= j < i < run.len() && run[j] is TickDone && (forall|x: int|
            j < x < i ==> !(#[trigger] run[x] is TickDone)) implies (run[i] matches RunStep::TimerFired {
        at,
    } ==> at >= (run[j]->TickDone_at) + interval) by {
        lemma_deadline_last_tick(start, interval, run, j, i);
    }
    assert forall|i: int| 0 <= i < run.len() && !(#[trigger] run[i] is TickDone) implies deadline_after(
        start,
        interval,
        run.take(i + 1),
    ) == deadline_after(start, interval, run.take(i)) by {
        let prefix = run.take(i + 1);
        assert(prefix.drop_last() =~= run.take(i));
        assert(prefix.last() == run[i]);
    }
}

} // verus!
