use vstd::prelude::*;

verus! {

/// What woke the scheduler: its period timer elapsed, or the single-fire
/// cancellation arrived. Both are waited on concurrently; whichever is
/// ready first is handed in here.
#[derive(Clone, Copy, Debug, PartialEq, Eq, Structural)]
pub enum SchedulerEvent {
    PeriodElapsed,
    CancellationFired,
}

/// What the scheduler decides on a wake-up: push one tick downstream, or
/// stop for good and close the tick channel by returning.
#[derive(Clone, Copy, Debug, PartialEq, Eq, Structural)]
pub enum SchedulerAction {
    EmitTick,
    Stop,
}

/// The scheduler's decision state: the fixed period and whether it has
/// stopped. The timer and the cancellation receiver it selects over act
/// outside; every decision they lead to is taken here.
pub struct Scheduler {
    pub period: u64,
    pub stopped: bool,
}

impl Scheduler {
    /// A scheduler with the given positive period in seconds, fixed for
    /// the run's lifetime; it has not stopped yet.
    pub fn new(period: u64) -> (r: Self)
        requires
            period > 0,
        ensures
            r.period == period,
            !r.stopped,
    {
        Self { period, stopped: false }
    }

    /// One turn of the select between the timer and the cancellation
    /// switch. Cancellation stops the scheduler at once and for good; an
    /// elapsed period emits exactly one tick, and only while not stopped.
    pub fn step(&mut self, event: SchedulerEvent) -> (action: SchedulerAction)
        ensures
            final(self).period == old(self).period,
            match event {
                SchedulerEvent::CancellationFired => final(self).stopped && action
                    == SchedulerAction::Stop,
                SchedulerEvent::PeriodElapsed => if old(self).stopped {
                    final(self).stopped && action == SchedulerAction::Stop
                } else {
                    !final(self).stopped && action == SchedulerAction::EmitTick
                },
            },
    {
        match event {
            SchedulerEvent::CancellationFired => {
                self.stopped = true;
                SchedulerAction::Stop
            },
            SchedulerEvent::PeriodElapsed => {
                if self.stopped {
                    SchedulerAction::Stop
                } else {
                    SchedulerAction::EmitTick
                }
            },
        }
    }
}

} // verus!
