//! The periodic task: it samples the line, feeds the debouncer, and re-arms
//! itself after a fixed interval.
//!
//! The driver reads the line and the clock, toggles the indicator and
//! performs what the functions here decide.

use crate::debounce::{DebounceModel, DebounceState, Edge};
use crate::scheduler::{lemma_periodic_spacing, TaskHandle, TaskModel, TaskPhase};
use vstd::prelude::*;

verus! {

/// What one run of the periodic task found and did.
#[derive(Clone, Copy, Debug, PartialEq, Eq)]
pub struct TickOutcome {
    /// The edge that the sample confirmed.
    pub edge: Option<Edge>,
    /// The number to report for that edge.
    pub report: Option<u8>,
    /// Whether the task re-armed itself. A failed re-arm is dropped.
    pub rearmed: bool,
}

/// What a polling loop stands for.
pub struct PollModel {
    /// The debouncer of the polled line.
    pub line: DebounceModel,
    /// The periodic task.
    pub task: TaskModel,
    /// The delay with which the task re-arms itself.
    pub interval: int,
}

/// The state of the polling loop, owned by the periodic task.
pub struct PollLoop {
    line: DebounceState,
    task: TaskHandle,
    interval: u64,
}

impl View for PollLoop {
    type V = PollModel;

    closed spec fn view(&self) -> PollModel {
        PollModel { line: self.line@, task: self.task@, interval: self.interval as int }
    }
}

impl PollLoop {
    /// The debouncer and the task's record are consistent, and every re-arm
    /// on record asked for the loop's interval.
    pub closed spec fn wf(&self) -> bool {
        &&& self.line.wf()
        &&& self.task@.wf()
        &&& forall|k: int|
            0 <= k < self.task@.delays.len() ==> #[trigger] self.task@.delays[k] == self.interval
    }

    /// Sets the loop up at boot: the line counts as released, and the task
    /// is spawned to start at once.
    pub fn start(now: u64, interval: u64) -> (poll: PollLoop)
        ensures
            poll.wf(),
            poll@.line == DebounceModel::initial(false),
            poll@.task == TaskModel::idle().spawn(now as int),
            poll@.interval == interval,
    {
        let mut task = TaskHandle::new();
        let _ = task.spawn(now);
        PollLoop { line: DebounceState::new(false), task, interval }
    }

    /// The phase of the periodic task.
    pub fn phase(&self) -> (phase: TaskPhase)
        ensures
            phase == self@.task.phase,
    {
        self.task.phase()
    }

    /// The latest time reported; time may not go back behind it.
    pub fn clock(&self) -> (clock: u64)
        ensures
            clock == self@.task.clock,
    {
        self.task.clock()
    }

    /// The delay with which the task re-arms itself.
    pub fn interval(&self) -> (interval: u64)
        ensures
            interval == self@.interval,
    {
        self.interval
    }

    /// The timer fired at `now`: returns whether the task starts to run.
    pub fn dispatch(&mut self, now: u64) -> (started: bool)
        requires
            old(self).wf(),
            old(self)@.task.clock <= now,
        ensures
            final(self).wf(),
            final(self)@ == (PollModel { task: old(self)@.task.dispatch(now as int), ..old(self)@ }),
            started == old(self)@.task.is_due(now as int),
    {
        self.task.dispatch(now)
    }

    /// The body of the periodic task, run with the level sampled from the
    /// line (`true` is asserted). The debouncer takes the sample, a
    /// confirmed edge is reported under its number, and the task re-arms
    /// itself with the loop's interval; if it cannot, the failure is
    /// dropped and the task is left as it was.
    pub fn tick(&mut self, now: u64, sample: bool) -> (outcome: TickOutcome)
        requires
            old(self).wf(),
            old(self)@.task.clock <= now,
            now + old(self)@.interval <= u64::MAX,
        ensures
            final(self).wf(),
            final(self)@ == (PollModel {
                line: old(self)@.line.step(sample),
                task: old(self)@.task.spawn_after(now as int, old(self)@.interval),
                interval: old(self)@.interval,
            }),
            outcome.edge == old(self)@.line.edge_on(sample),
            outcome.report == match outcome.edge {
                Some(edge) => Some(edge.spec_code()),
                None => None::<u8>,
            },
            outcome.rearmed == old(self)@.task.can_spawn_after(),
    {
        let edge = self.line.update(sample);
        let report = match edge {
            Some(found) => Some(found.code()),
            None => None,
        };
        let rearmed = self.task.spawn_after(now, self.interval).is_ok();
        TickOutcome { edge, report, rearmed }
    }

    /// The body of the periodic task returned at `now`: the task is queued
    /// again if it re-armed itself, idle if not.
    pub fn complete(&mut self, now: u64) -> (phase: TaskPhase)
        requires
            old(self).wf(),
            old(self)@.task.clock <= now,
        ensures
            final(self).wf(),
            final(self)@ == (PollModel { task: old(self)@.task.complete(now as int), ..old(self)@ }),
            phase == final(self)@.task.phase,
    {
        self.task.complete(now)
    }
}

/// Execution `n` of the polling task (counted from 0, since the task was
/// spawned) starts no earlier than `n` intervals after the first.
pub proof fn lemma_poll_period(poll: PollLoop, n: int)
    requires
        poll.wf(),
        0 <= n < poll@.task.starts.len(),
    ensures
        poll@.task.starts[0] + n * poll@.interval <= poll@.task.starts[n],
{
    lemma_periodic_spacing(poll@.task, poll@.interval, n);
}

} // verus!
