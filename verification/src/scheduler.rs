//! The bookkeeping of one cooperative task: at most one instance of it is
//! pending, it runs to completion, and it may re-arm itself once while it
//! runs.
//!
//! The driver owns the timer and the interrupt. It reports each event with
//! the time at which it happened, read from a clock that never goes back,
//! and acts on what the functions here answer.

use crate::error::ErrorKind;
use vstd::prelude::*;

verus! {

/// Where a task is in its life cycle.
#[derive(Clone, Copy, Debug, PartialEq, Eq, Structural)]
pub enum TaskPhase {
    /// Neither waiting nor running.
    Idle,
    /// Waiting for its start time.
    Queued,
    /// Running; it runs to completion.
    Running,
}

/// What a task handle stands for: its phase, and the record of its
/// executions since it was last spawned from idle.
pub struct TaskModel {
    /// The phase of the task.
    pub phase: TaskPhase,
    /// While an instance waits: the time from which it may start.
    pub ready_at: int,
    /// The running instance has re-armed the task.
    pub rearmed: bool,
    /// The latest time reported.
    pub clock: int,
    /// The start time of each execution.
    pub starts: Seq<int>,
    /// The end time of each completed execution.
    pub ends: Seq<int>,
    /// For each execution that re-armed the task, the delay it asked for.
    pub delays: Seq<int>,
}

impl TaskModel {
    /// A task that was never spawned.
    pub open spec fn idle() -> TaskModel {
        TaskModel {
            phase: TaskPhase::Idle,
            ready_at: 0,
            rearmed: false,
            clock: 0,
            starts: Seq::empty(),
            ends: Seq::empty(),
            delays: Seq::empty(),
        }
    }

    /// An instance that a running instance asked for is waiting or will
    /// wait.
    pub open spec fn rearm_outstanding(self) -> bool {
        self.rearmed || (self.phase == TaskPhase::Queued && self.starts.len() > 0)
    }

    /// The record is consistent: executions are listed in order, each one
    /// ends before the next starts, and each one that follows a re-arm
    /// starts no earlier than the delay asked for after the start of the one
    /// before it.
    pub open spec fn wf(self) -> bool {
        let n = self.starts.len() as int;
        &&& 0 <= self.clock
        &&& 0 <= self.ready_at
        &&& self.rearmed ==> self.phase == TaskPhase::Running
        &&& self.phase == TaskPhase::Running ==> n >= 1 && self.ends.len() == n - 1
        &&& self.phase != TaskPhase::Running ==> self.ends.len() == n
        &&& self.delays.len() == if self.rearm_outstanding() {
            n
        } else if n > 0 {
            n - 1
        } else {
            0
        }
        &&& forall|k: int| 0 <= k < self.delays.len() ==> 0 <= #[trigger] self.delays[k]
        &&& forall|k: int|
            0 <= k < n - 1 ==> self.starts[k] + self.delays[k] <= #[trigger] self.starts[k + 1]
        &&& forall|k: int| 0 <= k < self.ends.len() ==> self.starts[k] <= #[trigger] self.ends[k]
        &&& forall|k: int| 0 <= k < n - 1 ==> #[trigger] self.ends[k] <= self.starts[k + 1]
        &&& n > 0 ==> self.starts[n - 1] <= self.clock
        &&& self.ends.len() > 0 ==> self.ends[self.ends.len() - 1] <= self.clock
        &&& self.rearm_outstanding() ==> self.starts[n - 1] + self.delays[n - 1] <= self.ready_at
    }

    /// The same task with `now` as the latest time reported.
    pub open spec fn at(self, now: int) -> TaskModel {
        TaskModel { clock: now, ..self }
    }

    /// The task after it is queued from idle, to start no earlier than
    /// `ready_at`; its record starts anew.
    pub open spec fn queued(self, now: int, ready_at: int) -> TaskModel {
        TaskModel {
            phase: TaskPhase::Queued,
            ready_at,
            rearmed: false,
            clock: now,
            starts: Seq::empty(),
            ends: Seq::empty(),
            delays: Seq::empty(),
        }
    }

    /// `spawn` succeeds on an idle task only.
    pub open spec fn can_spawn(self) -> bool {
        self.phase == TaskPhase::Idle
    }

    /// The task after `spawn` at `now`.
    pub open spec fn spawn(self, now: int) -> TaskModel {
        if self.can_spawn() {
            self.queued(now, now)
        } else {
            self.at(now)
        }
    }

    /// `spawn_after` succeeds on an idle task, and on a running one that has
    /// not re-armed itself yet.
    pub open spec fn can_spawn_after(self) -> bool {
        self.phase == TaskPhase::Idle || (self.phase == TaskPhase::Running && !self.rearmed)
    }

    /// The task after `spawn_after` at `now` with `delay`.
    pub open spec fn spawn_after(self, now: int, delay: int) -> TaskModel {
        if self.phase == TaskPhase::Idle {
            self.queued(now, now + delay)
        } else if self.can_spawn_after() {
            TaskModel {
                rearmed: true,
                ready_at: now + delay,
                clock: now,
                delays: self.delays.push(delay),
                ..self
            }
        } else {
            self.at(now)
        }
    }

    /// The waiting instance may start at `now`.
    pub open spec fn is_due(self, now: int) -> bool {
        self.phase == TaskPhase::Queued && self.ready_at <= now
    }

    /// The task after the timer fires at `now`: a due instance starts.
    pub open spec fn dispatch(self, now: int) -> TaskModel {
        if self.is_due(now) {
            TaskModel {
                phase: TaskPhase::Running,
                rearmed: false,
                clock: now,
                starts: self.starts.push(now),
                ..self
            }
        } else {
            self.at(now)
        }
    }

    /// The task after the running instance returns at `now`: queued again if
    /// the instance re-armed it, idle if not.
    pub open spec fn complete(self, now: int) -> TaskModel {
        if self.phase == TaskPhase::Running {
            TaskModel {
                phase: if self.rearmed {
                    TaskPhase::Queued
                } else {
                    TaskPhase::Idle
                },
                rearmed: false,
                clock: now,
                ends: self.ends.push(now),
                ..self
            }
        } else {
            self.at(now)
        }
    }
}

/// Every transition keeps a consistent record consistent, as long as time
/// does not go back.
pub proof fn lemma_transitions_keep_wf(task: TaskModel, now: int, delay: int)
    requires
        task.wf(),
        task.clock <= now,
        0 <= delay,
    ensures
        task.at(now).wf(),
        task.spawn(now).wf(),
        task.spawn_after(now, delay).wf(),
        task.dispatch(now).wf(),
        task.complete(now).wf(),
{
}

/// In a task that re-arms itself with a delay of at least `interval` each
/// time, execution `n` (counted from 0) starts no earlier than `n` intervals
/// after the first.
pub proof fn lemma_periodic_spacing(task: TaskModel, interval: int, n: int)
    requires
        task.wf(),
        forall|k: int| 0 <= k < task.delays.len() ==> interval <= #[trigger] task.delays[k],
        0 <= n < task.starts.len(),
    ensures
        task.starts[0] + n * interval <= task.starts[n],
    decreases n,
{
    if n > 0 {
        lemma_periodic_spacing(task, interval, n - 1);
        assert(task.starts[n - 1] + task.delays[n - 1] <= task.starts[n - 1 + 1]);
        assert(n * interval == (n - 1) * interval + interval) by (nonlinear_arith);
    }
}

/// No two executions overlap: an earlier one has ended when a later one
/// starts.
pub proof fn lemma_executions_do_not_overlap(task: TaskModel, earlier: int, later: int)
    requires
        task.wf(),
        0 <= earlier < later < task.starts.len(),
    ensures
        earlier < task.ends.len(),
        task.starts[earlier] <= task.ends[earlier] <= task.starts[later],
    decreases later - earlier,
{
    if later - 1 > earlier {
        lemma_executions_do_not_overlap(task, earlier, later - 1);
        assert(task.starts[later - 1] <= task.ends[later - 1]);
        assert(task.ends[later - 1] <= task.starts[later - 1 + 1]);
    } else {
        assert(task.ends[earlier] <= task.starts[earlier + 1]);
    }
}

/// The scheduler's handle on one task.
pub struct TaskHandle {
    phase: TaskPhase,
    ready_at: u64,
    rearmed: bool,
    clock: u64,
    record: Ghost<(Seq<int>, Seq<int>, Seq<int>)>,
}

impl View for TaskHandle {
    type V = TaskModel;

    closed spec fn view(&self) -> TaskModel {
        TaskModel {
            phase: self.phase,
            ready_at: self.ready_at as int,
            rearmed: self.rearmed,
            clock: self.clock as int,
            starts: self.record@.0,
            ends: self.record@.1,
            delays: self.record@.2,
        }
    }
}

impl TaskHandle {
    /// The handle of a task that was never spawned.
    pub fn new() -> (task: TaskHandle)
        ensures
            task@ == TaskModel::idle(),
            task@.wf(),
    {
        TaskHandle {
            phase: TaskPhase::Idle,
            ready_at: 0,
            rearmed: false,
            clock: 0,
            record: Ghost((Seq::empty(), Seq::empty(), Seq::empty())),
        }
    }

    /// The phase of the task.
    pub fn phase(&self) -> (phase: TaskPhase)
        ensures
            phase == self@.phase,
    {
        self.phase
    }

    /// The latest time reported; time may not go back behind it.
    pub fn clock(&self) -> (clock: u64)
        ensures
            clock == self@.clock,
    {
        self.clock
    }

    /// The time from which the waiting instance may start, if one waits.
    pub fn ready_at(&self) -> (time: Option<u64>)
        ensures
            time == if self@.phase == TaskPhase::Queued {
                Some(self@.ready_at as u64)
            } else {
                None::<u64>
            },
            time matches Some(t) ==> t == self@.ready_at,
    {
        match self.phase {
            TaskPhase::Queued => Some(self.ready_at),
            _ => None,
        }
    }

    /// Queues the task to start at once. Fails with `SchedulingFailure`,
    /// and changes nothing but the time, when an instance is queued or
    /// running.
    pub fn spawn(&mut self, now: u64) -> (result: Result<(), ErrorKind>)
        requires
            old(self)@.wf(),
            old(self)@.clock <= now,
        ensures
            final(self)@.wf(),
            final(self)@ == old(self)@.spawn(now as int),
            result == if old(self)@.can_spawn() {
                Ok::<(), ErrorKind>(())
            } else {
                Err::<(), ErrorKind>(ErrorKind::SchedulingFailure)
            },
    {
        proof {
            lemma_transitions_keep_wf(self@, now as int, 0);
        }
        self.clock = now;
        match self.phase {
            TaskPhase::Idle => {
                self.phase = TaskPhase::Queued;
                self.ready_at = now;
                self.rearmed = false;
                self.record = Ghost((Seq::empty(), Seq::empty(), Seq::empty()));
                Ok(())
            },
            _ => Err(ErrorKind::SchedulingFailure),
        }
    }

    /// Queues the task to start no earlier than `delay` after `now`. From
    /// idle this starts a new record; from a running instance it re-arms the
    /// task, once. Fails with `SchedulingFailure`, and changes nothing but
    /// the time, when an instance is already waiting.
    pub fn spawn_after(&mut self, now: u64, delay: u64) -> (result: Result<(), ErrorKind>)
        requires
            old(self)@.wf(),
            old(self)@.clock <= now,
            now + delay <= u64::MAX,
        ensures
            final(self)@.wf(),
            final(self)@ == old(self)@.spawn_after(now as int, delay as int),
            result == if old(self)@.can_spawn_after() {
                Ok::<(), ErrorKind>(())
            } else {
                Err::<(), ErrorKind>(ErrorKind::SchedulingFailure)
            },
    {
        proof {
            lemma_transitions_keep_wf(self@, now as int, delay as int);
        }
        self.clock = now;
        match self.phase {
            TaskPhase::Idle => {
                self.phase = TaskPhase::Queued;
                self.ready_at = now + delay;
                self.rearmed = false;
                self.record = Ghost((Seq::empty(), Seq::empty(), Seq::empty()));
                Ok(())
            },
            TaskPhase::Running => {
                if self.rearmed {
                    Err(ErrorKind::SchedulingFailure)
                } else {
                    self.rearmed = true;
                    self.ready_at = now + delay;
                    self.record = Ghost(
                        (self.record@.0, self.record@.1, self.record@.2.push(delay as int)),
                    );
                    Ok(())
                }
            },
            TaskPhase::Queued => Err(ErrorKind::SchedulingFailure),
        }
    }

    /// The timer fired at `now`. Returns whether the waiting instance is due
    /// and starts to run; if not, nothing changes but the time.
    pub fn dispatch(&mut self, now: u64) -> (started: bool)
        requires
            old(self)@.wf(),
            old(self)@.clock <= now,
        ensures
            final(self)@.wf(),
            final(self)@ == old(self)@.dispatch(now as int),
            started == old(self)@.is_due(now as int),
    {
        proof {
            lemma_transitions_keep_wf(self@, now as int, 0);
        }
        self.clock = now;
        match self.phase {
            TaskPhase::Queued => {
                if self.ready_at <= now {
                    self.phase = TaskPhase::Running;
                    self.rearmed = false;
                    self.record = Ghost(
                        (self.record@.0.push(now as int), self.record@.1, self.record@.2),
                    );
                    true
                } else {
                    false
                }
            },
            _ => false,
        }
    }

    /// The running instance returned at `now`. The task is queued again if
    /// the instance re-armed it and idle if not; the new phase is returned.
    /// On a task that is not running nothing changes but the time.
    pub fn complete(&mut self, now: u64) -> (phase: TaskPhase)
        requires
            old(self)@.wf(),
            old(self)@.clock <= now,
        ensures
            final(self)@.wf(),
            final(self)@ == old(self)@.complete(now as int),
            phase == final(self)@.phase,
    {
        proof {
            lemma_transitions_keep_wf(self@, now as int, 0);
        }
        self.clock = now;
        match self.phase {
            TaskPhase::Running => {
                self.phase = if self.rearmed {
                    TaskPhase::Queued
                } else {
                    TaskPhase::Idle
                };
                self.rearmed = false;
                self.record = Ghost(
                    (self.record@.0, self.record@.1.push(now as int), self.record@.2),
                );
            },
            _ => {},
        }
        self.phase
    }
}

} // verus!
