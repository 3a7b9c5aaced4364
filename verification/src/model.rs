//! The mathematical model of the driver: its state as plain sequences, one
//! transition per job handed out, and the trace of a whole run.

use crate::task::{ErrorPolicy, Task};
use vstd::prelude::*;

verus! {

/// Where the driver stands inside one pass of its loop.
#[derive(Clone, Copy, Debug, PartialEq, Eq, Structural)]
pub enum Phase {
    /// At the top of the loop: nothing is running and no batch is open.
    Top,
    /// Running the batch of microtasks that was drained at the top.
    Batch,
    /// A macrotask has been handed out; what it enqueues forms the next batch.
    Resolved,
    /// Running the batch of microtasks drained after a macrotask.
    Followup,
}

/// The driver's state as mathematical values.
pub struct DriverModel<M, T> {
    pub policy: ErrorPolicy,
    pub phase: Phase,
    /// Microtasks of the open batch that have not run yet, oldest first.
    pub batch: Seq<M>,
    /// Queued microtasks, oldest first.
    pub micro: Seq<M>,
    /// Queued macrotasks, oldest first.
    pub mac: Seq<T>,
}

/// What one executed job did: whether it failed, and the jobs it enqueued
/// while it ran, in the order in which it enqueued them.
pub struct Reaction<M, T> {
    pub failed: bool,
    pub spawned: Seq<Task<M, T>>,
}

/// The microtasks among `jobs`, in the order in which they occur.
pub open spec fn microtasks_of<M, T>(jobs: Seq<Task<M, T>>) -> Seq<M>
    decreases jobs.len(),
{
    if jobs.len() == 0 {
        Seq::empty()
    } else {
        match jobs[0] {
            Task::Microtask(m) => seq![m] + microtasks_of(jobs.drop_first()),
            Task::Macrotask(_) => microtasks_of(jobs.drop_first()),
        }
    }
}

/// The macrotasks among `jobs`, in the order in which they occur.
pub open spec fn macrotasks_of<M, T>(jobs: Seq<Task<M, T>>) -> Seq<T>
    decreases jobs.len(),
{
    if jobs.len() == 0 {
        Seq::empty()
    } else {
        match jobs[0] {
            Task::Microtask(_) => macrotasks_of(jobs.drop_first()),
            Task::Macrotask(t) => seq![t] + macrotasks_of(jobs.drop_first()),
        }
    }
}

impl<M, T> DriverModel<M, T> {
    /// A batch is open only while one is being run.
    pub open spec fn wf(self) -> bool {
        (self.phase == Phase::Top || self.phase == Phase::Resolved) ==> self.batch.len() == 0
    }

    /// True when nothing is left to run.
    pub open spec fn is_idle(self) -> bool {
        self.batch.len() == 0 && self.micro.len() == 0 && self.mac.len() == 0
    }

    /// The state after one job was enqueued.
    pub open spec fn enqueue(self, job: Task<M, T>) -> Self {
        match job {
            Task::Microtask(m) => DriverModel { micro: self.micro.push(m), ..self },
            Task::Macrotask(t) => DriverModel { mac: self.mac.push(t), ..self },
        }
    }

    /// The state after `jobs` were enqueued one after the other.
    pub open spec fn enqueue_all(self, jobs: Seq<Task<M, T>>) -> Self
        decreases jobs.len(),
    {
        if jobs.len() == 0 {
            self
        } else {
            self.enqueue(jobs[0]).enqueue_all(jobs.drop_first())
        }
    }

    /// Opens a batch with every queued microtask and hands out its first.
    /// Meant for a state whose microtask queue is not empty.
    pub open spec fn open_batch(self, phase: Phase) -> (Self, Option<Task<M, T>>) {
        (
            DriverModel { phase, batch: self.micro.drop_first(), micro: Seq::empty(), ..self },
            Some(Task::Microtask(self.micro[0])),
        )
    }

    /// Hands out the next microtask of the open batch.
    /// Meant for a state whose batch is not empty.
    pub open spec fn pop_batch(self) -> (Self, Option<Task<M, T>>) {
        (DriverModel { batch: self.batch.drop_first(), ..self }, Some(Task::Microtask(self.batch[0])))
    }

    /// Hands out the oldest macrotask.
    /// Meant for a state whose macrotask queue is not empty.
    pub open spec fn pop_macrotask(self) -> (Self, Option<Task<M, T>>) {
        (
            DriverModel { phase: Phase::Resolved, mac: self.mac.drop_first(), ..self },
            Some(Task::Macrotask(self.mac[0])),
        )
    }

    /// One pass from the top of the loop: the queued microtasks first, else
    /// the oldest macrotask, else nothing.
    pub open spec fn from_top(self) -> (Self, Option<Task<M, T>>) {
        if self.micro.len() > 0 {
            self.open_batch(Phase::Batch)
        } else if self.mac.len() > 0 {
            self.pop_macrotask()
        } else {
            (DriverModel { phase: Phase::Top, ..self }, None)
        }
    }

    /// The transition of the driver: the state after it has chosen the next
    /// job to execute, and that job; `None` when both queues are idle.
    pub open spec fn step(self) -> (Self, Option<Task<M, T>>) {
        match self.phase {
            Phase::Top => self.from_top(),
            Phase::Batch => if self.batch.len() > 0 {
                self.pop_batch()
            } else if self.mac.len() > 0 {
                self.pop_macrotask()
            } else {
                self.from_top()
            },
            Phase::Resolved => if self.micro.len() > 0 {
                self.open_batch(Phase::Followup)
            } else {
                self.from_top()
            },
            Phase::Followup => if self.batch.len() > 0 {
                self.pop_batch()
            } else {
                self.from_top()
            },
        }
    }

    /// True when the job that was handed out last is a microtask.
    pub open spec fn running_microtask(self) -> bool {
        self.phase == Phase::Batch || self.phase == Phase::Followup
    }

    /// True when reporting an outcome ends the run: a microtask failed under
    /// the aborting policy.
    pub open spec fn aborts(self, failed: bool) -> bool {
        failed && self.policy == ErrorPolicy::AbortQueueOnError && self.running_microtask()
    }

    /// The state after the outcome of the running job was reported. An abort
    /// discards every microtask that has not run; macrotasks are kept.
    pub open spec fn settle(self, failed: bool) -> Self {
        if self.aborts(failed) {
            DriverModel { phase: Phase::Top, batch: Seq::empty(), micro: Seq::empty(), ..self }
        } else {
            self
        }
    }

    /// The state after the running job enqueued what it enqueued and its
    /// outcome was reported.
    pub open spec fn react(self, r: Reaction<M, T>) -> Self {
        self.enqueue_all(r.spawned).settle(r.failed)
    }

    /// The jobs that a run executes, in order, when the k-th executed job
    /// behaves as `reactions[k]` says. The run ends when the driver finds
    /// nothing to run, when a failure aborts it, or when the reactions are
    /// used up.
    pub open spec fn trace(self, reactions: Seq<Reaction<M, T>>) -> Seq<Task<M, T>>
        decreases reactions.len(),
    {
        let (next, job) = self.step();
        if reactions.len() == 0 {
            Seq::empty()
        } else {
            match job {
                None => Seq::empty(),
                Some(j) => if next.aborts(reactions[0].failed) {
                    seq![j]
                } else {
                    seq![j] + next.react(reactions[0]).trace(reactions.drop_first())
                },
            }
        }
    }

    /// The state in which a run with these reactions ends.
    pub open spec fn end_state(self, reactions: Seq<Reaction<M, T>>) -> Self
        decreases reactions.len(),
    {
        let (next, job) = self.step();
        if reactions.len() == 0 {
            self
        } else {
            match job {
                None => next,
                Some(_) => if next.aborts(reactions[0].failed) {
                    next.react(reactions[0])
                } else {
                    next.react(reactions[0]).end_state(reactions.drop_first())
                },
            }
        }
    }

    /// The jobs that the executed jobs of a run enqueued, in the order in
    /// which they were enqueued.
    pub open spec fn spawned(self, reactions: Seq<Reaction<M, T>>) -> Seq<Task<M, T>>
        decreases reactions.len(),
    {
        let (next, job) = self.step();
        if reactions.len() == 0 {
            Seq::empty()
        } else {
            match job {
                None => Seq::empty(),
                Some(_) => if next.aborts(reactions[0].failed) {
                    reactions[0].spawned
                } else {
                    reactions[0].spawned + next.react(reactions[0]).spawned(
                        reactions.drop_first(),
                    )
                },
            }
        }
    }

    /// The state in which the outcome of the k-th executed job of a run is
    /// settled: that job has been handed out and has enqueued what it
    /// enqueues. Meant for `k < self.trace(reactions).len()`.
    pub open spec fn settling_state(self, reactions: Seq<Reaction<M, T>>, k: nat) -> Self
        decreases k,
    {
        let next = self.step().0;
        if k == 0 {
            next.enqueue_all(reactions[0].spawned)
        } else {
            next.react(reactions[0]).settling_state(reactions.drop_first(), (k - 1) as nat)
        }
    }

    /// The microtasks that run next, in this order, before any macrotask
    /// can: the rest of the open batch, and the queued microtasks wherever
    /// the next batch is drained before a macrotask is taken.
    pub open spec fn upcoming(self) -> Seq<M> {
        match self.phase {
            Phase::Top => self.micro,
            Phase::Batch => self.batch,
            Phase::Resolved => self.micro,
            Phase::Followup => self.batch + self.micro,
        }
    }

    /// Every job that the driver holds, in the order in which a run executes
    /// them when no job enqueues another.
    pub open spec fn pending(self) -> Seq<Task<M, T>> {
        (self.batch + self.micro).map_values(|m: M| Task::Microtask(m)) + self.mac.map_values(
            |t: T| Task::Macrotask(t),
        )
    }

    /// True when none of the first `n` reactions can abort a run under this
    /// state's policy.
    pub open spec fn no_abort_within(self, reactions: Seq<Reaction<M, T>>, n: int) -> bool {
        self.policy == ErrorPolicy::LogAndContinue || forall|k: int|
            0 <= k < n && k < reactions.len() ==> !(#[trigger] reactions[k]).failed
    }
}

} // verus!
