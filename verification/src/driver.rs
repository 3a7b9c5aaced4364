//! The event-loop driver: it owns both queues and decides, one job at a
//! time, what executes next and what a failure does to the run.

use crate::task::{ErrorPolicy, Task};
use crate::model::{DriverModel, Phase};
use crate::queues::JobQueues;
use std::collections::VecDeque;
use vstd::prelude::*;

verus! {

/// What the embedder does after it reported the outcome of a job.
#[derive(Debug)]
pub enum Verdict<E> {
    /// The job succeeded; ask for the next one.
    Continue,
    /// The job failed with this error, which is the embedder's to report;
    /// the run goes on.
    Report(E),
    /// The job failed with this error and the run ends with it. Every
    /// microtask that had not run was discarded.
    Abort(E),
}

/// The verdict on an outcome reported in state `s`.
pub open spec fn verdict_of<M, T, E>(s: DriverModel<M, T>, outcome: Result<(), E>) -> Verdict<E> {
    match outcome {
        Ok(_) => Verdict::Continue,
        Err(e) => if s.aborts(true) {
            Verdict::Abort(e)
        } else {
            Verdict::Report(e)
        },
    }
}

/// Two models with the same policy and phase and with sequences that agree
/// element by element are the same model.
proof fn same_model<M, T>(a: DriverModel<M, T>, b: DriverModel<M, T>)
    requires
        a.policy == b.policy,
        a.phase == b.phase,
        a.batch =~= b.batch,
        a.micro =~= b.micro,
        a.mac =~= b.mac,
    ensures
        a == b,
{
}

/// Where the driver stands in its loop, together with the batch that is
/// open there. Only the two places that run a batch can hold one.
enum Cursor<M> {
    Top,
    Batch(VecDeque<M>),
    Resolved,
    Followup(VecDeque<M>),
}

impl<M> Cursor<M> {
    spec fn phase(self) -> Phase {
        match self {
            Cursor::Top => Phase::Top,
            Cursor::Batch(_) => Phase::Batch,
            Cursor::Resolved => Phase::Resolved,
            Cursor::Followup(_) => Phase::Followup,
        }
    }

    spec fn batch(self) -> Seq<M> {
        match self {
            Cursor::Batch(batch) => batch@,
            Cursor::Followup(batch) => batch@,
            _ => Seq::empty(),
        }
    }

    /// True when a batch is open, that is, when the job handed out last is a
    /// microtask.
    fn runs_batch(&self) -> (open: bool)
        ensures
            open == (self.phase() == Phase::Batch || self.phase() == Phase::Followup),
    {
        match self {
            Cursor::Batch(_) => true,
            Cursor::Followup(_) => true,
            _ => false,
        }
    }

    /// Number of microtasks left in the open batch.
    fn remaining(&self) -> (n: usize)
        ensures
            n == self.batch().len(),
    {
        match self {
            Cursor::Batch(batch) => batch.len(),
            Cursor::Followup(batch) => batch.len(),
            _ => 0,
        }
    }
}

/// Drives both queues to exhaustion. The embedder alternates between
/// [`EventLoopDriver::next_job`], executing the job it is handed against the
/// interpreter state, and [`EventLoopDriver::settle`] with the job's outcome.
/// Jobs that enqueue further jobs while they execute do so through
/// [`EventLoopDriver::enqueue_job`] between those two calls.
pub struct EventLoopDriver<M, T> {
    policy: ErrorPolicy,
    cursor: Cursor<M>,
    queues: JobQueues<M, T>,
}

impl<M, T> View for EventLoopDriver<M, T> {
    type V = DriverModel<M, T>;

    closed spec fn view(&self) -> DriverModel<M, T> {
        DriverModel {
            policy: self.policy,
            phase: self.cursor.phase(),
            batch: self.cursor.batch(),
            micro: self.queues.microtasks(),
            mac: self.queues.macrotasks(),
        }
    }
}

impl<M, T> EventLoopDriver<M, T> {
    /// A driver with empty queues and the given error policy.
    pub fn new(policy: ErrorPolicy) -> (d: Self)
        ensures
            d@.wf(),
            d@ == (DriverModel::<M, T> {
                policy,
                phase: Phase::Top,
                batch: Seq::empty(),
                micro: Seq::empty(),
                mac: Seq::empty(),
            }),
    {
        EventLoopDriver { policy, cursor: Cursor::Top, queues: JobQueues::new() }
    }

    /// The policy chosen at construction.
    pub fn policy(&self) -> (p: ErrorPolicy)
        ensures
            p == self@.policy,
    {
        self.policy
    }

    /// Puts a job at the back of the queue that its tag names. Nothing that
    /// was already handed out or drained into the open batch is affected.
    pub fn enqueue_job(&mut self, job: Task<M, T>)
        ensures
            final(self)@.wf(),
            final(self)@ == old(self)@.enqueue(job),
    {
        match job {
            Task::Microtask(m) => self.queues.enqueue_microtask(m),
            Task::Macrotask(t) => self.queues.enqueue_macrotask(t),
        }
    }

    /// Enqueues a job that was sorted beforehand: one that belongs to a queue
    /// goes to the back of it; anything else is handed back and the driver
    /// is left as it was.
    pub fn enqueue_sorted<U>(&mut self, sorted: Result<Task<M, T>, U>) -> (rejected: Option<U>)
        ensures
            final(self)@.wf(),
            match sorted {
                Ok(job) => rejected is None && final(self)@ == old(self)@.enqueue(job),
                Err(other) => rejected == Some(other) && final(self)@ == old(self)@,
            },
    {
        match sorted {
            Ok(job) => {
                self.enqueue_job(job);
                None
            },
            Err(other) => Some(other),
        }
    }

    /// True exactly when no job is queued and no batch is open, so that
    /// [`EventLoopDriver::next_job`] would hand out nothing.
    pub fn is_idle(&self) -> (idle: bool)
        ensures
            idle == self@.is_idle(),
    {
        self.cursor.remaining() == 0 && self.queues.is_idle()
    }

    /// Chooses the job to execute next and removes it from the driver, or
    /// returns `None` when a pass from the top of the loop finds both queues
    /// empty.
    ///
    /// Microtasks of the open batch come first. When the batch that opened a
    /// pass is exhausted the oldest macrotask follows; the microtasks queued
    /// by the time it has run form the batch after it; then the next pass
    /// begins.
    pub fn next_job(&mut self) -> (job: Option<Task<M, T>>)
        ensures
            final(self)@.wf(),
            final(self)@ == old(self)@.step().0,
            job == old(self)@.step().1,
    {
        let mut cursor = Cursor::Top;
        std::mem::swap(&mut self.cursor, &mut cursor);
        match cursor {
            Cursor::Top => {},
            Cursor::Batch(open) => {
                let mut batch = open;
                if let Some(m) = batch.pop_front() {
                    self.cursor = Cursor::Batch(batch);
                    proof { same_model(self@, old(self)@.step().0); }
                    return Some(Task::Microtask(m));
                }
                if let Some(t) = self.queues.drain_next_macrotask() {
                    self.cursor = Cursor::Resolved;
                    proof { same_model(self@, old(self)@.step().0); }
                    return Some(Task::Macrotask(t));
                }
            },
            Cursor::Resolved => {
                let mut batch = self.queues.drain_next_microtask_batch();
                if let Some(m) = batch.pop_front() {
                    self.cursor = Cursor::Followup(batch);
                    proof { same_model(self@, old(self)@.step().0); }
                    return Some(Task::Microtask(m));
                }
            },
            Cursor::Followup(open) => {
                let mut batch = open;
                if let Some(m) = batch.pop_front() {
                    self.cursor = Cursor::Followup(batch);
                    proof { same_model(self@, old(self)@.step().0); }
                    return Some(Task::Microtask(m));
                }
            },
        }
        if self.queues.is_idle() {
            proof { same_model(self@, old(self)@.step().0); }
            return None;
        }
        let mut batch = self.queues.drain_next_microtask_batch();
        if let Some(m) = batch.pop_front() {
            self.cursor = Cursor::Batch(batch);
            proof { same_model(self@, old(self)@.step().0); }
            return Some(Task::Microtask(m));
        }
        let next = self.queues.drain_next_macrotask();
        self.cursor = Cursor::Resolved;
        proof { same_model(self@, old(self)@.step().0); }
        match next {
            Some(t) => Some(Task::Macrotask(t)),
            None => None,
        }
    }

    /// Applies the error policy to the outcome of the job handed out last.
    ///
    /// Success changes nothing. A failure aborts the run when the policy is
    /// [`ErrorPolicy::AbortQueueOnError`] and the job was a microtask: the
    /// rest of the open batch and the microtask queue are discarded, the
    /// macrotasks stay, and the driver is back at the top of its loop. Every
    /// other failure is handed back for the embedder to report.
    pub fn settle<E>(&mut self, outcome: Result<(), E>) -> (verdict: Verdict<E>)
        ensures
            final(self)@.wf(),
            final(self)@ == old(self)@.settle(outcome is Err),
            verdict == verdict_of(old(self)@, outcome),
    {
        match outcome {
            Ok(_) => Verdict::Continue,
            Err(e) => {
                let policy = self.policy;
                let micro = self.cursor.runs_batch();
                if policy == ErrorPolicy::AbortQueueOnError && micro {
                    self.cursor = Cursor::Top;
                    self.queues.discard_microtasks();
                    proof { same_model(self@, old(self)@.settle(true)); }
                    Verdict::Abort(e)
                } else {
                    Verdict::Report(e)
                }
            },
        }
    }
}

} // verus!
