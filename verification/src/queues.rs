//! The two FIFO queues that hold pending jobs.

use std::collections::VecDeque;
use vstd::prelude::*;

verus! {

/// Pending microtasks and pending macrotasks, each in enqueue order.
///
/// The queues only store jobs. They never invoke one.
pub struct JobQueues<M, T> {
    micro: VecDeque<M>,
    mac: VecDeque<T>,
}

impl<M, T> JobQueues<M, T> {
    /// The pending microtasks, oldest first.
    pub closed spec fn microtasks(&self) -> Seq<M> {
        self.micro@
    }

    /// The pending macrotasks, oldest first.
    pub closed spec fn macrotasks(&self) -> Seq<T> {
        self.mac@
    }

    /// A pair of empty queues.
    pub fn new() -> (q: Self)
        ensures
            q.microtasks() == Seq::<M>::empty(),
            q.macrotasks() == Seq::<T>::empty(),
    {
        JobQueues { micro: VecDeque::new(), mac: VecDeque::new() }
    }

    /// Appends a microtask behind every microtask already queued.
    pub fn enqueue_microtask(&mut self, job: M)
        ensures
            final(self).microtasks() == old(self).microtasks().push(job),
            final(self).macrotasks() == old(self).macrotasks(),
    {
        self.micro.push_back(job);
    }

    /// Appends a macrotask behind every macrotask already queued.
    pub fn enqueue_macrotask(&mut self, job: T)
        ensures
            final(self).macrotasks() == old(self).macrotasks().push(job),
            final(self).microtasks() == old(self).microtasks(),
    {
        self.mac.push_back(job);
    }

    /// True exactly when neither queue holds a job.
    pub fn is_idle(&self) -> (idle: bool)
        ensures
            idle == (self.microtasks().len() == 0 && self.macrotasks().len() == 0),
    {
        self.micro.len() == 0 && self.mac.len() == 0
    }

    /// Number of pending microtasks.
    pub fn pending_microtasks(&self) -> (n: usize)
        ensures
            n == self.microtasks().len(),
    {
        self.micro.len()
    }

    /// Number of pending macrotasks.
    pub fn pending_macrotasks(&self) -> (n: usize)
        ensures
            n == self.macrotasks().len(),
    {
        self.mac.len()
    }

    /// Removes every microtask queued so far and returns them oldest first.
    /// The microtask queue is empty afterwards, ready for the jobs that the
    /// returned batch enqueues while it runs.
    pub fn drain_next_microtask_batch(&mut self) -> (batch: VecDeque<M>)
        ensures
            batch@ == old(self).microtasks(),
            final(self).microtasks() == Seq::<M>::empty(),
            final(self).macrotasks() == old(self).macrotasks(),
    {
        let mut batch: VecDeque<M> = VecDeque::new();
        std::mem::swap(&mut self.micro, &mut batch);
        batch
    }

    /// Removes and returns the oldest macrotask, if there is one.
    pub fn drain_next_macrotask(&mut self) -> (job: Option<T>)
        ensures
            final(self).microtasks() == old(self).microtasks(),
            old(self).macrotasks().len() == 0 ==> job is None && final(self).macrotasks()
                == old(self).macrotasks(),
            old(self).macrotasks().len() > 0 ==> job == Some(old(self).macrotasks()[0])
                && final(self).macrotasks() == old(self).macrotasks().drop_first(),
    {
        self.mac.pop_front()
    }

    /// Drops every pending microtask without touching the macrotasks.
    pub fn discard_microtasks(&mut self)
        ensures
            final(self).microtasks() == Seq::<M>::empty(),
            final(self).macrotasks() == old(self).macrotasks(),
    {
        self.micro.clear();
    }
}

} // verus!
