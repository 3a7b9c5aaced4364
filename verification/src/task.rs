//! Jobs and the policy applied when one of them fails.

use vstd::prelude::*;

verus! {

/// A one-shot unit of deferred work, tagged by the queue it belongs to.
///
/// `M` is the payload of a microtask (a callable that completes as soon as it
/// is invoked), `T` the payload of a macrotask (work that has to be driven to
/// completion before its continuation exists). The scheduler never looks
/// inside either payload.
#[derive(Debug)]
pub enum Task<M, T> {
    Microtask(M),
    Macrotask(T),
}

/// What the driver does when a job reports failure.
#[derive(Clone, Copy, Debug, PartialEq, Eq, Structural)]
pub enum ErrorPolicy {
    /// The failure is handed to the embedder and every other job still runs.
    LogAndContinue,
    /// A failing microtask discards every microtask that has not run yet and
    /// ends the run with that failure. Pending macrotasks stay queued.
    AbortQueueOnError,
}

impl<M, T> Task<M, T> {
    /// True for the microtask variant.
    pub open spec fn is_microtask(self) -> bool {
        self is Microtask
    }

    /// Tells whether the job belongs to the microtask queue.
    pub fn is_micro(&self) -> (b: bool)
        ensures
            b == self.is_microtask(),
    {
        match self {
            Task::Microtask(_) => true,
            Task::Macrotask(_) => false,
        }
    }
}

} // verus!
