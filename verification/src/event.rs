//! Events: time-stamped resumptions of a process, carrying a user payload.

use vstd::prelude::*;

verus! {

/// Identifies a process: a dense handle assigned at creation, never reused.
pub type ProcessId = usize;

/// Identifies a resource: a dense handle assigned at creation.
pub type ResourceId = usize;

/// A scheduled resumption of a process at an absolute simulation time,
/// carrying the payload that will be handed to the process.
#[derive(Debug, Copy, Clone)]
pub struct Event<T> {
    /// Absolute simulation time at which the event is dispatched.
    pub time: u64,
    /// Process to resume when the event is dispatched.
    pub process: ProcessId,
    /// Payload handed to the process and, when it opts in, to the trace.
    pub state: T,
}

impl<T> Event<T> {
    /// The absolute time at which this event is dispatched.
    pub fn time(&self) -> (t: u64)
        ensures
            t == self.time,
    {
        self.time
    }

    /// The process this event resumes.
    pub fn process(&self) -> (p: ProcessId)
        ensures
            p == self.process,
    {
        self.process
    }

    /// The payload this event carries.
    pub fn state(&self) -> (s: &T)
        ensures
            s == &self.state,
    {
        &self.state
    }
}

} // verus!
