//! Effects and the contract for user-defined state payloads.

use vstd::prelude::*;

use crate::event::ProcessId;
use crate::event::ResourceId;

verus! {

/// An effect is yielded by a process to tell the kernel what to do on its
/// behalf before the process is resumed again.
#[derive(Debug, Copy, Clone, PartialEq, Eq)]
#[non_exhaustive]
pub enum Effect {
    /// Resume the yielding process after the given time interval.
    TimeOut(u64),
    /// Schedule another process to run after the given time interval,
    /// without rescheduling the yielding process.
    Event {
        /// Interval between the current simulation time and the resumption.
        time: u64,
        /// Process to resume when the event occurs.
        process: ProcessId,
    },
    /// Request one unit of the given resource.
    Request(ResourceId),
    /// Release one unit of the given resource.
    Release(ResourceId),
    /// Suspend until another event targets the yielding process.
    Wait,
    /// Resume the yielding process immediately, at the current time,
    /// purely to emit a trace entry.
    Trace,
}

/// The contract for user payloads yielded from processes. A payload carries
/// the control [`Effect`] the kernel interprets, a flag saying whether the
/// yield should be logged, and a way to duplicate itself, since the kernel
/// hands copies of the payload both to the trace and to follow-up events.
pub trait SimState: Sized {
    /// The effect this payload currently carries.
    spec fn effect_of(&self) -> Effect;

    /// Whether a yield of this payload should be appended to the trace.
    spec fn log_flag(&self) -> bool;

    /// Return the effect this payload carries.
    fn get_effect(&self) -> (e: Effect)
        ensures
            e == self.effect_of(),
    ;

    /// Replace the effect this payload carries.
    fn set_effect(&mut self, effect: Effect)
        ensures
            final(self).effect_of() == effect,
    ;

    /// Say whether a yield of this payload should be logged.
    fn should_log(&self) -> (b: bool)
        ensures
            b == self.log_flag(),
    ;

    /// Duplicate the payload. The copy must equal the original: the kernel
    /// relies on this when it both logs a payload and schedules it onward.
    fn clone_state(&self) -> (r: Self)
        ensures
            r == *self,
    ;
}

/// The simplest conforming payload is an effect by itself: every yield is
/// logged.
impl SimState for Effect {
    open spec fn effect_of(&self) -> Effect {
        *self
    }

    open spec fn log_flag(&self) -> bool {
        true
    }

    fn get_effect(&self) -> (e: Effect) {
        *self
    }

    fn set_effect(&mut self, effect: Effect) {
        *self = effect;
    }

    fn should_log(&self) -> (b: bool) {
        true
    }

    fn clone_state(&self) -> (r: Self) {
        *self
    }
}

} // verus!
