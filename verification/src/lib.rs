//! A discrete-event simulation kernel.
//!
//! A simulation owns a set of resumable processes, a time-ordered queue of
//! pending events and a table of finite counted resources. Virtual time
//! advances by dispatching the earliest pending event: the targeted process
//! is resumed, and the effect it yields decides what is scheduled next.
//! Resources are granted in strict FIFO order over their wait queues, and
//! every dispatched yield that opts in to logging is appended to an
//! in-memory trace.

pub mod effect;
pub mod event;
pub mod queue;
pub mod resource;
pub mod simulation;

pub use effect::Effect;
pub use effect::SimState;
pub use event::Event;
pub use event::ProcessId;
pub use event::ResourceId;
pub use simulation::EndCondition;
pub use simulation::ResumeOutcome;
pub use simulation::SimContext;
pub use simulation::SimError;
pub use simulation::SimProcess;
pub use simulation::Simulation;
