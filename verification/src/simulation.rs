//! The scheduler kernel: owns the processes, the pending-event queue, the
//! resources and the trace, and advances virtual time one dispatched event at
//! a time.

use vstd::prelude::*;

use crate::effect::Effect;
use crate::effect::SimState;
use crate::event::Event;
use crate::event::ProcessId;
use crate::event::ResourceId;
use crate::queue::EventQueue;
use crate::queue::first_min_index;
use crate::queue::lemma_first_min_index;
use crate::resource::ReleaseOutcome;
use crate::resource::Resource;
use crate::resource::ResourceModel;

verus! {

/// The context a process is resumed with: the current simulation time and a
/// copy of the payload of the event that woke it.
#[derive(Debug, Clone)]
pub struct SimContext<T> {
    /// Simulation time at the resumption.
    pub time: u64,
    /// Payload of the event that woke the process.
    pub state: T,
}

impl<T> SimContext<T> {
    /// The simulation time at this resumption.
    pub fn time(&self) -> (t: u64)
        ensures
            t == self.time,
    {
        self.time
    }

    /// The payload that caused this resumption.
    pub fn state(&self) -> (s: &T)
        ensures
            s == &self.state,
    {
        &self.state
    }

    /// The payload that caused this resumption, by value.
    pub fn into_state(self) -> (s: T)
        ensures
            s == self.state,
    {
        self.state
    }
}

/// What a resumed process did: suspend with a payload, or finish.
pub enum ResumeOutcome<T> {
    /// The process suspended, yielding a payload for the kernel to interpret.
    Yielded(T),
    /// The process completed; its slot is emptied and it is never resumed.
    Completed,
}

/// A resumable process. The kernel resumes it with a [`SimContext`] whenever
/// a dispatched event targets it; the process runs until it yields its next
/// payload or completes. Nothing is assumed about how it behaves.
pub trait SimProcess<T>: Sized {
    /// Run the process until its next yield or until it completes.
    fn resume(&mut self, ctx: SimContext<T>) -> ResumeOutcome<T>;
}

/// When `run` stops stepping. The predicate is checked before each step, so
/// `Time` and `NoEvents` may over-advance by one step; `NSteps` is exact.
pub enum EndCondition {
    /// Stop once the simulation time has reached this point.
    Time(u64),
    /// Stop once no event is pending.
    NoEvents,
    /// Stop once exactly this many steps were taken.
    NSteps(usize),
}

/// A fatal kernel error. Every variant marks a misuse of the kernel by the
/// caller or by a process; none is recoverable.
#[derive(Debug, Clone, Copy, PartialEq, Eq)]
pub enum SimError {
    /// The earliest pending event lies before the current time: an event was
    /// scheduled into the past.
    TimeRegression,
    /// An event targets a process handle that was never created.
    UnknownProcess,
    /// An event targets a process that has already completed.
    ResumeCompleted,
    /// An effect names a resource handle that was never created.
    UnknownResource,
    /// A resource was released while no unit of it was held.
    OverRelease,
    /// A `run` took the largest supported number of steps without meeting
    /// its end condition.
    Stalled,
}

/// The mathematical model of a whole simulation.
#[verifier::ext_equal]
pub struct SimModel<T> {
    /// Current simulation time.
    pub time: u64,
    /// Number of `step` calls so far.
    pub steps: usize,
    /// One flag per created process: true while its slot is occupied.
    pub procs: Seq<bool>,
    /// Pending events.
    pub queue: Seq<Event<T>>,
    /// The trace: every logged dispatch, in dispatch order.
    pub trace: Seq<(Event<T>, T)>,
    /// The resource table.
    pub resources: Seq<ResourceModel<T>>,
}

impl<T> SimModel<T> {
    /// The model of a freshly created simulation.
    pub open spec fn init() -> SimModel<T> {
        SimModel {
            time: 0,
            steps: 0,
            procs: Seq::empty(),
            queue: Seq::empty(),
            trace: Seq::empty(),
            resources: Seq::empty(),
        }
    }

    /// Every resource satisfies its invariant.
    pub open spec fn wf(self) -> bool {
        forall|i: int| 0 <= i < self.resources.len() ==> (#[trigger] self.resources[i]).wf()
    }
}

/// Whether the end condition holds of a simulation state.
pub open spec fn end_met<T>(m: SimModel<T>, until: EndCondition) -> bool {
    match until {
        EndCondition::Time(t) => m.time >= t,
        EndCondition::NoEvents => m.queue.len() == 0,
        EndCondition::NSteps(n) => m.steps == n,
    }
}

/// A run of successful steps: each adjacent pair of `chain` is one `step`
/// transition, taken while the end condition was still unmet. A `run` does
/// nothing but iterate such steps.
pub open spec fn run_steps<T: SimState>(chain: Seq<SimModel<T>>, until: EndCondition) -> bool {
    forall|k: int|
        0 <= k < chain.len() - 1 ==> !end_met(#[trigger] chain[k], until) && step_rel(
            chain[k],
            chain[k + 1],
            Ok::<(), SimError>(()),
        )
}

/// The state change a yielded effect asks for, and whether it succeeds:
/// how `m` (the state right after the dispatched event was logged) changes
/// when process `pid` yields payload `y`.
pub open spec fn apply_effect<T: SimState>(m: SimModel<T>, pid: ProcessId, y: T) -> (SimModel<T>, Result<
    (),
    SimError,
>) {
    match y.effect_of() {
        Effect::TimeOut(d) => (
            SimModel {
                queue: m.queue.push(
                    Event { time: m.time.saturating_add(d), process: pid, state: y },
                ),
                ..m
            },
            Ok(()),
        ),
        Effect::Event { time: d, process: target } => (
            SimModel {
                queue: m.queue.push(
                    Event { time: m.time.saturating_add(d), process: target, state: y },
                ),
                ..m
            },
            Ok(()),
        ),
        Effect::Request(rid) => if rid >= m.resources.len() {
            (m, Err(SimError::UnknownResource))
        } else if m.resources[rid as int].available > 0 {
            (
                SimModel {
                    queue: m.queue.push(Event { time: m.time, process: pid, state: y }),
                    resources: m.resources.update(
                        rid as int,
                        m.resources[rid as int].grant_one(),
                    ),
                    ..m
                },
                Ok(()),
            )
        } else {
            (
                SimModel {
                    resources: m.resources.update(
                        rid as int,
                        m.resources[rid as int].enqueue_waiter(
                            Event { time: m.time, process: pid, state: y },
                        ),
                    ),
                    ..m
                },
                Ok(()),
            )
        },
        Effect::Release(rid) => if rid >= m.resources.len() {
            (m, Err(SimError::UnknownResource))
        } else if m.resources[rid as int].waiters.len() > 0 {
            (
                SimModel {
                    queue: m.queue.push(
                        Event {
                            time: m.time,
                            process: m.resources[rid as int].waiters[0].process,
                            state: m.resources[rid as int].waiters[0].state,
                        },
                    ).push(Event { time: m.time, process: pid, state: y }),
                    resources: m.resources.update(rid as int, m.resources[rid as int].pass_on()),
                    ..m
                },
                Ok(()),
            )
        } else if m.resources[rid as int].available < m.resources[rid as int].allocated {
            (
                SimModel {
                    queue: m.queue.push(Event { time: m.time, process: pid, state: y }),
                    resources: m.resources.update(rid as int, m.resources[rid as int].free_one()),
                    ..m
                },
                Ok(()),
            )
        } else {
            (m, Err(SimError::OverRelease))
        },
        Effect::Wait => (m, Ok(())),
        Effect::Trace => (
            SimModel { queue: m.queue.push(Event { time: m.time, process: pid, state: y }), ..m },
            Ok(()),
        ),
    }
}

/// Interpreting a yielded effect preserves well-formedness of every
/// resource.
pub proof fn lemma_apply_effect_wf<T: SimState>(m: SimModel<T>, pid: ProcessId, y: T)
    requires
        m.wf(),
    ensures
        apply_effect(m, pid, y).0.wf(),
{
    let post = apply_effect(m, pid, y).0;
    match y.effect_of() {
        Effect::Request(rid) => {
            if rid < m.resources.len() {
                let res = m.resources[rid as int];
                if res.available > 0 {
                    crate::resource::lemma_grant_one_wf(res);
                } else {
                    crate::resource::lemma_enqueue_waiter_wf(
                        res,
                        Event { time: m.time, process: pid, state: y },
                    );
                }
                assert(forall|i: int|
                    0 <= i < post.resources.len() && i != rid ==> post.resources[i]
                        == m.resources[i]);
            }
        },
        Effect::Release(rid) => {
            if rid < m.resources.len() {
                let res = m.resources[rid as int];
                if res.waiters.len() > 0 {
                    crate::resource::lemma_pass_on_wf(res);
                } else if res.available < res.allocated {
                    crate::resource::lemma_free_one_wf(res);
                }
                assert(forall|i: int|
                    0 <= i < post.resources.len() && i != rid ==> post.resources[i]
                        == m.resources[i]);
            }
        },
        _ => {
        },
    }
}

/// How the state changes once the dispatched event `e` has been popped and
/// the time advanced (state `m`), given what the resumed process did. On a
/// yield the dispatch is logged first, then the effect is interpreted.
pub open spec fn dispatch_rel<T: SimState>(
    m: SimModel<T>,
    e: Event<T>,
    out: ResumeOutcome<T>,
    post: SimModel<T>,
    r: Result<(), SimError>,
) -> bool {
    match out {
        ResumeOutcome::Completed => post == SimModel {
            procs: m.procs.update(e.process as int, false),
            ..m
        } && r == Ok::<(), SimError>(()),
        ResumeOutcome::Yielded(y) => {
            let logged = if y.log_flag() {
                SimModel { trace: m.trace.push((e, y)), ..m }
            } else {
                m
            };
            apply_effect(logged, e.process, y) == (post, r)
        },
    }
}

/// The full transition of one `step` call: the step counter always advances;
/// with no pending event nothing else happens; otherwise the earliest event
/// is popped and either rejected with the exact error, or dispatched to its
/// process, whose outcome (some yield, or completion) decides the rest.
pub open spec fn step_rel<T: SimState>(
    pre: SimModel<T>,
    post: SimModel<T>,
    r: Result<(), SimError>,
) -> bool {
    let stepped = SimModel { steps: pre.steps.saturating_add(1), ..pre };
    if pre.queue.len() == 0 {
        post == stepped && r == Ok::<(), SimError>(())
    } else {
        let i = first_min_index(pre.queue);
        let e = pre.queue[i];
        let popped = SimModel { queue: pre.queue.remove(i), ..stepped };
        if e.time < pre.time {
            post == popped && r == Err::<(), SimError>(SimError::TimeRegression)
        } else if e.process >= pre.procs.len() {
            post == popped && r == Err::<(), SimError>(SimError::UnknownProcess)
        } else if !pre.procs[e.process as int] {
            post == popped && r == Err::<(), SimError>(SimError::ResumeCompleted)
        } else {
            exists|out: ResumeOutcome<T>|
                #[trigger] dispatch_rel(SimModel { time: e.time, ..popped }, e, out, post, r)
        }
    }
}

/// A single-threaded discrete-event simulation: resumable processes, finite
/// counted resources with FIFO waiting, a time-ordered pending-event queue
/// and an append-only trace of logged dispatches.
pub struct Simulation<T: SimState, P: SimProcess<T>> {
    time: u64,
    steps: usize,
    processes: Vec<Option<P>>,
    future_events: EventQueue<T>,
    processed_events: Vec<(Event<T>, T)>,
    resources: Vec<Resource<T>>,
}

impl<T: SimState, P: SimProcess<T>> View for Simulation<T, P> {
    type V = SimModel<T>;

    closed spec fn view(&self) -> SimModel<T> {
        SimModel {
            time: self.time,
            steps: self.steps,
            procs: self.processes@.map_values(|p: Option<P>| p is Some),
            queue: self.future_events@,
            trace: self.processed_events@,
            resources: self.resources@.map_values(|r: Resource<T>| r@),
        }
    }
}

impl<T: SimState, P: SimProcess<T>> Simulation<T, P> {
    /// Create an empty simulation: time zero, no process, no resource, no
    /// pending event, an empty trace.
    pub fn new() -> (s: Simulation<T, P>)
        ensures
            s@ == SimModel::<T>::init(),
            s@.wf(),
    {
        let s = Simulation {
            time: 0,
            steps: 0,
            processes: Vec::new(),
            future_events: EventQueue::new(),
            processed_events: Vec::new(),
            resources: Vec::new(),
        };
        proof {
            assert(s@ =~= SimModel::<T>::init());
        }
        s
    }

    /// The current simulation time.
    pub fn time(&self) -> (t: u64)
        ensures
            t == self@.time,
    {
        self.time
    }

    /// The trace of logged dispatches, in dispatch order.
    pub fn processed_events(&self) -> (log: &[(Event<T>, T)])
        ensures
            log@ == self@.trace,
    {
        self.processed_events.as_slice()
    }

    /// Register a process; its handle is the next dense index and stays
    /// valid for the whole simulation.
    pub fn create_process(&mut self, process: P) -> (id: ProcessId)
        ensures
            id == old(self)@.procs.len(),
            final(self)@ == (SimModel { procs: old(self)@.procs.push(true), ..old(self)@ }),
    {
        let id = self.processes.len();
        self.processes.push(Some(process));
        proof {
            assert(self@.procs =~= old(self)@.procs.push(true));
            assert(self@ =~= (SimModel { procs: old(self)@.procs.push(true), ..old(self)@ }));
        }
        id
    }

    /// Register a resource with `n` units; its handle is the next dense
    /// index. A capacity of zero is permitted: such a resource can never be
    /// acquired.
    pub fn create_resource(&mut self, n: usize) -> (id: ResourceId)
        ensures
            id == old(self)@.resources.len(),
            final(self)@ == (SimModel {
                resources: old(self)@.resources.push(ResourceModel::init(n)),
                ..old(self)@
            }),
            old(self)@.wf() ==> final(self)@.wf(),
    {
        let id = self.resources.len();
        self.resources.push(Resource::new(n));
        proof {
            assert(self@.resources =~= old(self)@.resources.push(ResourceModel::init(n)));
            assert(self@ =~= (SimModel {
                resources: old(self)@.resources.push(ResourceModel::init(n)),
                ..old(self)@
            }));
        }
        id
    }

    /// Enqueue an event resuming `process` with payload `state` at the
    /// absolute simulation time `time`.
    pub fn schedule_event(&mut self, time: u64, process: ProcessId, state: T)
        ensures
            final(self)@ == (SimModel {
                queue: old(self)@.queue.push(Event { time, process, state }),
                ..old(self)@
            }),
    {
        self.future_events.push(Event { time, process, state });
        proof {
            assert(self@ =~= (SimModel {
                queue: old(self)@.queue.push(Event { time, process, state }),
                ..old(self)@
            }));
        }
    }

    /// Whether the end condition is met in the current state.
    fn check_ending_condition(&self, until: &EndCondition) -> (b: bool)
        ensures
            b == end_met(self@, *until),
    {
        match until {
            EndCondition::Time(t) => self.time >= *t,
            EndCondition::NoEvents => self.future_events.is_empty(),
            EndCondition::NSteps(n) => self.steps == *n,
        }
    }

    /// Interpret the effect carried by the payload `y` just yielded by
    /// process `pid`, exactly as [`apply_effect`] describes.
    fn dispatch_effect(&mut self, pid: ProcessId, y: T) -> (r: Result<(), SimError>)
        ensures
            final(self)@ == apply_effect(old(self)@, pid, y).0,
            r == apply_effect(old(self)@, pid, y).1,
    {
        let effect = y.get_effect();
        match effect {
            Effect::TimeOut(d) => {
                let t = self.time.saturating_add(d);
                self.future_events.push(Event { time: t, process: pid, state: y });
                proof {
                    assert(self@ =~= apply_effect(old(self)@, pid, y).0);
                }
                Ok(())
            },
            Effect::Event { time: d, process: target } => {
                let t = self.time.saturating_add(d);
                self.future_events.push(Event { time: t, process: target, state: y });
                proof {
                    assert(self@ =~= apply_effect(old(self)@, pid, y).0);
                }
                Ok(())
            },
            Effect::Request(rid) => {
                if rid >= self.resources.len() {
                    return Err(SimError::UnknownResource);
                }
                let mut res = self.resources.remove(rid);
                let granted = res.acquire(Event { time: self.time, process: pid, state: y });
                self.resources.insert(rid, res);
                proof {
                    assert(self@.resources =~= old(self)@.resources.update(rid as int, res@));
                }
                match granted {
                    Some(e) => {
                        self.future_events.push(e);
                        proof {
                            assert(self@ =~= apply_effect(old(self)@, pid, y).0);
                        }
                        Ok(())
                    },
                    None => {
                        proof {
                            assert(self@ =~= apply_effect(old(self)@, pid, y).0);
                        }
                        Ok(())
                    },
                }
            },
            Effect::Release(rid) => {
                if rid >= self.resources.len() {
                    return Err(SimError::UnknownResource);
                }
                let mut res = self.resources.remove(rid);
                let outcome = res.release();
                self.resources.insert(rid, res);
                proof {
                    assert(self@.resources =~= old(self)@.resources.update(rid as int, res@));
                }
                match outcome {
                    ReleaseOutcome::Woken(w) => {
                        self.future_events.push(
                            Event { time: self.time, process: w.process, state: w.state },
                        );
                        self.future_events.push(Event { time: self.time, process: pid, state: y });
                        proof {
                            assert(self@ =~= apply_effect(old(self)@, pid, y).0);
                        }
                        Ok(())
                    },
                    ReleaseOutcome::Freed => {
                        self.future_events.push(Event { time: self.time, process: pid, state: y });
                        proof {
                            assert(self@ =~= apply_effect(old(self)@, pid, y).0);
                        }
                        Ok(())
                    },
                    ReleaseOutcome::OverRelease => {
                        proof {
                            assert(self@.resources =~= old(self)@.resources);
                            assert(self@ =~= apply_effect(old(self)@, pid, y).0);
                        }
                        Err(SimError::OverRelease)
                    },
                }
            },
            Effect::Wait => {
                Ok(())
            },
            Effect::Trace => {
                self.future_events.push(Event { time: self.time, process: pid, state: y });
                proof {
                    assert(self@ =~= apply_effect(old(self)@, pid, y).0);
                }
                Ok(())
            },
        }
    }

    /// Dispatch at most one event, as [`step_rel`] describes: pop the
    /// earliest pending event, advance the time to it, resume its process,
    /// log the yield if it opts in, then interpret its effect. With no
    /// pending event the call is a no-op that still counts a step. Times of
    /// dispatched events never decrease, the trace only grows, and a
    /// completed process slot stays empty forever.
    pub fn step(&mut self) -> (r: Result<(), SimError>)
        ensures
            step_rel(old(self)@, final(self)@, r),
            final(self)@.steps == old(self)@.steps.saturating_add(1),
            final(self)@.time >= old(self)@.time,
            old(self)@.trace.is_prefix_of(final(self)@.trace),
            final(self)@.trace.len() <= old(self)@.trace.len() + 1,
            final(self)@.procs.len() == old(self)@.procs.len(),
            forall|i: int|
                0 <= i < old(self)@.procs.len() && !old(self)@.procs[i] ==> !final(self)@.procs[i],
            old(self)@.wf() ==> final(self)@.wf(),
    {
        self.steps = self.steps.saturating_add(1);
        let ghost pre = old(self)@;
        let ghost stepped = SimModel { steps: pre.steps.saturating_add(1), ..pre };
        proof {
            if pre.queue.len() > 0 {
                lemma_first_min_index(pre.queue);
            }
        }
        let popped = self.future_events.pop_earliest();
        match popped {
            None => {
                proof {
                    assert(self@ =~= stepped);
                }
                Ok(())
            },
            Some(event) => {
                let ghost ge = event;
                let ghost mp = SimModel { queue: pre.queue.remove(first_min_index(pre.queue)), ..stepped };
                proof {
                    assert(self@ =~= mp);
                }
                if event.time < self.time {
                    return Err(SimError::TimeRegression);
                }
                if event.process >= self.processes.len() {
                    return Err(SimError::UnknownProcess);
                }
                if !self.processes[event.process].is_some() {
                    return Err(SimError::ResumeCompleted);
                }
                self.time = event.time;
                let ghost md = SimModel { time: ge.time, ..mp };
                proof {
                    assert(self@ =~= md);
                }
                let pid = event.process;
                let ctx_state = event.state.clone_state();
                let mut proc = self.processes.remove(pid).unwrap();
                let outcome = proc.resume(SimContext { time: event.time, state: ctx_state });
                match outcome {
                    ResumeOutcome::Completed => {
                        self.processes.insert(pid, None);
                        proof {
                            assert(self@.procs =~= md.procs.update(pid as int, false));
                            assert(self@ =~= (SimModel {
                                procs: md.procs.update(pid as int, false),
                                ..md
                            }));
                            assert(dispatch_rel(
                                md,
                                ge,
                                ResumeOutcome::<T>::Completed,
                                self@,
                                Ok(()),
                            ));
                        }
                        Ok(())
                    },
                    ResumeOutcome::Yielded(y) => {
                        self.processes.insert(pid, Some(proc));
                        proof {
                            assert(self@.procs =~= md.procs);
                            assert(self@ =~= md);
                        }
                        let ghost gy = y;
                        if y.should_log() {
                            let y2 = y.clone_state();
                            self.processed_events.push((event, y2));
                        }
                        let ghost logged = if gy.log_flag() {
                            SimModel { trace: md.trace.push((ge, gy)), ..md }
                        } else {
                            md
                        };
                        proof {
                            assert(self@ =~= logged);
                        }
                        let r = self.dispatch_effect(pid, y);
                        proof {
                            assert(dispatch_rel(md, ge, ResumeOutcome::Yielded(gy), self@, r));
                            if pre.wf() {
                                lemma_apply_effect_wf(logged, pid, gy);
                            }
                        }
                        r
                    },
                }
            },
        }
    }

    /// Step until the end condition is met, checking it before each step.
    /// The result is obtained from the starting state by `step` calls
    /// alone, each taken while the condition was still unmet: a successful
    /// run ends in a chain of [`run_steps`] transitions, and a failed one
    /// in such a chain whose one further step returned the error. Once the
    /// condition holds, running is a no-op: the simulation is returned
    /// unchanged. Under `NSteps(n)` the run is exact: it takes `step` calls
    /// until the counter is exactly `n`, and with nothing pending it owes
    /// that success outright. A run whose condition is still unmet after
    /// `u64::MAX` steps — a bound no real simulation reaches — is aborted
    /// as stalled, and stalling too owes a chain of that many steps.
    #[verifier::loop_isolation(false)]
    pub fn run(self, until: EndCondition) -> (r: Result<Simulation<T, P>, SimError>)
        ensures
            r matches Ok(s) ==> end_met(s@, until),
            end_met(self@, until) ==> r == Ok::<Simulation<T, P>, SimError>(self),
            r matches Ok(s) ==> s@.time >= self@.time,
            r matches Ok(s) ==> (self@.wf() ==> s@.wf()),
            r matches Ok(s) ==> s@.steps >= self@.steps,
            r matches Ok(s) ==> self@.trace.is_prefix_of(s@.trace),
            r matches Ok(s) ==> s@.procs.len() == self@.procs.len(),
            r matches Ok(s) ==> forall|i: int|
                0 <= i < self@.procs.len() && !self@.procs[i] ==> !s@.procs[i],
            r matches Ok(s) ==> exists|c: Seq<SimModel<T>>|
                c.len() >= 1 && c[0] == self@ && c.last() == s@ && #[trigger] run_steps(c, until),
            r matches Err(e) ==> e == SimError::Stalled || exists|
                c: Seq<SimModel<T>>,
                bad: SimModel<T>,
            |
                c.len() >= 1 && c[0] == self@ && run_steps(c, until) && !end_met(c.last(), until)
                    && #[trigger] step_rel(c.last(), bad, Err(e)),
            r == Err::<Simulation<T, P>, SimError>(SimError::Stalled) ==> exists|
                c: Seq<SimModel<T>>,
            |
                c.len() > u64::MAX && c[0] == self@ && #[trigger] run_steps(c, until),
            r is Err ==> !end_met(self@, until),
            until matches EndCondition::NSteps(n) ==> (self@.queue.len() == 0 && self@.steps <= n
                ==> (r matches Ok(s) && s@ == (SimModel { steps: n, ..self@ }))),
            until matches EndCondition::NSteps(n) ==> (r matches Ok(s) ==> self@.steps <= n
                && s@.steps == n && (exists|c: Seq<SimModel<T>>|
                c.len() == n - self@.steps + 1 && c[0] == self@ && c.last() == s@
                    && #[trigger] run_steps(c, until))),
    {
        let mut sim = self;
        let ghost init = sim;
        let ghost mut chain: Seq<SimModel<T>> = seq![init@];
        let mut fuel: u64 = u64::MAX;
        while !sim.check_ending_condition(&until)
            invariant
                sim@.time >= init@.time,
                init@.wf() ==> sim@.wf(),
                end_met(init@, until) ==> sim == init,
                sim@.steps >= init@.steps,
                init@.trace.is_prefix_of(sim@.trace),
                sim@.procs.len() == init@.procs.len(),
                forall|i: int|
                    0 <= i < init@.procs.len() && !init@.procs[i] ==> !sim@.procs[i],
                chain.len() >= 1,
                chain.len() == u64::MAX - fuel + 1,
                chain[0] == init@,
                chain.last() == sim@,
                run_steps(chain, until),
                until matches EndCondition::NSteps(n) ==> (init@.queue.len() == 0 && init@.steps
                    <= n ==> sim@ == (SimModel { steps: sim@.steps, ..init@ }) && sim@.steps <= n
                    && fuel >= n - sim@.steps),
                until matches EndCondition::NSteps(n) ==> (sim@.steps <= n ==> chain.len()
                    == sim@.steps - init@.steps + 1),
            decreases fuel,
        {
            if fuel == 0 {
                return Err(SimError::Stalled);
            }
            fuel = fuel - 1;
            let ghost before = sim@;
            match sim.step() {
                Ok(()) => {
                    proof {
                        let prev = chain;
                        chain = chain.push(sim@);
                        assert forall|k: int| 0 <= k < chain.len() - 1 implies !end_met(
                            #[trigger] chain[k],
                            until,
                        ) && step_rel(chain[k], chain[k + 1], Ok::<(), SimError>(())) by {
                            if k == prev.len() - 1 {
                                assert(chain[k] == before);
                                assert(chain[k + 1] == sim@);
                            } else {
                                assert(chain[k] == prev[k]);
                                assert(chain[k + 1] == prev[k + 1]);
                                assert(!end_met(prev[k], until) && step_rel(
                                    prev[k],
                                    prev[k + 1],
                                    Ok::<(), SimError>(()),
                                ));
                            }
                        }
                        assert(init@.trace =~= sim@.trace.subrange(
                            0,
                            init@.trace.len() as int,
                        ));
                        assert forall|i: int|
                            0 <= i < init@.procs.len() && !init@.procs[i]
                                implies !sim@.procs[i] by {
                            assert(!before.procs[i]);
                        }
                    }
                },
                Err(e) => {
                    proof {
                        assert(step_rel(chain.last(), sim@, Err(e)));
                        assert(!end_met(chain.last(), until));
                    }
                    return Err(e);
                },
            }
        }
        Ok(sim)
    }

    /// Resource safety and conservation: the free units of a resource never
    /// exceed its capacity, no waiter is pending while a unit is free, and
    /// the units granted so far exceed the units released by exactly the
    /// units currently held.
    pub proof fn lemma_resource_invariant(&self, rid: int)
        requires
            self@.wf(),
            0 <= rid < self@.resources.len(),
        ensures
            self@.resources[rid].available <= self@.resources[rid].allocated,
            self@.resources[rid].available > 0 ==> self@.resources[rid].waiters.len() == 0,
            self@.resources[rid].granted + self@.resources[rid].available == self@.resources[rid].released + self@.resources[rid].allocated,
    {
    }

    /// FIFO fairness of the wait queue: the pending waiters are exactly the
    /// arrivals not yet served, still in arrival order, so requests leave
    /// the wait queue in the order they entered it.
    pub proof fn lemma_fifo_order(&self, rid: int)
        requires
            self@.wf(),
            0 <= rid < self@.resources.len(),
        ensures
            self@.resources[rid].served + self@.resources[rid].waiters.len()
                == self@.resources[rid].arrivals.len(),
            forall|k: int|
                self@.resources[rid].served <= k < self@.resources[rid].arrivals.len()
                    ==> #[trigger] self@.resources[rid].arrivals[k]
                    == self@.resources[rid].waiters[k - self@.resources[rid].served],
    {
        assert(self@.resources[rid].waiters =~= self@.resources[rid].arrivals.skip(
            self@.resources[rid].served as int,
        ));
    }
}

/// A release that finds pending waiters grants the longest-waiting request:
/// the woken event is the oldest arrival not yet served, it is rescheduled
/// at the current time, and the count of served waiters advances by one.
pub proof fn lemma_release_grants_oldest<T: SimState>(m: SimModel<T>, pid: ProcessId, y: T, rid: ResourceId)
    requires
        m.wf(),
        y.effect_of() == Effect::Release(rid),
        rid < m.resources.len(),
        m.resources[rid as int].waiters.len() > 0,
    ensures
        apply_effect(m, pid, y).1 == Ok::<(), SimError>(()),
        apply_effect(m, pid, y).0.resources[rid as int].served
            == m.resources[rid as int].served + 1,
        m.resources[rid as int].waiters[0]
            == m.resources[rid as int].arrivals[m.resources[rid as int].served as int],
        apply_effect(m, pid, y).0.queue == m.queue.push(
            Event {
                time: m.time,
                process: m.resources[rid as int].waiters[0].process,
                state: m.resources[rid as int].waiters[0].state,
            },
        ).push(Event { time: m.time, process: pid, state: y }),
{
}

/// A zero timeout acts exactly like a trace yield: either way the yielding
/// process is rescheduled immediately, at the current time, and nothing
/// else changes.
pub proof fn lemma_timeout_zero_is_trace<T: SimState>(m: SimModel<T>, pid: ProcessId, y: T)
    requires
        y.effect_of() == Effect::TimeOut(0) || y.effect_of() == Effect::Trace,
    ensures
        apply_effect(m, pid, y) == (
            SimModel { queue: m.queue.push(Event { time: m.time, process: pid, state: y }), ..m },
            Ok::<(), SimError>(()),
        ),
{
    assert(m.time.saturating_add(0) == m.time);
}

impl<T: SimState, P: SimProcess<T>> Default for Simulation<T, P> {
    /// An empty simulation, as [`Simulation::new`] creates it.
    fn default() -> (s: Simulation<T, P>)
        ensures
            s@ == SimModel::<T>::init(),
            s@.wf(),
    {
        Simulation::new()
    }
}

} // verus!
