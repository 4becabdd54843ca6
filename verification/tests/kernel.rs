use desim::{
    Effect, EndCondition, ResumeOutcome, SimContext, SimError, SimProcess, SimState, Simulation,
};

/// Yields `TimeOut(a)` with `a` counting 1, 2, 3, ... forever.
struct RampTimeout {
    a: u64,
}

impl SimProcess<Effect> for RampTimeout {
    fn resume(&mut self, _ctx: SimContext<Effect>) -> ResumeOutcome<Effect> {
        self.a += 1;
        ResumeOutcome::Yielded(Effect::TimeOut(self.a))
    }
}

/// Yields a fixed `TimeOut(tik)` forever.
struct FixedTimeout {
    tik: u64,
}

impl SimProcess<Effect> for FixedTimeout {
    fn resume(&mut self, _ctx: SimContext<Effect>) -> ResumeOutcome<Effect> {
        ResumeOutcome::Yielded(Effect::TimeOut(self.tik))
    }
}

/// Requests a resource, holds it for `hold` time units, releases it, then
/// completes.
struct HoldRelease {
    r: usize,
    hold: u64,
    stage: u8,
}

impl SimProcess<Effect> for HoldRelease {
    fn resume(&mut self, _ctx: SimContext<Effect>) -> ResumeOutcome<Effect> {
        let out = match self.stage {
            0 => ResumeOutcome::Yielded(Effect::Request(self.r)),
            1 => ResumeOutcome::Yielded(Effect::TimeOut(self.hold)),
            2 => ResumeOutcome::Yielded(Effect::Release(self.r)),
            _ => ResumeOutcome::Completed,
        };
        self.stage += 1;
        out
    }
}

/// Completes on its first resume.
struct Quitter {}

impl SimProcess<Effect> for Quitter {
    fn resume(&mut self, _ctx: SimContext<Effect>) -> ResumeOutcome<Effect> {
        ResumeOutcome::Completed
    }
}

/// Reads the resume context: yields a timeout of the context time plus two,
/// taking the state along via the context accessors.
struct ContextReader {}

impl SimProcess<Effect> for ContextReader {
    fn resume(&mut self, ctx: SimContext<Effect>) -> ResumeOutcome<Effect> {
        let now = ctx.time();
        let _carried: &Effect = ctx.state();
        let _owned: Effect = ctx.into_state();
        ResumeOutcome::Yielded(Effect::TimeOut(now + 2))
    }
}

#[test]
fn it_works() {
    let mut s = Simulation::new();
    let p = s.create_process(RampTimeout { a: 0 });
    s.schedule_event(0, p, Effect::TimeOut(0));
    s.step().unwrap();
    s.step().unwrap();
    assert_eq!(s.time(), 1);
    s.step().unwrap();
    assert_eq!(s.time(), 3);
    s.step().unwrap();
    assert_eq!(s.time(), 6);
}

#[test]
fn run() {
    let mut s = Simulation::new();
    let p = s.create_process(FixedTimeout { tik: 3 });
    s.schedule_event(0, p, Effect::TimeOut(0));
    let s = s.run(EndCondition::Time(10)).unwrap();
    println!("{}", s.time());
    assert!(s.time() >= 10);
}

#[test]
fn resource() {
    let mut s = Simulation::new();
    let r = s.create_resource(1);

    // simple process that locks the resource for 7 time units
    let p1 = s.create_process(HoldRelease { r, hold: 7, stage: 0 });
    // simple process that holds the resource for 3 time units
    let p2 = s.create_process(HoldRelease { r, hold: 3, stage: 0 });

    // let p1 start immediately...
    s.schedule_event(0, p1, Effect::TimeOut(0));
    // let p2 start after 2 t.u., when r is not available
    s.schedule_event(2, p2, Effect::TimeOut(2));
    // p2 will wait r to be free (time 7) and its timeout
    // of 3 t.u. The simulation will end at time 10.

    let s = s.run(EndCondition::NoEvents).unwrap();
    println!("{:?}", s.processed_events());
    assert_eq!(s.time(), 10);
}

#[test]
fn step_on_empty_queue_is_a_no_op() {
    let mut s = Simulation::<Effect, Quitter>::new();
    assert_eq!(s.step(), Ok(()));
    assert_eq!(s.time(), 0);
    assert_eq!(s.processed_events().len(), 0);
}

#[test]
fn nsteps_is_exact() {
    let mut s = Simulation::new();
    let p = s.create_process(FixedTimeout { tik: 1 });
    s.schedule_event(0, p, Effect::TimeOut(0));
    // dispatches happen at times 0, 1, 2, 3: exactly four steps
    let s = s.run(EndCondition::NSteps(4)).unwrap();
    assert_eq!(s.time(), 3);
    assert_eq!(s.processed_events().len(), 4);
}

#[test]
fn run_after_no_events_is_a_no_op() {
    let mut s = Simulation::new();
    let p = s.create_process(Quitter {});
    s.schedule_event(0, p, Effect::Wait);
    let s = s.run(EndCondition::NoEvents).unwrap();
    let time_before = s.time();
    let trace_before = s.processed_events().len();
    let s = s.run(EndCondition::NoEvents).unwrap();
    assert_eq!(s.time(), time_before);
    assert_eq!(s.processed_events().len(), trace_before);
}

#[test]
fn first_context_time_is_zero() {
    let mut s = Simulation::new();
    let p = s.create_process(ContextReader {});
    s.schedule_event(0, p, Effect::TimeOut(0));
    s.step().unwrap();
    assert_eq!(s.time(), 0);
    // the first resume saw time 0, so it rescheduled itself at 2
    s.step().unwrap();
    assert_eq!(s.time(), 2);
}

#[test]
fn fixed_step_run_over_advances_once() {
    let mut s = Simulation::new();
    let p = s.create_process(FixedTimeout { tik: 3 });
    s.schedule_event(0, p, Effect::TimeOut(0));
    let s = s.run(EndCondition::Time(10)).unwrap();
    // dispatches at 0, 3, 6, 9 leave the time short of 10, so one more
    // step runs: the initial seed plus ceil(10 / 3) ticks
    assert_eq!(s.time(), 12);
    assert_eq!(s.processed_events().len(), 5);
    // the first logged event is the seed, with its payload intact
    assert_eq!(*s.processed_events()[0].0.state(), Effect::TimeOut(0));
}

#[test]
fn effect_is_its_own_sim_state() {
    let mut e = Effect::Wait;
    assert_eq!(e.get_effect(), Effect::Wait);
    assert!(e.should_log());
    e.set_effect(Effect::Trace);
    assert_eq!(e.get_effect(), Effect::Trace);
    assert_eq!(e.clone_state(), Effect::Trace);
}

#[test]
fn unknown_process_is_an_error() {
    let mut s = Simulation::<Effect, Quitter>::new();
    s.schedule_event(0, 7, Effect::Wait);
    assert_eq!(s.step(), Err(SimError::UnknownProcess));
}

#[test]
fn resume_after_complete_is_an_error() {
    let mut s = Simulation::new();
    let p = s.create_process(Quitter {});
    s.schedule_event(0, p, Effect::Wait);
    s.schedule_event(1, p, Effect::Wait);
    assert_eq!(s.step(), Ok(()));
    assert_eq!(s.step(), Err(SimError::ResumeCompleted));
}

#[test]
fn event_scheduled_into_the_past_is_an_error() {
    let mut s = Simulation::new();
    let p = s.create_process(FixedTimeout { tik: 1 });
    s.schedule_event(5, p, Effect::Wait);
    s.step().unwrap();
    assert_eq!(s.time(), 5);
    s.schedule_event(3, p, Effect::Wait);
    assert_eq!(s.step(), Err(SimError::TimeRegression));
}
