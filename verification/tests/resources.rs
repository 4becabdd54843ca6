use desim::{Effect, EndCondition, ResumeOutcome, SimContext, SimError, SimProcess, Simulation};

/// Requests a resource, holds it for `hold` time units, releases it, then
/// completes.
struct HoldRelease {
    r: usize,
    hold: u64,
    stage: u8,
}

impl SimProcess<Effect> for HoldRelease {
    fn resume(&mut self, _ctx: SimContext<Effect>) -> ResumeOutcome<Effect> {
        let out = match self.stage {
            0 => ResumeOutcome::Yielded(Effect::Request(self.r)),
            1 => ResumeOutcome::Yielded(Effect::TimeOut(self.hold)),
            2 => ResumeOutcome::Yielded(Effect::Release(self.r)),
            _ => ResumeOutcome::Completed,
        };
        self.stage += 1;
        out
    }
}

/// Requests a resource that was never created.
struct BadRequester {}

impl SimProcess<Effect> for BadRequester {
    fn resume(&mut self, _ctx: SimContext<Effect>) -> ResumeOutcome<Effect> {
        ResumeOutcome::Yielded(Effect::Request(3))
    }
}

/// Releases a resource it never acquired.
struct BadReleaser {
    r: usize,
}

impl SimProcess<Effect> for BadReleaser {
    fn resume(&mut self, _ctx: SimContext<Effect>) -> ResumeOutcome<Effect> {
        ResumeOutcome::Yielded(Effect::Release(self.r))
    }
}

#[test]
fn fifo_grants_in_request_order() {
    let mut s = Simulation::new();
    let r = s.create_resource(1);
    let mut pids = Vec::new();
    for at in 0..3u64 {
        let p = s.create_process(HoldRelease { r, hold: 5, stage: 0 });
        s.schedule_event(at, p, Effect::TimeOut(0));
        pids.push(p);
    }
    let s = s.run(EndCondition::NoEvents).unwrap();
    // grants at 0, 5 and 10; each holder keeps the unit 5 time units
    assert_eq!(s.time(), 15);
    // the trace shows each process's request in arrival order
    let requests: Vec<usize> = s
        .processed_events()
        .iter()
        .filter(|entry| matches!(entry.1, Effect::Request(_)))
        .map(|entry| entry.0.process())
        .collect();
    assert_eq!(requests, pids);
}

#[test]
fn zero_capacity_resource_never_grants() {
    let mut s = Simulation::new();
    let r = s.create_resource(0);
    let p = s.create_process(HoldRelease { r, hold: 1, stage: 0 });
    s.schedule_event(0, p, Effect::TimeOut(0));
    // the request is parked in the wait queue; no event remains
    let s = s.run(EndCondition::NoEvents).unwrap();
    assert_eq!(s.time(), 0);
    assert_eq!(s.processed_events().len(), 1);
    assert!(matches!(s.processed_events()[0].1, Effect::Request(_)));
}

#[test]
fn unknown_resource_is_an_error() {
    let mut s = Simulation::new();
    let p = s.create_process(BadRequester {});
    s.schedule_event(0, p, Effect::Wait);
    assert_eq!(s.step(), Err(SimError::UnknownResource));
}

#[test]
fn over_release_is_an_error() {
    let mut s = Simulation::new();
    let r = s.create_resource(1);
    let p = s.create_process(BadReleaser { r });
    s.schedule_event(0, p, Effect::Wait);
    assert_eq!(s.step(), Err(SimError::OverRelease));
}

#[test]
fn release_passes_the_unit_on_without_freeing_it() {
    // capacity 1, two contenders: while one waits, the release wakes it at
    // the release time and the unit never becomes free in between
    let mut s = Simulation::new();
    let r = s.create_resource(1);
    let p1 = s.create_process(HoldRelease { r, hold: 4, stage: 0 });
    let p2 = s.create_process(HoldRelease { r, hold: 2, stage: 0 });
    s.schedule_event(0, p1, Effect::TimeOut(0));
    s.schedule_event(1, p2, Effect::TimeOut(1));
    let s = s.run(EndCondition::NoEvents).unwrap();
    // p1 releases at 4, p2 then holds until 6
    assert_eq!(s.time(), 6);
    // p2's request was logged when it was made, at time 1, not when granted
    let p2_request_times: Vec<u64> = s
        .processed_events()
        .iter()
        .filter(|entry| entry.0.process() == p2 && matches!(entry.1, Effect::Request(_)))
        .map(|entry| entry.0.time())
        .collect();
    assert_eq!(p2_request_times, vec![1]);
}
