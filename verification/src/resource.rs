//! Finite counted resources with strict FIFO waiting.

use std::collections::VecDeque;

use vstd::prelude::*;

use crate::event::Event;

verus! {

/// The mathematical model of a resource: a capacity, the units still free,
/// the FIFO wait queue, and the ghost history the fairness and conservation
/// laws are stated over.
pub struct ResourceModel<T> {
    /// Capacity fixed at creation.
    pub allocated: usize,
    /// Units currently free.
    pub available: usize,
    /// Pending requests, oldest first.
    pub waiters: Seq<Event<T>>,
    /// How many units were granted so far, immediately or from the wait queue.
    pub granted: nat,
    /// How many units were released so far.
    pub released: nat,
    /// Every request that ever entered the wait queue, in arrival order.
    pub arrivals: Seq<Event<T>>,
    /// How many waiters were granted (served) from the wait queue so far.
    pub served: nat,
}

impl<T> ResourceModel<T> {
    /// The resource invariant: the free units never exceed the capacity, no
    /// waiter is pending while a unit is free, grants and releases balance
    /// against the missing units, and the wait queue is exactly the not yet
    /// served tail of the arrival order.
    pub open spec fn wf(self) -> bool {
        &&& self.available <= self.allocated
        &&& self.available > 0 ==> self.waiters.len() == 0
        &&& self.granted + self.available == self.released + self.allocated
        &&& self.served <= self.arrivals.len()
        &&& self.waiters == self.arrivals.skip(self.served as int)
    }

    /// The model of a freshly created resource of capacity `n`.
    pub open spec fn init(n: usize) -> ResourceModel<T> {
        ResourceModel {
            allocated: n,
            available: n,
            waiters: Seq::empty(),
            granted: 0,
            released: 0,
            arrivals: Seq::empty(),
            served: 0,
        }
    }

    /// One unit is granted immediately.
    pub open spec fn grant_one(self) -> ResourceModel<T>
        recommends
            self.available > 0,
    {
        ResourceModel { available: (self.available - 1) as usize, granted: self.granted + 1, ..self }
    }

    /// A request joins the tail of the wait queue.
    pub open spec fn enqueue_waiter(self, e: Event<T>) -> ResourceModel<T> {
        ResourceModel { waiters: self.waiters.push(e), arrivals: self.arrivals.push(e), ..self }
    }

    /// A released unit passes straight to the head of the wait queue.
    pub open spec fn pass_on(self) -> ResourceModel<T>
        recommends
            self.waiters.len() > 0,
    {
        ResourceModel {
            waiters: self.waiters.drop_first(),
            granted: self.granted + 1,
            released: self.released + 1,
            served: self.served + 1,
            ..self
        }
    }

    /// A released unit becomes free again.
    pub open spec fn free_one(self) -> ResourceModel<T>
        recommends
            self.available < self.allocated,
    {
        ResourceModel { available: (self.available + 1) as usize, released: self.released + 1, ..self }
    }
}

/// An immediate grant preserves the resource invariant.
pub proof fn lemma_grant_one_wf<T>(r: ResourceModel<T>)
    requires
        r.wf(),
        r.available > 0,
    ensures
        r.grant_one().wf(),
{
}

/// Joining the wait queue preserves the resource invariant, provided no
/// unit is free — the only state the kernel enqueues a waiter in.
pub proof fn lemma_enqueue_waiter_wf<T>(r: ResourceModel<T>, e: Event<T>)
    requires
        r.wf(),
        r.available == 0,
    ensures
        r.enqueue_waiter(e).wf(),
{
    assert(r.enqueue_waiter(e).waiters =~= r.enqueue_waiter(e).arrivals.skip(r.served as int));
}

/// Passing a released unit to the head waiter preserves the resource
/// invariant.
pub proof fn lemma_pass_on_wf<T>(r: ResourceModel<T>)
    requires
        r.wf(),
        r.waiters.len() > 0,
    ensures
        r.pass_on().wf(),
{
    assert(r.pass_on().waiters =~= r.pass_on().arrivals.skip(r.pass_on().served as int));
}

/// Freeing a released unit preserves the resource invariant, provided the
/// wait queue is empty — the only state the kernel frees a unit in.
pub proof fn lemma_free_one_wf<T>(r: ResourceModel<T>)
    requires
        r.wf(),
        r.waiters.len() == 0,
        r.available < r.allocated,
    ensures
        r.free_one().wf(),
{
}

/// What a release did: woke the head waiter, freed a unit, or found the
/// resource already at capacity (an over-release, a fatal misuse).
pub enum ReleaseOutcome<T> {
    /// The head of the wait queue receives the released unit.
    Woken(Event<T>),
    /// No waiter was pending; the unit is free again.
    Freed,
    /// No waiter was pending and all units were already free.
    OverRelease,
}

/// A finite counted resource with a FIFO wait queue.
pub struct Resource<T> {
    allocated: usize,
    available: usize,
    waiters: VecDeque<Event<T>>,
    granted: Ghost<nat>,
    released: Ghost<nat>,
    arrivals: Ghost<Seq<Event<T>>>,
    served: Ghost<nat>,
}

impl<T> View for Resource<T> {
    type V = ResourceModel<T>;

    closed spec fn view(&self) -> ResourceModel<T> {
        ResourceModel {
            allocated: self.allocated,
            available: self.available,
            waiters: self.waiters@,
            granted: self.granted@,
            released: self.released@,
            arrivals: self.arrivals@,
            served: self.served@,
        }
    }
}

impl<T> Resource<T> {
    /// Create a resource with `n` units, all free. A capacity of zero is
    /// permitted; such a resource can never be acquired.
    pub fn new(n: usize) -> (r: Self)
        ensures
            r@ == ResourceModel::<T>::init(n),
            r@.wf(),
    {
        let r = Resource {
            allocated: n,
            available: n,
            waiters: VecDeque::new(),
            granted: Ghost(0),
            released: Ghost(0),
            arrivals: Ghost(Seq::empty()),
            served: Ghost(0),
        };
        proof {
            assert(r@ =~= ResourceModel::<T>::init(n));
            assert(r@.waiters =~= r@.arrivals.skip(r@.served as int));
        }
        r
    }

    /// Try to acquire one unit for the request `e`: either a unit is free
    /// and `e` is handed back to be scheduled at once, or `e` joins the tail
    /// of the wait queue.
    pub fn acquire(&mut self, e: Event<T>) -> (granted: Option<Event<T>>)
        ensures
            old(self)@.available > 0 ==> granted == Some(e) && final(self)@ == old(
                self,
            )@.grant_one(),
            old(self)@.available == 0 ==> granted is None && final(self)@ == old(
                self,
            )@.enqueue_waiter(e),
            old(self)@.wf() ==> final(self)@.wf(),
    {
        if self.available > 0 {
            self.available = self.available - 1;
            proof {
                self.granted@ = self.granted@ + 1;
                assert(self@ =~= old(self)@.grant_one());
            }
            Some(e)
        } else {
            self.waiters.push_back(e);
            proof {
                self.arrivals@ = self.arrivals@.push(e);
                assert(self@ =~= old(self)@.enqueue_waiter(e));
                if old(self)@.wf() {
                    assert(self@.waiters =~= self@.arrivals.skip(self@.served as int));
                }
            }
            None
        }
    }

    /// Release one unit: the head waiter is woken if one is pending, else
    /// the unit becomes free again, unless all units already were, which is
    /// an over-release.
    pub fn release(&mut self) -> (r: ReleaseOutcome<T>)
        ensures
            old(self)@.waiters.len() > 0 ==> r == ReleaseOutcome::Woken(old(self)@.waiters[0])
                && final(self)@ == old(self)@.pass_on(),
            old(self)@.waiters.len() == 0 && old(self)@.available < old(self)@.allocated ==> r
                is Freed && final(self)@ == old(self)@.free_one(),
            old(self)@.waiters.len() == 0 && old(self)@.available >= old(self)@.allocated ==> r
                is OverRelease && final(self)@ == old(self)@,
            old(self)@.wf() ==> final(self)@.wf(),
    {
        match self.waiters.pop_front() {
            Some(w) => {
                proof {
                    self.granted@ = self.granted@ + 1;
                    self.released@ = self.released@ + 1;
                    self.served@ = self.served@ + 1;
                    assert(self@.waiters =~= old(self)@.waiters.drop_first());
                    assert(self@ =~= old(self)@.pass_on());
                    if old(self)@.wf() {
                        assert(self@.waiters =~= self@.arrivals.skip(self@.served as int));
                    }
                }
                ReleaseOutcome::Woken(w)
            },
            None => {
                if self.available < self.allocated {
                    self.available = self.available + 1;
                    proof {
                        self.released@ = self.released@ + 1;
                        assert(self@ =~= old(self)@.free_one());
                    }
                    ReleaseOutcome::Freed
                } else {
                    ReleaseOutcome::OverRelease
                }
            },
        }
    }
}

} // verus!
