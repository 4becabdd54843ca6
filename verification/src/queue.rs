//! The pending-event queue: a min-queue over event times with a stable
//! tie-break, so that among equal-time events the earliest inserted one is
//! popped first.

use vstd::prelude::*;

use crate::event::Event;

verus! {

/// The index of the earliest event of `q`: the first index whose time is
/// minimal over the whole sequence.
pub open spec fn first_min_index<T>(q: Seq<Event<T>>) -> int
    decreases q.len(),
{
    if q.len() <= 1 {
        0
    } else {
        let j = first_min_index(q.drop_last());
        if q.last().time < q[j].time {
            q.len() - 1
        } else {
            j
        }
    }
}

/// `first_min_index` lies in range, attains the minimal time, and is the
/// first index to do so.
pub proof fn lemma_first_min_index<T>(q: Seq<Event<T>>)
    requires
        q.len() > 0,
    ensures
        0 <= first_min_index(q) < q.len(),
        forall|j: int| 0 <= j < q.len() ==> q[first_min_index(q)].time <= #[trigger] q[j].time,
        forall|j: int| 0 <= j < first_min_index(q) ==> #[trigger] q[j].time > q[first_min_index(q)].time,
    decreases q.len(),
{
    if q.len() > 1 {
        lemma_first_min_index(q.drop_last());
        assert(forall|j: int| 0 <= j < q.len() - 1 ==> q.drop_last()[j] == q[j]);
    }
}

/// A queue of pending events, popped in order of ascending time; equal times
/// are popped in insertion order.
pub struct EventQueue<T> {
    items: Vec<Event<T>>,
}

impl<T> View for EventQueue<T> {
    type V = Seq<Event<T>>;

    closed spec fn view(&self) -> Seq<Event<T>> {
        self.items@
    }
}

impl<T> EventQueue<T> {
    /// Create an empty queue.
    pub fn new() -> (q: Self)
        ensures
            q@ == Seq::<Event<T>>::empty(),
    {
        EventQueue { items: Vec::new() }
    }

    /// The number of pending events.
    pub fn len(&self) -> (n: usize)
        ensures
            n == self@.len(),
    {
        self.items.len()
    }

    /// Whether no event is pending.
    pub fn is_empty(&self) -> (b: bool)
        ensures
            b == (self@.len() == 0),
    {
        self.items.len() == 0
    }

    /// Insert an event.
    pub fn push(&mut self, e: Event<T>)
        ensures
            final(self)@ == old(self)@.push(e),
    {
        self.items.push(e);
    }

    /// Remove and return the earliest pending event: the one with the least
    /// time, and among equal times the one inserted first.
    pub fn pop_earliest(&mut self) -> (r: Option<Event<T>>)
        ensures
            old(self)@.len() == 0 ==> r is None && final(self)@ == old(self)@,
            old(self)@.len() > 0 ==> {
                let i = first_min_index(old(self)@);
                &&& r == Some(old(self)@[i])
                &&& final(self)@ == old(self)@.remove(i)
                &&& forall|j: int|
                    0 <= j < old(self)@.len() ==> old(self)@[i].time <= #[trigger] old(
                        self,
                    )@[j].time
            },
    {
        if self.items.len() == 0 {
            return None;
        }
        let ghost q0 = self.items@;
        let mut best: usize = 0;
        let mut k: usize = 1;
        while k < self.items.len()
            invariant
                self.items@ == q0,
                1 <= k <= q0.len(),
                best < k,
                best == first_min_index(q0.take(k as int)),
            decreases q0.len() - k,
        {
            proof {
                lemma_first_min_index(q0.take(k as int));
                assert(q0.take(k as int + 1).drop_last() =~= q0.take(k as int));
                assert(q0.take(k as int + 1).last() == q0[k as int]);
            }
            if self.items[k].time < self.items[best].time {
                best = k;
            }
            k = k + 1;
        }
        proof {
            assert(q0.take(q0.len() as int) =~= q0);
            lemma_first_min_index(q0);
        }
        let e = self.items.remove(best);
        Some(e)
    }
}

} // verus!
