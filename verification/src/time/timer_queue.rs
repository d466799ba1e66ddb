//! The timers of one executor: which task is to be woken at which tick.

use vstd::prelude::*;
use vstd::multiset::Multiset;
use heapless::binary_heap::{BinaryHeap, Min};
use crate::bounded::{
    min_heap_items, min_heap_new, min_heap_peek, min_heap_pop, min_heap_push, pair_le,
};

verus! {

broadcast use {vstd::multiset::group_multiset_axioms, vstd::seq_lib::group_to_multiset_ensures};

/// A timer: the task to wake and the tick at which to wake it.
#[derive(Clone, Copy, PartialEq, Eq, Debug)]
pub struct TimerQueueItem {
    pub expires_at: u64,
    pub task: u64,
}

impl TimerQueueItem {
    /// The timer as a pair ordered by expiry first.
    pub open spec fn pair(self) -> (u64, u64) {
        (self.expires_at, self.task)
    }

    /// The task the timer wakes.
    pub fn get_task_ref(&self) -> (r: u64)
        ensures
            r == self.task,
    {
        self.task
    }
}

/// The number of timers a queue holds at most.
pub const N_TIMERS: usize = 64;

/// The pending timers of an executor, earliest expiry first.
pub struct TimerQueue {
    queue: BinaryHeap<(u64, u64), Min, 64>,
}

impl View for TimerQueue {
    type V = Multiset<(u64, u64)>;

    /// The pending timers as `(expires_at, task)` pairs.
    closed spec fn view(&self) -> Multiset<(u64, u64)> {
        min_heap_items(self.queue)
    }
}

/// The timers of `s`, as pairs.
pub open spec fn item_pairs(s: Seq<TimerQueueItem>) -> Seq<(u64, u64)> {
    s.map_values(|x: TimerQueueItem| x.pair())
}

/// `e` is the earliest expiry among the timers `m`.
pub open spec fn earliest_expiry(m: Multiset<(u64, u64)>, e: u64) -> bool {
    &&& exists|t: u64| #[trigger] m.contains((e, t))
    &&& forall|y: (u64, u64)| m.contains(y) ==> e <= y.0
}

/// The timers that have expired by `now`.
pub open spec fn expired_by(now: u64) -> spec_fn((u64, u64)) -> bool {
    |x: (u64, u64)| x.0 <= now
}

/// The timers still pending at `now`.
pub open spec fn pending_at(now: u64) -> spec_fn((u64, u64)) -> bool {
    |x: (u64, u64)| x.0 > now
}

impl TimerQueue {
    /// An empty queue.
    pub fn new() -> (r: Self)
        ensures
            r@ == Multiset::<(u64, u64)>::empty(),
    {
        TimerQueue { queue: min_heap_new() }
    }

    /// Adds a timer; returns `None` and leaves the queue unchanged when it already holds
    /// `N_TIMERS` timers.
    pub fn enqueue(&mut self, item: TimerQueueItem) -> (r: Option<()>)
        ensures
            old(self)@.len() < N_TIMERS ==> r is Some && final(self)@ == old(self)@.insert(item.pair()),
            old(self)@.len() >= N_TIMERS ==> r is None && final(self)@ == old(self)@,
    {
        match min_heap_push(&mut self.queue, (item.expires_at, item.task)) {
            Ok(()) => Some(()),
            Err(_) => None,
        }
    }

    /// Removes every timer that has expired by `now` and returns them, earliest first.
    pub fn dequeue_expired(&mut self, now: u64) -> (r: Vec<TimerQueueItem>)
        ensures
            item_pairs(r@).to_multiset() == old(self)@.filter(expired_by(now)),
            final(self)@ == old(self)@.filter(pending_at(now)),
            forall|i: int, j: int| 0 <= i < j < r@.len() ==> pair_le(#[trigger] r@[i].pair(), #[trigger] r@[j].pair()),
    {
        let ghost orig = self@;
        let mut out: Vec<TimerQueueItem> = Vec::new();
        assert(item_pairs(out@) =~= Seq::<(u64, u64)>::empty());
        loop
            invariant_except_break
                forall|x: (u64, u64)| #[trigger] self@.count(x) + item_pairs(out@).to_multiset().count(x) == orig.count(x),
                forall|x: (u64, u64)| item_pairs(out@).to_multiset().contains(x) ==> x.0 <= now,
                forall|i: int, j: int| 0 <= i < j < out@.len() ==> pair_le(#[trigger] out@[i].pair(), #[trigger] out@[j].pair()),
                out@.len() > 0 ==> forall|y: (u64, u64)| self@.contains(y) ==> pair_le(out@.last().pair(), y),
            ensures
                item_pairs(out@).to_multiset() == orig.filter(expired_by(now)),
                self@ == orig.filter(pending_at(now)),
                forall|i: int, j: int| 0 <= i < j < out@.len() ==> pair_le(#[trigger] out@[i].pair(), #[trigger] out@[j].pair()),
            decreases self@.len(),
        {
            match min_heap_peek(&self.queue) {
                Some(item) => {
                    if item.0 <= now {
                        let popped = min_heap_pop(&mut self.queue);
                        let p = popped.unwrap();
                        let ghost before = item_pairs(out@);
                        out.push(TimerQueueItem { expires_at: p.0, task: p.1 });
                        proof {
                            assert(item_pairs(out@) =~= before.push(p));
                            before.to_multiset_ensures();
                        }
                    } else {
                        proof {
                            assert forall|x: (u64, u64)| #[trigger] self@.count(x) == orig.filter(pending_at(now)).count(x) by {
                                if x.0 <= now && self@.contains(x) {
                                    assert(pair_le(item, x));
                                }
                                if x.0 > now {
                                    assert(!item_pairs(out@).to_multiset().contains(x));
                                }
                            }
                            assert(self@ =~= orig.filter(pending_at(now)));
                            assert forall|x: (u64, u64)| #[trigger] item_pairs(out@).to_multiset().count(x) == orig.filter(expired_by(now)).count(x) by {
                                if x.0 <= now && self@.contains(x) {
                                    assert(pair_le(item, x));
                                }
                            }
                            assert(item_pairs(out@).to_multiset() =~= orig.filter(expired_by(now)));
                        }
                        break;
                    }
                },
                None => {
                    proof {
                        assert forall|x: (u64, u64)| #[trigger] self@.count(x) == orig.filter(pending_at(now)).count(x) by {
                            assert(!self@.contains(x));
                            if x.0 > now {
                                assert(!item_pairs(out@).to_multiset().contains(x));
                            }
                        }
                        assert(self@ =~= orig.filter(pending_at(now)));
                        assert forall|x: (u64, u64)| #[trigger] item_pairs(out@).to_multiset().count(x) == orig.filter(expired_by(now)).count(x) by {
                            assert(!self@.contains(x));
                        }
                        assert(item_pairs(out@).to_multiset() =~= orig.filter(expired_by(now)));
                    }
                    break;
                },
            }
        }
        out
    }

    /// The earliest expiry of a pending timer, if there is one.
    pub fn next_expiration(&self) -> (r: Option<u64>)
        ensures
            r is None <==> self@.len() == 0,
            r matches Some(e) ==> earliest_expiry(self@, e),
    {
        match min_heap_peek(&self.queue) {
            Some(item) => {
                let e = item.0;
                assert(item == (item.0, item.1));
                assert(self@.contains((e, item.1)));
                assert(forall|y: (u64, u64)| self@.contains(y) ==> e <= y.0) by {
                    assert forall|y: (u64, u64)| self@.contains(y) implies e <= y.0 by {
                        assert(pair_le(item, y));
                    }
                }
                assert(earliest_expiry(self@, e));
                Some(e)
            },
            None => None,
        }
    }
}

} // verus!
