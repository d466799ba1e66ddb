//! The scheduling state an executor keeps: the tasks ready to run, in order, and the
//! timers of the tasks that wait for a tick.

use vstd::prelude::*;
use vstd::multiset::Multiset;
use heapless::Deque;
use crate::bounded::{
    deque_items, deque_len, deque_new, deque_pop_front, deque_push_back, deque_push_front,
    pair_le,
};
use crate::cpu::alarm::AlarmHandle;
use crate::executor::pender::Pender;
use crate::time::timer_queue::{
    expired_by, item_pairs, pending_at, TimerQueue, TimerQueueItem, N_TIMERS,
};

verus! {

broadcast use vstd::seq_lib::group_to_multiset_ensures;

/// The number of tasks the run queue holds at most.
pub const MAX_TASKS: usize = 32;

/// The tasks of `s`, in order.
pub open spec fn item_tasks(s: Seq<TimerQueueItem>) -> Seq<u64> {
    s.map_values(|x: TimerQueueItem| x.task)
}

/// The scheduling state of an executor: tasks are named by ids, and the caller polls
/// the tasks it is handed and reports the tick each one asked to be woken at.
pub struct BaseExecutor {
    run_queue: Deque<u64, 32>,
    timer_queue: TimerQueue,
    alarm_handle: Option<AlarmHandle>,
    pender: Pender,
}

impl BaseExecutor {
    /// The tasks ready to run, front first.
    pub closed spec fn runnable(&self) -> Seq<u64> {
        deque_items(self.run_queue)
    }

    /// The pending timers as `(expires_at, task)` pairs.
    pub closed spec fn timers(&self) -> Multiset<(u64, u64)> {
        self.timer_queue@
    }

    /// How the executor is woken.
    pub closed spec fn pend_by(&self) -> Pender {
        self.pender
    }

    /// The alarm the executor is woken by, if it has one.
    pub closed spec fn alarm(&self) -> Option<AlarmHandle> {
        self.alarm_handle
    }

    /// An executor with no tasks, woken through `pender`.
    pub fn new(pender: Pender, alarm_handle: Option<AlarmHandle>) -> (r: Self)
        ensures
            r.runnable() == Seq::<u64>::empty(),
            r.timers() == Multiset::<(u64, u64)>::empty(),
            r.alarm() == alarm_handle,
            r.pend_by() == pender,
    {
        Self { run_queue: deque_new(), timer_queue: TimerQueue::new(), alarm_handle, pender }
    }

    /// Sets the alarm the executor is woken by.
    pub fn register_alarm(&mut self, handle: AlarmHandle)
        ensures
            final(self).alarm() == Some(handle),
            final(self).runnable() == old(self).runnable(),
            final(self).timers() == old(self).timers(),
            final(self).pend_by() == old(self).pend_by(),
    {
        self.alarm_handle = Some(handle);
    }

    /// How the executor is woken.
    pub fn pender(&self) -> (r: Pender)
        ensures
            r == self.pend_by(),
    {
        self.pender
    }

    /// The alarm the executor is woken by, if it has one.
    pub fn alarm_handle(&self) -> (r: Option<AlarmHandle>)
        ensures
            r == self.alarm(),
    {
        self.alarm_handle
    }

    /// The number of tasks ready to run.
    pub fn run_queue_len(&self) -> (r: usize)
        ensures
            r == self.runnable().len(),
    {
        deque_len(&self.run_queue)
    }

    /// Adds a new task in front of the run queue, to be run first.
    pub fn spawn(&mut self, task: u64)
        requires
            old(self).runnable().len() < MAX_TASKS,
        ensures
            final(self).runnable() == seq![task] + old(self).runnable(),
            final(self).timers() == old(self).timers(),
            final(self).alarm() == old(self).alarm(),
            final(self).pend_by() == old(self).pend_by(),
    {
        let r = deque_push_front(&mut self.run_queue, task);
        assert(r is Ok);
    }

    /// Queues a woken task at the back of the run queue, and hands back how to wake the
    /// executor; `None` and the queue unchanged when it is full.
    pub fn enqueue_and_pend(&mut self, task: u64) -> (r: (Option<()>, Pender))
        ensures
            r.1 == old(self).pend_by(),
            old(self).runnable().len() < MAX_TASKS ==> r.0 is Some && final(self).runnable()
                == old(self).runnable().push(task),
            old(self).runnable().len() >= MAX_TASKS ==> r.0 is None && final(self).runnable()
                == old(self).runnable(),
            final(self).timers() == old(self).timers(),
            final(self).alarm() == old(self).alarm(),
            final(self).pend_by() == old(self).pend_by(),
    {
        let x = self.enqueue_no_pend(task);
        (x, self.pender)
    }

    /// Queues a woken task at the back of the run queue; `None` and the queue unchanged
    /// when it is full.
    pub fn enqueue_no_pend(&mut self, task: u64) -> (r: Option<()>)
        ensures
            old(self).runnable().len() < MAX_TASKS ==> r is Some && final(self).runnable()
                == old(self).runnable().push(task),
            old(self).runnable().len() >= MAX_TASKS ==> r is None && final(self).runnable()
                == old(self).runnable(),
            final(self).timers() == old(self).timers(),
            final(self).alarm() == old(self).alarm(),
            final(self).pend_by() == old(self).pend_by(),
    {
        match deque_push_back(&mut self.run_queue, task) {
            Ok(()) => Some(()),
            Err(_) => None,
        }
    }

    /// Moves the tasks whose timers expired by `now` to the front of the run queue, and
    /// returns the expired timers, earliest first; each expired task is pushed to the
    /// front in turn, so the last one to expire runs first. When the run queue has no
    /// room for all of them, returns `None`: the expired timers are dropped and the run
    /// queue is left as it was.
    pub fn check_timer_queue(&mut self, now: u64) -> (r: Option<Vec<TimerQueueItem>>)
        ensures
            r is Some <==> old(self).runnable().len() + old(self).timers().filter(expired_by(now)).len()
                <= MAX_TASKS,
            final(self).timers() == old(self).timers().filter(pending_at(now)),
            r matches Some(v) ==> item_pairs(v@).to_multiset() == old(self).timers().filter(expired_by(now)),
            r matches Some(v) ==> forall|i: int, j: int|
                0 <= i < j < v@.len() ==> pair_le(#[trigger] v@[i].pair(), #[trigger] v@[j].pair()),
            r matches Some(v) ==> final(self).runnable() == item_tasks(v@).reverse() + old(self).runnable(),
            r is None ==> final(self).runnable() == old(self).runnable(),
            final(self).alarm() == old(self).alarm(),
            final(self).pend_by() == old(self).pend_by(),
    {
        let ready = self.timer_queue.dequeue_expired(now);
        proof {
            item_pairs(ready@).to_multiset_ensures();
        }
        let n = ready.len();
        let queued = deque_len(&self.run_queue);
        if n > MAX_TASKS || queued > MAX_TASKS - n {
            return None;
        }
        let mut i: usize = 0;
        while i < n
            invariant
                0 <= i <= n,
                n == ready@.len(),
                self.runnable() == item_tasks(ready@.subrange(0, i as int)).reverse() + old(self).runnable(),
                old(self).runnable().len() + n <= MAX_TASKS,
                self.timers() == old(self).timers().filter(pending_at(now)),
                self.alarm() == old(self).alarm(),
                self.pender == old(self).pend_by(),
            decreases n - i,
        {
            let task = ready[i].task;
            let r = deque_push_front(&mut self.run_queue, task);
            assert(r is Ok);
            assert(item_tasks(ready@.subrange(0, i + 1)).reverse() =~= seq![task] + item_tasks(
                ready@.subrange(0, i as int),
            ).reverse());
            i = i + 1;
        }
        assert(ready@.subrange(0, n as int) =~= ready@);
        Some(ready)
    }

    /// Takes the task at the front of the run queue, to be polled next.
    pub fn next_runnable(&mut self) -> (r: Option<u64>)
        ensures
            old(self).runnable().len() == 0 ==> r is None && final(self).runnable() == old(self).runnable(),
            old(self).runnable().len() > 0 ==> (r matches Some(t) && t == old(self).runnable()[0]
                && final(self).runnable() == old(self).runnable().drop_first()),
            final(self).timers() == old(self).timers(),
            final(self).alarm() == old(self).alarm(),
            final(self).pend_by() == old(self).pend_by(),
    {
        deque_pop_front(&mut self.run_queue)
    }

    /// After a poll of `task`: when it asked to be woken at tick `expires_at`, adds its
    /// timer, unless `N_TIMERS` timers are already pending.
    pub fn update_timer_queue(&mut self, task: u64, expires_at: Option<u64>)
        ensures
            expires_at is None ==> final(self).timers() == old(self).timers(),
            expires_at is Some && old(self).timers().len() < N_TIMERS ==> final(self).timers()
                == old(self).timers().insert((expires_at->0, task)),
            (expires_at is Some && old(self).timers().len() >= N_TIMERS) ==> final(self).timers()
                == old(self).timers(),
            final(self).runnable() == old(self).runnable(),
            final(self).alarm() == old(self).alarm(),
            final(self).pend_by() == old(self).pend_by(),
    {
        if let Some(e) = expires_at {
            let _ = self.timer_queue.enqueue(TimerQueueItem { expires_at: e, task });
        }
    }

    /// The tick to set the executor's alarm to: the earliest pending timer, if any.
    pub fn renew_alarm(&self) -> (r: Option<u64>)
        ensures
            r is None <==> self.timers().len() == 0,
            r matches Some(e) ==> crate::time::timer_queue::earliest_expiry(self.timers(), e),
    {
        self.timer_queue.next_expiration()
    }
}

} // verus!
