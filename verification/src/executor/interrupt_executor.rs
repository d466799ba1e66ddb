//! An executor that runs in the handler of a software interrupt, at its priority.

use vstd::prelude::*;
use crate::cpu::alarm::AlarmHandle;
use crate::executor::base_executor::{BaseExecutor, MAX_TASKS};
use crate::executor::pender::Pender;

verus! {

/// An executor that runs in a software interrupt handler; it is woken by requesting
/// that interrupt.
pub struct InterruptExecutor {
    inner: BaseExecutor,
}

impl InterruptExecutor {
    /// The scheduling state.
    pub closed spec fn base(&self) -> BaseExecutor {
        self.inner
    }

    /// An interrupt executor with no tasks, woken by the software interrupt of priority
    /// `sw_interrupt`.
    pub fn new(sw_interrupt: u8, alarm_handle: Option<AlarmHandle>) -> (r: Self)
        ensures
            r.base().runnable() == Seq::<u64>::empty(),
            r.base().timers() == vstd::multiset::Multiset::<(u64, u64)>::empty(),
            r.base().alarm() == alarm_handle,
            r.base().pend_by() == (Pender::InterruptExecutorPender { sw_interrupt }),
    {
        Self {
            inner: BaseExecutor::new(Pender::InterruptExecutorPender { sw_interrupt }, alarm_handle),
        }
    }

    /// Adds a new task in front of the run queue.
    pub fn spawn(&mut self, task: u64)
        requires
            old(self).base().runnable().len() < MAX_TASKS,
        ensures
            final(self).base().runnable() == seq![task] + old(self).base().runnable(),
            final(self).base().timers() == old(self).base().timers(),
            final(self).base().alarm() == old(self).base().alarm(),
    {
        self.inner.spawn(task);
    }

    /// What starting the executor does: the alarm whose callback is to be registered, and
    /// how to wake the executor for its first round.
    pub fn start(&self) -> (r: (Option<AlarmHandle>, Pender))
        ensures
            r.0 == self.base().alarm(),
            r.1 == self.base().pend_by(),
    {
        (self.inner.alarm_handle(), self.inner.pender())
    }

    /// Queues a woken task and hands back how to wake the executor.
    pub fn enqueue_and_pend(&mut self, task: u64) -> (r: (Option<()>, Pender))
        ensures
            r.1 == old(self).base().pend_by(),
            old(self).base().runnable().len() < MAX_TASKS ==> r.0 is Some && final(self).base().runnable() == old(self).base().runnable().push(task),
            old(self).base().runnable().len() >= MAX_TASKS ==> r.0 is None && final(self).base().runnable() == old(self).base().runnable(),
    {
        self.inner.enqueue_and_pend(task)
    }

    /// Queues a woken task.
    pub fn enqueue_no_pend(&mut self, task: u64) -> (r: Option<()>)
        ensures
            old(self).base().runnable().len() < MAX_TASKS ==> r is Some && final(self).base().runnable() == old(self).base().runnable().push(task),
            old(self).base().runnable().len() >= MAX_TASKS ==> r is None && final(self).base().runnable() == old(self).base().runnable(),
    {
        self.inner.enqueue_no_pend(task)
    }

    /// The scheduling state, to run a round of the executor on when its interrupt fires.
    pub fn base_mut(&mut self) -> (r: &mut BaseExecutor)
        ensures
            *r == old(self).base(),
            final(self).base() == *final(r),
    {
        &mut self.inner
    }
}

} // verus!
