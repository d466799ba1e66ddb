//! The executor that runs in thread mode at the lowest priority.

use vstd::prelude::*;
use crate::cpu::alarm::AlarmHandle;
use crate::executor::base_executor::{BaseExecutor, MAX_TASKS};
use crate::executor::pender::Pender;

verus! {

/// The executor that runs in thread mode; it is woken through the core's event flag.
pub struct ThreadExecutor {
    inner: BaseExecutor,
}

impl ThreadExecutor {
    /// The scheduling state.
    pub closed spec fn base(&self) -> BaseExecutor {
        self.inner
    }

    /// A thread executor with no tasks.
    pub fn new(alarm_handle: Option<AlarmHandle>) -> (r: Self)
        ensures
            r.base().runnable() == Seq::<u64>::empty(),
            r.base().timers() == vstd::multiset::Multiset::<(u64, u64)>::empty(),
            r.base().alarm() == alarm_handle,
            r.base().pend_by() == Pender::ThreadExecutorPender,
    {
        Self { inner: BaseExecutor::new(Pender::ThreadExecutorPender, alarm_handle) }
    }

    /// Sets the alarm the executor is woken by.
    pub fn register_alarm(&mut self, handle: AlarmHandle)
        ensures
            final(self).base().alarm() == Some(handle),
            final(self).base().runnable() == old(self).base().runnable(),
            final(self).base().timers() == old(self).base().timers(),
            final(self).base().pend_by() == old(self).base().pend_by(),
    {
        self.inner.register_alarm(handle);
    }

    /// Adds a new task in front of the run queue.
    pub fn spawn(&mut self, task: u64)
        requires
            old(self).base().runnable().len() < MAX_TASKS,
        ensures
            final(self).base().runnable() == seq![task] + old(self).base().runnable(),
            final(self).base().timers() == old(self).base().timers(),
            final(self).base().alarm() == old(self).base().alarm(),
    {
        self.inner.spawn(task);
    }

    /// What starting the executor does before it runs its rounds: the alarm whose
    /// callback is to be registered, if it has one.
    pub fn start(&self) -> (r: Option<AlarmHandle>)
        ensures
            r == self.base().alarm(),
    {
        self.inner.alarm_handle()
    }

    /// Queues a woken task and hands back how to wake the executor.
    pub fn enqueue_and_pend(&mut self, task: u64) -> (r: (Option<()>, Pender))
        ensures
            r.1 == old(self).base().pend_by(),
            old(self).base().runnable().len() < MAX_TASKS ==> r.0 is Some && final(self).base().runnable() == old(self).base().runnable().push(task),
            old(self).base().runnable().len() >= MAX_TASKS ==> r.0 is None && final(self).base().runnable() == old(self).base().runnable(),
    {
        self.inner.enqueue_and_pend(task)
    }

    /// Queues a woken task.
    pub fn enqueue_no_pend(&mut self, task: u64) -> (r: Option<()>)
        ensures
            old(self).base().runnable().len() < MAX_TASKS ==> r is Some && final(self).base().runnable() == old(self).base().runnable().push(task),
            old(self).base().runnable().len() >= MAX_TASKS ==> r is None && final(self).base().runnable() == old(self).base().runnable(),
    {
        self.inner.enqueue_no_pend(task)
    }

    /// The scheduling state, to run a round of the executor on.
    pub fn base_mut(&mut self) -> (r: &mut BaseExecutor)
        ensures
            *r == old(self).base(),
            final(self).base() == *final(r),
    {
        &mut self.inner
    }
}

} // verus!
