//! The kernel state of core 0: the system tick, the core-local event flag and the
//! alarm queue. The caller keeps it where interrupts cannot interleave with it and
//! carries out what the operations hand back.

use vstd::prelude::*;
use vstd::multiset::Multiset;
use crate::cpu::alarm::{AlarmHandle, AlarmQueue, ExpiredAlarm, alarm_pairs, N_ALARM_HANDLES, N_ALARM_ITEMS};
use crate::time::timer_queue::{expired_by, pending_at};
use crate::bounded::pair_le;

verus! {

broadcast use vstd::seq_lib::group_to_multiset_ensures;

/// The kernel state of core 0.
pub struct Kernel {
    ticks: u32,
    local_event: bool,
    alarm_queue: AlarmQueue,
}

/// The tick after `t`, wrapping around at `u32::MAX`.
pub open spec fn next_tick(t: u32) -> u32 {
    if t == u32::MAX {
        0
    } else {
        (t + 1) as u32
    }
}

impl Kernel {
    /// The system tick.
    pub closed spec fn ticks(&self) -> u32 {
        self.ticks
    }

    /// Whether an event is pending for the thread executor.
    pub closed spec fn event(&self) -> bool {
        self.local_event
    }

    /// The alarm queue.
    pub closed spec fn alarms(&self) -> AlarmQueue {
        self.alarm_queue
    }

    /// The state is consistent: the alarm queue is well formed.
    pub open spec fn wf(&self) -> bool {
        self.alarms().wf()
    }

    /// The state at boot: tick zero, an event pending, no alarms.
    pub fn init() -> (r: Self)
        ensures
            r.wf(),
            r.ticks() == 0,
            r.event(),
            r.alarms().slots() == Seq::<Option<u64>>::empty(),
            r.alarms().alarms() == Multiset::<(u64, u64)>::empty(),
    {
        Kernel { ticks: 0, local_event: true, alarm_queue: AlarmQueue::new() }
    }

    /// Signals an event to the thread executor.
    pub fn signal_event_local(&mut self)
        ensures
            final(self).event(),
            final(self).ticks() == old(self).ticks(),
            final(self).alarms() == old(self).alarms(),
    {
        self.local_event = true;
    }

    /// Whether an event was pending; clears it.
    pub fn event_fetch_and_clear_local(&mut self) -> (r: bool)
        ensures
            r == old(self).event(),
            !final(self).event(),
            final(self).ticks() == old(self).ticks(),
            final(self).alarms() == old(self).alarms(),
    {
        let old = self.local_event;
        self.local_event = false;
        old
    }

    /// The system tick, widened.
    pub fn now(&self) -> (r: u64)
        ensures
            r == self.ticks(),
    {
        self.ticks as u64
    }

    /// The system tick.
    pub fn current_tick(&self) -> (r: u32)
        ensures
            r == self.ticks(),
    {
        self.ticks
    }

    /// One tick of the system timer: advances the tick, then takes off the alarms due by
    /// the tick before it and returns them, earliest first, for their callbacks to be run.
    /// Returns `None` when one of those alarms belongs to a handle that was not handed
    /// out.
    pub fn on_timer_interrupt(&mut self) -> (r: Option<Vec<ExpiredAlarm>>)
        requires
            old(self).wf(),
        ensures
            final(self).wf(),
            final(self).ticks() == next_tick(old(self).ticks()),
            final(self).event() == old(self).event(),
            final(self).alarms().slots() == old(self).alarms().slots(),
            r is None <==> old(self).alarms().has_stray_due(old(self).ticks() as u64),
            r matches Some(v) ==> alarm_pairs(v@).to_multiset() == old(self).alarms().alarms().filter(
                expired_by(old(self).ticks() as u64),
            ),
            r is Some ==> final(self).alarms().alarms() == old(self).alarms().alarms().filter(
                pending_at(old(self).ticks() as u64),
            ),
            r matches Some(v) ==> forall|i: int, j: int|
                0 <= i < j < v@.len() ==> pair_le(
                    #[trigger] alarm_pairs(v@)[i],
                    #[trigger] alarm_pairs(v@)[j],
                ),
            r matches Some(v) ==> forall|i: int|
                0 <= i < v@.len() ==> (#[trigger] v@[i]).handle@ < old(self).alarms().slots().len()
                    && v@[i].callback == old(self).alarms().slots()[v@[i].handle@ as int],
    {
        let now = self.ticks as u64;
        self.ticks = if self.ticks == u32::MAX {
            0
        } else {
            self.ticks + 1
        };
        self.alarm_queue.call_all_expired(now)
    }

    /// Hands out an alarm handle; `None` once `N_ALARM_HANDLES` are handed out.
    pub fn allocate_alarm(&mut self) -> (r: Option<AlarmHandle>)
        requires
            old(self).wf(),
        ensures
            final(self).wf(),
            final(self).ticks() == old(self).ticks(),
            final(self).event() == old(self).event(),
            final(self).alarms().alarms() == old(self).alarms().alarms(),
            old(self).alarms().slots().len() < N_ALARM_HANDLES ==> (r matches Some(h) && h@
                == old(self).alarms().slots().len() && final(self).alarms().slots() == old(self).alarms().slots().push(None)),
            old(self).alarms().slots().len() >= N_ALARM_HANDLES ==> r is None && final(self).alarms().slots() == old(self).alarms().slots(),
    {
        self.alarm_queue.try_allocate_handle()
    }

    /// The number of alarm handles handed out so far; a handle is valid when its id is
    /// below it.
    pub fn alarm_handle_count(&self) -> (r: usize)
        ensures
            r == self.alarms().slots().len(),
    {
        self.alarm_queue.handle_count()
    }

    /// Registers `callback` under `handle`.
    pub fn set_alarm_callback(&mut self, handle: AlarmHandle, callback: u64)
        requires
            old(self).wf(),
            handle@ < old(self).alarms().slots().len(),
        ensures
            final(self).wf(),
            final(self).ticks() == old(self).ticks(),
            final(self).event() == old(self).event(),
            final(self).alarms().alarms() == old(self).alarms().alarms(),
            final(self).alarms().slots() == old(self).alarms().slots().update(
                handle@ as int,
                Some(callback),
            ),
    {
        self.alarm_queue.register_callback(handle, callback);
    }

    /// Sets an alarm for `handle` at tick `expires_at`; `None` when the queue is full. Any
    /// handle is taken; see `on_timer_interrupt` for one that was not handed out.
    pub fn set_alarm(&mut self, handle: AlarmHandle, expires_at: u64) -> (r: Option<()>)
        requires
            old(self).wf(),
        ensures
            final(self).wf(),
            final(self).ticks() == old(self).ticks(),
            final(self).event() == old(self).event(),
            final(self).alarms().slots() == old(self).alarms().slots(),
            old(self).alarms().alarms().len() < N_ALARM_ITEMS ==> r is Some && final(self).alarms().alarms() == old(self).alarms().alarms().insert((expires_at, handle@ as u64)),
            old(self).alarms().alarms().len() >= N_ALARM_ITEMS ==> r is None && final(self).alarms().alarms() == old(self).alarms().alarms(),
    {
        self.alarm_queue.set_alarm(handle, expires_at)
    }
}

} // verus!
