//! Alarms: handles that callbacks are registered under, and a queue of the ticks at
//! which the alarms go off.

use vstd::prelude::*;
use vstd::multiset::Multiset;
use heapless::binary_heap::{BinaryHeap, Min};
use heapless::Vec as HVec;
use crate::bounded::{
    is_least, min_heap_items, min_heap_new, min_heap_peek, min_heap_pop, min_heap_push, pair_le,
    slot_items, slots_get, slots_len, slots_new, slots_push, slots_set,
};
use crate::time::timer_queue::{expired_by, pending_at};

verus! {

broadcast use {
    vstd::multiset::group_multiset_axioms,
    vstd::multiset::group_multiset_properties,
    vstd::seq_lib::group_to_multiset_ensures,
};

/// Names an alarm: the index of its callback slot.
#[derive(Debug, PartialEq, Eq, Clone, Copy)]
pub struct AlarmHandle {
    id: u8,
}

impl View for AlarmHandle {
    type V = u8;

    /// The index of the callback slot.
    closed spec fn view(&self) -> u8 {
        self.id
    }
}

impl From<u8> for AlarmHandle {
    fn from(value: u8) -> (r: Self) {
        Self { id: value }
    }
}

impl vstd::std_specs::convert::FromSpecImpl<u8> for AlarmHandle {
    open spec fn obeys_from_spec() -> bool {
        true
    }

    closed spec fn from_spec(v: u8) -> Self {
        AlarmHandle { id: v }
    }
}

impl AlarmHandle {
    /// The handle made from `v` names slot `v`.
    pub proof fn lemma_from(v: u8)
        ensures
            <AlarmHandle as vstd::std_specs::convert::FromSpec<u8>>::from_spec(v)@ == v,
    {
    }

    /// The index of the callback slot.
    pub fn id(&self) -> (r: u8)
        ensures
            r == self@,
    {
        self.id
    }
}

/// The number of alarm handles a queue hands out at most.
pub const N_ALARM_HANDLES: usize = 8;

/// The number of alarms a queue holds at most.
pub const N_ALARM_ITEMS: usize = 64;

/// An alarm that went off: when it was due, its handle, and the callback registered
/// under the handle, if any.
#[derive(Debug, PartialEq, Eq, Clone, Copy)]
pub struct ExpiredAlarm {
    pub expires_at: u64,
    pub handle: AlarmHandle,
    pub callback: Option<u64>,
}

/// The callbacks of the alarm handles, and the pending alarms ordered by the tick they
/// go off at (and then by handle).
pub struct AlarmQueue {
    callbacks: HVec<Option<u64>, 8>,
    queue: BinaryHeap<(u64, u64), Min, 64>,
}

/// The alarms of `s` as `(expires_at, handle)` pairs.
pub open spec fn alarm_pairs(s: Seq<ExpiredAlarm>) -> Seq<(u64, u64)> {
    s.map_values(|x: ExpiredAlarm| (x.expires_at, x.handle@ as u64))
}

impl AlarmQueue {
    /// The callback registered under each handle handed out, by handle.
    pub closed spec fn slots(&self) -> Seq<Option<u64>> {
        slot_items(self.callbacks)
    }

    /// The pending alarms as `(expires_at, handle)` pairs.
    pub closed spec fn alarms(&self) -> Multiset<(u64, u64)> {
        min_heap_items(self.queue)
    }

    /// No more than `N_ALARM_HANDLES` handles are handed out.
    pub open spec fn wf(&self) -> bool {
        self.slots().len() <= N_ALARM_HANDLES
    }

    /// Some alarm due by `now` belongs to a handle that was not handed out.
    pub open spec fn has_stray_due(&self, now: u64) -> bool {
        exists|x: (u64, u64)| #[trigger] self.alarms().contains(x) && x.0 <= now && x.1 >= self.slots().len()
    }

    /// A queue with no handles and no alarms.
    pub fn new() -> (r: Self)
        ensures
            r.wf(),
            r.slots() == Seq::<Option<u64>>::empty(),
            r.alarms() == Multiset::<(u64, u64)>::empty(),
    {
        Self { callbacks: slots_new(), queue: min_heap_new() }
    }

    /// Hands out the next handle, with no callback registered under it; `None` once
    /// `N_ALARM_HANDLES` handles have been handed out.
    pub fn try_allocate_handle(&mut self) -> (r: Option<AlarmHandle>)
        requires
            old(self).wf(),
        ensures
            final(self).wf(),
            final(self).alarms() == old(self).alarms(),
            old(self).slots().len() < N_ALARM_HANDLES ==> (r matches Some(h) && h@
                == old(self).slots().len() && final(self).slots() == old(self).slots().push(None)),
            old(self).slots().len() >= N_ALARM_HANDLES ==> r is None && final(self).slots()
                == old(self).slots(),
    {
        match slots_push(&mut self.callbacks, None) {
            Ok(()) => {},
            Err(_) => {
                return None;
            },
        }
        let idx = slots_len(&self.callbacks) - 1;
        Some(AlarmHandle::from(idx as u8))
    }

    /// The number of handles handed out so far.
    pub fn handle_count(&self) -> (r: usize)
        ensures
            r == self.slots().len(),
    {
        slots_len(&self.callbacks)
    }

    /// Registers `callback` under `handle`, replacing what was registered before.
    pub fn register_callback(&mut self, handle: AlarmHandle, callback: u64)
        requires
            old(self).wf(),
            handle@ < old(self).slots().len(),
        ensures
            final(self).wf(),
            final(self).alarms() == old(self).alarms(),
            final(self).slots() == old(self).slots().update(handle@ as int, Some(callback)),
    {
        let idx = handle.id as usize;
        slots_set(&mut self.callbacks, idx, Some(callback));
    }

    /// The callback registered under `handle`, if any.
    fn call(&self, handle: AlarmHandle) -> (r: Option<u64>)
        requires
            handle@ < self.slots().len(),
        ensures
            r == self.slots()[handle@ as int],
    {
        let idx = handle.id;
        slots_get(&self.callbacks, idx as usize)
    }

    /// Sets an alarm for `handle` at tick `expires_at`; `None` when `N_ALARM_ITEMS` alarms
    /// are already pending. Any handle is taken; one that was not handed out makes the
    /// alarm stray, which `call_all_expired` refuses once it is due.
    pub fn set_alarm(&mut self, handle: AlarmHandle, expires_at: u64) -> (r: Option<()>)
        requires
            old(self).wf(),
        ensures
            final(self).wf(),
            final(self).slots() == old(self).slots(),
            old(self).alarms().len() < N_ALARM_ITEMS ==> r is Some && final(self).alarms()
                == old(self).alarms().insert((expires_at, handle@ as u64)),
            old(self).alarms().len() >= N_ALARM_ITEMS ==> r is None && final(self).alarms()
                == old(self).alarms(),
    {
        match min_heap_push(&mut self.queue, (expires_at, handle.id as u64)) {
            Ok(()) => Some(()),
            Err(_) => None,
        }
    }

    /// Removes and returns the earliest pending alarm if it is due by `now`.
    fn get_one_expired_item(&mut self, now: u64) -> (r: Option<(u64, u64)>)
        requires
            old(self).wf(),
        ensures
            final(self).wf(),
            final(self).slots() == old(self).slots(),
            r matches Some(x) ==> x.0 <= now && is_least(x, old(self).alarms())
                && final(self).alarms() == old(self).alarms().remove(x),
            r is None ==> final(self).alarms() == old(self).alarms() && forall|y: (u64, u64)|
                old(self).alarms().contains(y) ==> y.0 > now,
    {
        match min_heap_peek(&self.queue) {
            Some(item) => {
                if item.0 <= now {
                    return min_heap_pop(&mut self.queue);
                }
                assert forall|y: (u64, u64)| self.alarms().contains(y) implies y.0 > now by {
                    assert(pair_le(item, y));
                }
                None
            },
            None => None,
        }
    }

    /// Removes every alarm due by `now` and returns them, earliest first, each with the
    /// callback registered under its handle; the caller runs the callbacks in that order.
    /// Returns `None` when an alarm due by `now` belongs to a handle that was not handed
    /// out: there is no callback slot to run.
    pub fn call_all_expired(&mut self, now: u64) -> (r: Option<Vec<ExpiredAlarm>>)
        requires
            old(self).wf(),
        ensures
            final(self).wf(),
            final(self).slots() == old(self).slots(),
            r is None <==> old(self).has_stray_due(now),
            r matches Some(v) ==> alarm_pairs(v@).to_multiset() == old(self).alarms().filter(
                expired_by(now),
            ),
            r is Some ==> final(self).alarms() == old(self).alarms().filter(pending_at(now)),
            r matches Some(v) ==> forall|i: int, j: int|
                0 <= i < j < v@.len() ==> pair_le(
                    #[trigger] alarm_pairs(v@)[i],
                    #[trigger] alarm_pairs(v@)[j],
                ),
            r matches Some(v) ==> forall|i: int|
                0 <= i < v@.len() ==> (#[trigger] v@[i]).handle@ < old(self).slots().len()
                    && v@[i].callback == old(self).slots()[v@[i].handle@ as int],
    {
        let ghost orig = self.alarms();
        let ghost slots = self.slots();
        let n_slots = slots_len(&self.callbacks);
        let mut out: Vec<ExpiredAlarm> = Vec::new();
        let mut stray = false;
        assert(alarm_pairs(out@) =~= Seq::<(u64, u64)>::empty());
        loop
            invariant_except_break
                self.wf(),
                self.slots() == slots,
                n_slots == slots.len(),
                !stray,
                forall|x: (u64, u64)|
                    #[trigger] self.alarms().count(x) + alarm_pairs(out@).to_multiset().count(x)
                        == orig.count(x),
                forall|x: (u64, u64)| alarm_pairs(out@).to_multiset().contains(x) ==> x.0 <= now,
                forall|i: int, j: int|
                    0 <= i < j < out@.len() ==> pair_le(
                        #[trigger] alarm_pairs(out@)[i],
                        #[trigger] alarm_pairs(out@)[j],
                    ),
                out@.len() > 0 ==> forall|y: (u64, u64)|
                    self.alarms().contains(y) ==> pair_le(alarm_pairs(out@).last(), y),
                forall|i: int|
                    0 <= i < out@.len() ==> (#[trigger] out@[i]).handle@ < slots.len()
                        && out@[i].callback == slots[out@[i].handle@ as int],
            ensures
                self.wf(),
                self.slots() == slots,
                stray ==> exists|x: (u64, u64)| #[trigger] orig.contains(x) && x.0 <= now && x.1 >= slots.len(),
                !stray ==> alarm_pairs(out@).to_multiset() == orig.filter(expired_by(now)),
                !stray ==> self.alarms() == orig.filter(pending_at(now)),
                !stray ==> forall|i: int, j: int|
                    0 <= i < j < out@.len() ==> pair_le(
                        #[trigger] alarm_pairs(out@)[i],
                        #[trigger] alarm_pairs(out@)[j],
                    ),
                !stray ==> forall|i: int|
                    0 <= i < out@.len() ==> (#[trigger] out@[i]).handle@ < slots.len()
                        && out@[i].callback == slots[out@[i].handle@ as int],
            decreases self.alarms().len(),
        {
            let ghost before_alarms = self.alarms();
            match self.get_one_expired_item(now) {
                Some(item) => {
                    proof {
                        assert(before_alarms.contains(item));
                        assert(before_alarms.count(item) > 0);
                        assert(orig.count(item) > 0);
                        assert(orig.contains(item));
                    }
                    if item.1 >= n_slots as u64 {
                        stray = true;
                        break;
                    }
                    let handle = AlarmHandle::from(item.1 as u8);
                    let callback = self.call(handle);
                    let ghost before = alarm_pairs(out@);
                    out.push(ExpiredAlarm { expires_at: item.0, handle, callback });
                    proof {
                        assert(alarm_pairs(out@) =~= before.push(item));
                        before.to_multiset_ensures();
                    }
                },
                None => {
                    proof {
                        assert forall|x: (u64, u64)| #[trigger] self.alarms().count(x) == orig.filter(
                            pending_at(now),
                        ).count(x) by {
                            if x.0 <= now {
                                assert(!self.alarms().contains(x));
                            } else {
                                assert(!alarm_pairs(out@).to_multiset().contains(x));
                            }
                        }
                        assert(self.alarms() =~= orig.filter(pending_at(now)));
                        assert forall|x: (u64, u64)| #[trigger] alarm_pairs(
                            out@,
                        ).to_multiset().count(x) == orig.filter(expired_by(now)).count(x) by {
                            if x.0 <= now {
                                assert(!self.alarms().contains(x));
                            } else {
                                assert(!alarm_pairs(out@).to_multiset().contains(x));
                            }
                        }
                        assert(alarm_pairs(out@).to_multiset() =~= orig.filter(expired_by(now)));
                    }
                    break;
                },
            }
        }
        if stray {
            return None;
        }
        proof {
            assert forall|x: (u64, u64)| #[trigger] orig.contains(x) && x.0 <= now implies x.1 < slots.len() by {
                assert(orig.filter(expired_by(now)).contains(x));
                assert(alarm_pairs(out@).to_multiset().contains(x));
                alarm_pairs(out@).to_multiset_ensures();
                assert(alarm_pairs(out@).contains(x));
                let i = choose|i: int| 0 <= i < alarm_pairs(out@).len() && alarm_pairs(out@)[i] == x;
                assert(out@[i].handle@ < slots.len());
            }
        }
        Some(out)
    }
}

} // verus!
