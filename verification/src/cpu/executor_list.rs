use vstd::prelude::*;
use crate::cpu::alarm::AlarmHandle;

verus! {

/// Names an interrupt executor by the priority of its software interrupt.
#[derive(Clone, Copy, PartialEq, Eq, Structural, Debug)]
pub struct ExecutorHandle {
    prio: u8,
}

impl View for ExecutorHandle {
    type V = u8;

    /// The priority the handle names.
    closed spec fn view(&self) -> u8 {
        self.prio
    }
}

impl ExecutorHandle {
    /// The handle of the executor that runs at priority `prio`.
    pub fn from_prio(prio: u8) -> (h: Self)
        ensures
            h@ == prio,
    {
        Self { prio }
    }

    /// Two handles are the same handle exactly when they name the same priority; so
    /// the handles made from two priorities are equal exactly when the priorities are.
    pub proof fn lemma_same_prio(a: ExecutorHandle, b: ExecutorHandle)
        ensures
            a == b <==> a@ == b@,
    {
    }

    /// The priority this handle names.
    pub fn get_prio(&self) -> (p: u8)
        ensures
            p == self@,
    {
        self.prio
    }
}

/// Why an interrupt executor cannot be allocated: its software interrupt has priority
/// zero, or no alarm was left for it.
#[derive(Clone, Copy, PartialEq, Eq, Debug)]
pub enum AllocateError {
    ZeroPriority,
    NoAlarm,
}

/// Whether an interrupt executor can be allocated at priority `prio` with the alarm the
/// kernel handed out for it: refused for priority zero, then for want of an alarm;
/// otherwise the executor's handle and its alarm, to be entered in the executor list.
pub fn allocate_decision(prio: u8, alarm: Option<AlarmHandle>) -> (r: Result<
    (ExecutorHandle, AlarmHandle),
    AllocateError,
>)
    ensures
        prio == 0 ==> r == Err::<(ExecutorHandle, AlarmHandle), AllocateError>(
            AllocateError::ZeroPriority,
        ),
        prio != 0 && alarm is None ==> r == Err::<(ExecutorHandle, AlarmHandle), AllocateError>(
            AllocateError::NoAlarm,
        ),
        prio != 0 && alarm is Some ==> (r matches Ok((h, a)) && h@ == prio && a == alarm->0),
{
    if prio == 0 {
        return Err(AllocateError::ZeroPriority);
    }
    match alarm {
        Some(a) => Ok((ExecutorHandle::from_prio(prio), a)),
        None => Err(AllocateError::NoAlarm),
    }
}

} // verus!
