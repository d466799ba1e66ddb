use tricore_kernel::srp_mutex::{SrpMutex, SrpPlan, State};
use tricore_kernel::sync::blocking_mutex::{CriticalSectionRawMutex, Mutex, RawMutex};

#[test]
fn critical_section_lock_returns_the_closure_value() {
    let m = CriticalSectionRawMutex::new();
    assert_eq!(m.lock(|| 41 + 1), 42);
}

#[test]
fn mutex_guards_its_data() {
    let mut m: Mutex<CriticalSectionRawMutex, u32> = Mutex::new(5);
    assert_eq!(m.lock(|x: &u32| *x * 2), 10);
    *m.get_mut() = 7;
    assert_eq!(m.dirty_read(|x: &u32| *x), 7);
    assert_eq!(m.into_inner(), 7);
    let c = Mutex::const_new(CriticalSectionRawMutex::new(), 3u8);
    assert_eq!(c.into_inner(), 3);
}

#[test]
fn mutex_data_can_be_borrowed_inside_a_critical_section() {
    let m: Mutex<CriticalSectionRawMutex, u32> = Mutex::new(9);
    let seen = critical_section::with(|cs| *m.borrow(cs));
    assert_eq!(seen, 9);
}

fn plan(m: &SrpMutex<CriticalSectionRawMutex, u32>, prev: u8) -> SrpPlan {
    m.srp_plan(prev)
}

#[test]
fn single_priority_needs_no_ceiling() {
    let mut m: SrpMutex<CriticalSectionRawMutex, u32> = SrpMutex::new(2, 0);
    assert_eq!(plan(&m, 0), SrpPlan { raise_to: None, restore: false });
    m.register_access(2);
    assert_eq!(plan(&m, 0), SrpPlan { raise_to: None, restore: false });
}

#[test]
fn different_priorities_raise_the_ceiling_to_the_highest() {
    let mut m: SrpMutex<CriticalSectionRawMutex, u32> = SrpMutex::new(2, 0);
    m.register_access(5);
    assert_eq!(plan(&m, 1), SrpPlan { raise_to: Some(5), restore: true });
    m.register_access(3);
    assert_eq!(plan(&m, 1), SrpPlan { raise_to: Some(5), restore: true });
    m.register_access(7);
    assert_eq!(plan(&m, 1), SrpPlan { raise_to: Some(7), restore: true });
    assert_eq!(plan(&m, 9), SrpPlan { raise_to: None, restore: true });
}

#[test]
fn co_owned_mutex_becomes_contended_on_another_priority() {
    let mut m: SrpMutex<CriticalSectionRawMutex, u32> = SrpMutex::new(4, 0);
    m.register_access(4);
    m.register_access(1);
    assert_eq!(plan(&m, 0), SrpPlan { raise_to: Some(4), restore: true });
    let _ = State::Owned(1);
}

#[test]
fn srp_mutex_hands_out_its_value() {
    let mut m: SrpMutex<CriticalSectionRawMutex, u32> = SrpMutex::new(1, 10);
    m.register_access(3);
    *m.get_mut() += 5;
    assert_eq!(*m.get(), 15);
    assert_eq!(m.srp_plan(0), SrpPlan { raise_to: Some(3), restore: true });
}
