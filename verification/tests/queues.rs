use tricore_kernel::cpu::alarm::{AlarmHandle, AlarmQueue};
use tricore_kernel::time::timer_queue::{TimerQueue, TimerQueueItem};

fn item(expires_at: u64, task: u64) -> TimerQueueItem {
    TimerQueueItem { expires_at, task }
}

#[test]
fn empty_timer_queue_has_no_expiration() {
    let mut q = TimerQueue::new();
    assert_eq!(q.next_expiration(), None);
    assert!(q.dequeue_expired(u64::MAX).is_empty());
}

#[test]
fn timers_expire_earliest_first() {
    let mut q = TimerQueue::new();
    q.enqueue(item(30, 1)).unwrap();
    q.enqueue(item(10, 2)).unwrap();
    q.enqueue(item(20, 3)).unwrap();
    q.enqueue(item(40, 4)).unwrap();
    assert_eq!(q.next_expiration(), Some(10));
    let out = q.dequeue_expired(30);
    assert_eq!(out, vec![item(10, 2), item(20, 3), item(30, 1)]);
    assert_eq!(q.next_expiration(), Some(40));
    assert!(q.dequeue_expired(39).is_empty());
    assert_eq!(q.dequeue_expired(40), vec![item(40, 4)]);
    assert_eq!(q.next_expiration(), None);
}

#[test]
fn equal_expiries_come_out_by_task() {
    let mut q = TimerQueue::new();
    q.enqueue(item(5, 9)).unwrap();
    q.enqueue(item(5, 3)).unwrap();
    assert_eq!(q.dequeue_expired(5), vec![item(5, 3), item(5, 9)]);
    assert_eq!(item(5, 3).get_task_ref(), 3);
}

#[test]
fn full_timer_queue_refuses_more() {
    let mut q = TimerQueue::new();
    for i in 0..64u64 {
        assert_eq!(q.enqueue(item(i, i)), Some(()));
    }
    assert_eq!(q.enqueue(item(100, 100)), None);
    assert_eq!(q.dequeue_expired(u64::MAX).len(), 64);
}

#[test]
fn handles_are_handed_out_in_order_up_to_eight() {
    let mut q = AlarmQueue::new();
    for i in 0..8u8 {
        assert_eq!(q.try_allocate_handle(), Some(AlarmHandle::from(i)));
    }
    assert_eq!(q.try_allocate_handle(), None);
}

#[test]
fn expired_alarms_come_with_their_callbacks() {
    let mut q = AlarmQueue::new();
    let a = q.try_allocate_handle().unwrap();
    let b = q.try_allocate_handle().unwrap();
    q.register_callback(a, 100);
    assert_eq!(q.set_alarm(b, 7), Some(()));
    assert_eq!(q.set_alarm(a, 5), Some(()));
    assert_eq!(q.set_alarm(a, 50), Some(()));
    let out = q.call_all_expired(10).unwrap();
    assert_eq!(out.len(), 2);
    assert_eq!((out[0].expires_at, out[0].handle, out[0].callback), (5, a, Some(100)));
    assert_eq!((out[1].expires_at, out[1].handle, out[1].callback), (7, b, None));
    assert!(q.call_all_expired(49).unwrap().is_empty());
    q.register_callback(a, 200);
    let later = q.call_all_expired(50).unwrap();
    assert_eq!(later.len(), 1);
    assert_eq!(later[0].callback, Some(200));
}

#[test]
fn full_alarm_queue_refuses_more() {
    let mut q = AlarmQueue::new();
    let a = q.try_allocate_handle().unwrap();
    for i in 0..64u64 {
        assert_eq!(q.set_alarm(a, i), Some(()));
    }
    assert_eq!(q.set_alarm(a, 1000), None);
}

#[test]
fn alarm_of_a_handle_not_handed_out_is_refused_when_due() {
    let mut q = AlarmQueue::new();
    let a = q.try_allocate_handle().unwrap();
    assert_eq!(q.set_alarm(AlarmHandle::from(5), 20), Some(()));
    assert_eq!(q.set_alarm(a, 10), Some(()));
    let early = q.call_all_expired(15).unwrap();
    assert_eq!(early.len(), 1);
    assert_eq!(early[0].handle, a);
    assert_eq!(q.call_all_expired(20), None);
}

#[test]
fn alarm_handle_names_its_slot() {
    assert_eq!(AlarmHandle::from(5).id(), 5);
}
