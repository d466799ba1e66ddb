use tricore_kernel::cpu::cpu0::Kernel;
use tricore_kernel::cpu::alarm::AlarmHandle;
use tricore_kernel::cpu::executor_list::{allocate_decision, AllocateError, ExecutorHandle};
use tricore_kernel::executor::base_executor::BaseExecutor;
use tricore_kernel::executor::interrupt_executor::InterruptExecutor;
use tricore_kernel::executor::pender::Pender;
use tricore_kernel::executor::thread_executor::ThreadExecutor;
use tricore_kernel::executor::yields::Yielder;
use tricore_kernel::executor::Poll;
use tricore_kernel::time::timer::{gcd, GCD_1G, GCD_1K, GCD_1M, TICK_HZ};
use tricore_kernel::time::timer_fut::Timer;
use tricore_kernel::time::timer_queue::TimerQueueItem;

#[test]
fn kernel_starts_at_tick_zero_with_an_event() {
    let mut k = Kernel::init();
    assert_eq!(k.current_tick(), 0);
    assert_eq!(k.now(), 0);
    assert!(k.event_fetch_and_clear_local());
    assert!(!k.event_fetch_and_clear_local());
    k.signal_event_local();
    assert!(k.event_fetch_and_clear_local());
}

#[test]
fn timer_interrupt_advances_the_tick_and_fires_due_alarms() {
    let mut k = Kernel::init();
    let h = k.allocate_alarm().unwrap();
    k.set_alarm_callback(h, 42);
    k.set_alarm(h, 2).unwrap();
    assert!(k.on_timer_interrupt().unwrap().is_empty());
    assert!(k.on_timer_interrupt().unwrap().is_empty());
    assert_eq!(k.current_tick(), 2);
    let fired = k.on_timer_interrupt().unwrap();
    assert_eq!(fired.len(), 1);
    assert_eq!(fired[0].callback, Some(42));
    assert_eq!(k.current_tick(), 3);
}

#[test]
fn executor_handle_keeps_its_priority() {
    assert_eq!(ExecutorHandle::from_prio(3).get_prio(), 3);
}

#[test]
fn spawned_tasks_run_newest_first_and_woken_tasks_in_order() {
    let mut e = BaseExecutor::new(Pender::ThreadExecutorPender, None);
    e.spawn(1);
    e.spawn(2);
    assert_eq!(e.enqueue_and_pend(3), (Some(()), Pender::ThreadExecutorPender));
    assert_eq!(e.enqueue_no_pend(4), Some(()));
    assert_eq!(e.run_queue_len(), 4);
    let order: Vec<u64> = std::iter::from_fn(|| e.next_runnable()).collect();
    assert_eq!(order, vec![2, 1, 3, 4]);
    assert_eq!(e.next_runnable(), None);
}

#[test]
fn run_queue_is_bounded() {
    let mut e = BaseExecutor::new(Pender::ThreadExecutorPender, None);
    for t in 0..32u64 {
        assert_eq!(e.enqueue_no_pend(t), Some(()));
    }
    assert_eq!(e.enqueue_no_pend(99), None);
    assert_eq!(e.run_queue_len(), 32);
}

#[test]
fn expired_timers_make_their_tasks_runnable() {
    let mut e = BaseExecutor::new(Pender::ThreadExecutorPender, None);
    e.enqueue_no_pend(7);
    e.update_timer_queue(1, Some(10));
    e.update_timer_queue(2, Some(20));
    e.update_timer_queue(3, None);
    e.update_timer_queue(4, Some(15));
    assert_eq!(e.renew_alarm(), Some(10));
    let expired = e.check_timer_queue(15);
    assert_eq!(
        expired,
        Some(vec![TimerQueueItem { expires_at: 10, task: 1 }, TimerQueueItem { expires_at: 15, task: 4 }])
    );
    let order: Vec<u64> = std::iter::from_fn(|| e.next_runnable()).collect();
    assert_eq!(order, vec![4, 1, 7]);
    assert_eq!(e.renew_alarm(), Some(20));
}

#[test]
fn expired_timers_that_overflow_the_run_queue_are_refused() {
    let mut e = BaseExecutor::new(Pender::ThreadExecutorPender, None);
    for t in 0..31u64 {
        e.enqueue_no_pend(t);
    }
    e.update_timer_queue(100, Some(5));
    e.update_timer_queue(101, Some(6));
    e.update_timer_queue(102, Some(50));
    assert_eq!(e.check_timer_queue(10), None);
    assert_eq!(e.run_queue_len(), 31);
    assert_eq!(e.renew_alarm(), Some(50));
}

#[test]
fn thread_and_interrupt_executors_pend_their_way() {
    let mut t = ThreadExecutor::new(None);
    assert_eq!(t.enqueue_and_pend(1).1, Pender::ThreadExecutorPender);
    let mut i = InterruptExecutor::new(3, None);
    i.spawn(5);
    assert_eq!(i.enqueue_and_pend(6), (Some(()), Pender::InterruptExecutorPender { sw_interrupt: 3 }));
    assert_eq!(i.start(), (None, Pender::InterruptExecutorPender { sw_interrupt: 3 }));
    assert_eq!(i.base_mut().next_runnable(), Some(5));
}

#[test]
fn thread_executor_registers_its_alarm() {
    let mut k = Kernel::init();
    let h = k.allocate_alarm().unwrap();
    let mut t = ThreadExecutor::new(None);
    assert_eq!(t.base_mut().alarm_handle(), None);
    assert_eq!(t.start(), None);
    t.register_alarm(h);
    assert_eq!(t.base_mut().alarm_handle(), Some(h));
    assert_eq!(t.start(), Some(h));
    t.spawn(9);
    assert_eq!(t.enqueue_no_pend(10), Some(()));
    assert_eq!(t.base_mut().next_runnable(), Some(9));
}

#[test]
fn yielder_is_pending_once_then_ready() {
    let mut y = Yielder::new();
    assert_eq!(y.poll(), Poll::Pending);
    assert_eq!(y.poll(), Poll::Ready(()));
    assert_eq!(y.poll(), Poll::Ready(()));
}

#[test]
fn timer_completes_at_its_deadline() {
    let t = Timer::after_ticks(100, 50);
    assert_eq!(t.expires_at(), 150);
    assert_eq!(t.poll(149), Poll::Pending);
    assert_eq!(t.poll(150), Poll::Ready(()));
    assert_eq!(t.poll(151), Poll::Ready(()));
}

#[test]
fn gcd_values() {
    assert_eq!(gcd(12, 18), 6);
    assert_eq!(gcd(7, 0), 7);
    assert_eq!(gcd(0, 7), 7);
    assert_eq!(gcd(TICK_HZ, 1_000), GCD_1K);
    assert_eq!(gcd(TICK_HZ, 1_000_000), GCD_1M);
    assert_eq!(gcd(TICK_HZ, 1_000_000_000), GCD_1G);
}

#[test]
fn yielding_tasks_take_turns() {
    let mut e = BaseExecutor::new(Pender::ThreadExecutorPender, None);
    let mut yielders = [Yielder::new(), Yielder::new()];
    e.spawn(0);
    e.spawn(1);
    let mut order = Vec::new();
    for _ in 0..4 {
        let task = e.next_runnable().unwrap();
        order.push(task);
        // a task that is pending after its poll has woken itself: back of the queue
        let y = &mut yielders[task as usize];
        if y.poll() == Poll::Pending {
            assert_eq!(e.enqueue_and_pend(task), (Some(()), Pender::ThreadExecutorPender));
        } else {
            *y = Yielder::new();
            e.enqueue_no_pend(task);
        }
    }
    assert_eq!(order, vec![1, 0, 1, 0]);
}

#[test]
fn alarm_at_the_earliest_timer_wakes_the_executor_in_time() {
    let mut k = Kernel::init();
    let h = k.allocate_alarm().unwrap();
    let mut e = ThreadExecutor::new(Some(h));
    k.set_alarm_callback(h, 0);
    let timer = Timer::after_ticks(k.now(), 2);
    e.base_mut().update_timer_queue(9, Some(timer.expires_at()));
    let next = e.base_mut().renew_alarm().unwrap();
    assert_eq!(k.set_alarm(h, next), Some(()));
    assert!(k.on_timer_interrupt().unwrap().is_empty());
    assert!(k.on_timer_interrupt().unwrap().is_empty());
    let fired = k.on_timer_interrupt().unwrap();
    assert_eq!(fired.len(), 1);
    assert_eq!(fired[0].callback, Some(0));
    assert_eq!(timer.poll(k.now()), Poll::Ready(()));
    assert_eq!(e.base_mut().check_timer_queue(k.now()).map(|v| v.len()), Some(1));
    assert_eq!(e.base_mut().next_runnable(), Some(9));
}

#[test]
fn allocating_interrupt_executors() {
    let alarm = Some(AlarmHandle::from(1));
    assert_eq!(allocate_decision(0, alarm), Err(AllocateError::ZeroPriority));
    assert_eq!(allocate_decision(0, None), Err(AllocateError::ZeroPriority));
    assert_eq!(allocate_decision(2, None), Err(AllocateError::NoAlarm));
    assert_eq!(allocate_decision(2, alarm), Ok((ExecutorHandle::from_prio(2), AlarmHandle::from(1))));
}

#[test]
fn handles_of_one_priority_are_equal() {
    assert_eq!(ExecutorHandle::from_prio(3), ExecutorHandle::from_prio(3));
    assert_ne!(ExecutorHandle::from_prio(3), ExecutorHandle::from_prio(4));
}
