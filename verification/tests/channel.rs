use tricore_kernel::executor::Poll;
use tricore_kernel::sync::priority_channel::{
    PriorityChannel, TryReceiveError, TrySendError, CHANNEL_CAPACITY,
};

#[test]
fn greatest_message_comes_out_first() {
    let mut c = PriorityChannel::new();
    for m in [1u64, 2, 3] {
        assert_eq!(c.try_send(m).0, Ok(()));
    }
    let out: Vec<u64> = (0..3).map(|_| c.try_receive().0.unwrap()).collect();
    assert_eq!(out, vec![3, 2, 1]);
    assert_eq!(c.try_receive().0, Err(TryReceiveError::Empty));
}

#[test]
fn full_channel_hands_the_message_back() {
    let mut c = PriorityChannel::new();
    for m in 0..CHANNEL_CAPACITY as u64 {
        assert_eq!(c.try_send(m).0, Ok(()));
    }
    assert_eq!(c.try_send(99), (Err(TrySendError::Full(99)), vec![]));
}

#[test]
fn waiting_receiver_is_woken_by_a_send() {
    let mut c = PriorityChannel::new();
    let mut fut = c.receive();
    assert_eq!(fut.poll(&mut c, 7), (Poll::Pending, vec![]));
    assert_eq!(c.poll_ready_to_receive(7), (Poll::Pending, vec![]));
    assert_eq!(c.try_send(5), (Ok(()), vec![7]));
    assert_eq!(fut.poll(&mut c, 7), (Poll::Ready(5), vec![]));
}

#[test]
fn waiting_sender_is_woken_by_a_receive_from_a_full_channel() {
    let mut c = PriorityChannel::new();
    for m in 0..CHANNEL_CAPACITY as u64 {
        c.try_send(m);
    }
    let mut fut = c.send(100);
    assert_eq!(fut.poll(&mut c, 3), (Poll::Pending, vec![]));
    assert_eq!(fut.message, Some(100));
    assert_eq!(c.try_receive(), (Ok(15), vec![3]));
    assert_eq!(fut.poll(&mut c, 3), (Poll::Ready(()), vec![]));
    assert_eq!(fut.message, None);
    assert_eq!(c.try_receive().0, Ok(100));
}

#[test]
fn ready_to_send_follows_the_complement_test() {
    let mut c = PriorityChannel::new();
    assert_eq!(c.poll_ready_to_send(1).0, Poll::Pending);
    assert_eq!(c.poll_ready_to_send(2), (Poll::Pending, vec![1]));
}
