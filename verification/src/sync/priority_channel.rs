//! A bounded channel between tasks that hands out the greatest buffered message first.

use vstd::prelude::*;
use vstd::multiset::Multiset;
use heapless::binary_heap::{BinaryHeap, Max};
use crate::bounded::{
    is_greatest, max_heap_items, max_heap_len, max_heap_new, max_heap_pop, max_heap_push,
};
use crate::executor::Poll;
use crate::sync::pipe::{register_slot, register_spec, slot_tasks, wake_slot};

verus! {

/// The number of messages a channel buffers.
pub const CHANNEL_CAPACITY: usize = 16;

/// Error returned by [`PriorityChannel::try_send`].
#[derive(PartialEq, Eq, Clone, Copy, Debug)]
pub enum TrySendError {
    /// The channel is full; the message is handed back.
    Full(u64),
}

/// Error returned by [`PriorityChannel::try_receive`].
#[derive(PartialEq, Eq, Clone, Copy, Debug)]
pub enum TryReceiveError {
    /// The channel is empty.
    Empty,
}

/// Registering `task`, if there is one, in `slot`: the new slot and the tasks woken.
pub open spec fn register_opt(slot: Option<u64>, task: Option<u64>) -> (Option<u64>, Seq<u64>) {
    match task {
        Some(t) => register_spec(slot, t),
        None => (slot, Seq::empty()),
    }
}

/// A receive from a channel holding `len` messages first wakes the waiting senders when
/// the channel is full: the new senders' slot and the tasks woken.
pub open spec fn receive_wakes(len: nat, senders: Option<u64>) -> (Option<u64>, Seq<u64>) {
    if len == CHANNEL_CAPACITY {
        (None, slot_tasks(senders))
    } else {
        (senders, Seq::empty())
    }
}

/// A bounded channel of up to `CHANNEL_CAPACITY` messages, with the task waiting to
/// receive and the task waiting to send, by id. Messages are received greatest first.
/// Each operation hands back the tasks it wakes, in order.
pub struct PriorityChannel {
    queue: BinaryHeap<u64, Max, 16>,
    receiver: Option<u64>,
    senders: Option<u64>,
}

impl View for PriorityChannel {
    type V = Multiset<u64>;

    /// The buffered messages.
    closed spec fn view(&self) -> Multiset<u64> {
        max_heap_items(self.queue)
    }
}

impl PriorityChannel {
    /// The task waiting to receive, if any.
    pub closed spec fn receiver_waiting(&self) -> Option<u64> {
        self.receiver
    }

    /// The task waiting to send, if any.
    pub closed spec fn senders_waiting(&self) -> Option<u64> {
        self.senders
    }

    /// An empty channel with no task waiting.
    pub fn new() -> (r: Self)
        ensures
            r@ == Multiset::<u64>::empty(),
            r.receiver_waiting() is None,
            r.senders_waiting() is None,
    {
        PriorityChannel { queue: max_heap_new(), receiver: None, senders: None }
    }

    /// Sends `message` unless the channel is full: a sent message wakes the receiver; a
    /// full channel hands the message back and registers `task`, if given, as sender.
    pub fn try_send_with_context(&mut self, message: u64, task: Option<u64>) -> (r: (
        Result<(), TrySendError>,
        Vec<u64>,
    ))
        ensures
            old(self)@.len() < CHANNEL_CAPACITY ==> {
                &&& r.0 is Ok
                &&& final(self)@ == old(self)@.insert(message)
                &&& final(self).receiver_waiting() is None
                &&& r.1@ == slot_tasks(old(self).receiver_waiting())
                &&& final(self).senders_waiting() == old(self).senders_waiting()
            },
            old(self)@.len() >= CHANNEL_CAPACITY ==> {
                &&& r.0 == Err::<(), TrySendError>(TrySendError::Full(message))
                &&& final(self)@ == old(self)@
                &&& final(self).receiver_waiting() == old(self).receiver_waiting()
                &&& (final(self).senders_waiting(), r.1@) == register_opt(
                    old(self).senders_waiting(),
                    task,
                )
            },
    {
        let mut woken: Vec<u64> = Vec::new();
        match max_heap_push(&mut self.queue, message) {
            Ok(()) => {
                wake_slot(&mut self.receiver, &mut woken);
                assert(woken@ =~= slot_tasks(old(self).receiver));
                (Ok(()), woken)
            },
            Err(m) => {
                match task {
                    Some(t) => {
                        register_slot(&mut self.senders, t, &mut woken);
                        assert(woken@ =~= register_spec(old(self).senders, t).1);
                    },
                    None => {
                        assert(woken@ =~= Seq::<u64>::empty());
                    },
                }
                (Err(TrySendError::Full(m)), woken)
            },
        }
    }

    /// Receives the greatest message: a full channel first wakes the sender; an empty
    /// one registers `task`, if given, as receiver.
    pub fn try_receive_with_context(&mut self, task: Option<u64>) -> (r: (
        Result<u64, TryReceiveError>,
        Vec<u64>,
    ))
        ensures
            final(self).senders_waiting() == receive_wakes(
                old(self)@.len(),
                old(self).senders_waiting(),
            ).0,
            old(self)@.len() > 0 ==> {
                &&& r.0 matches Ok(x) && is_greatest(x, old(self)@) && final(self)@ == old(self)@.remove(x)
                &&& final(self).receiver_waiting() == old(self).receiver_waiting()
                &&& r.1@ == receive_wakes(old(self)@.len(), old(self).senders_waiting()).1
            },
            old(self)@.len() == 0 ==> {
                &&& r.0 == Err::<u64, TryReceiveError>(TryReceiveError::Empty)
                &&& final(self)@ == old(self)@
                &&& (final(self).receiver_waiting(), r.1@) == register_opt(
                    old(self).receiver_waiting(),
                    task,
                )
            },
    {
        let mut woken: Vec<u64> = Vec::new();
        let n = max_heap_len(&self.queue);
        if n == CHANNEL_CAPACITY {
            wake_slot(&mut self.senders, &mut woken);
        }
        assert(woken@ =~= receive_wakes(old(self)@.len(), old(self).senders).1);
        match max_heap_pop(&mut self.queue) {
            Some(x) => (Ok(x), woken),
            None => {
                match task {
                    Some(t) => {
                        register_slot(&mut self.receiver, t, &mut woken);
                        assert(woken@ =~= register_spec(old(self).receiver, t).1);
                    },
                    None => {},
                }
                (Err(TryReceiveError::Empty), woken)
            },
        }
    }

    /// Attempt to immediately send a message.
    pub fn try_send(&mut self, message: u64) -> (r: (Result<(), TrySendError>, Vec<u64>))
        ensures
            old(self)@.len() < CHANNEL_CAPACITY ==> {
                &&& r.0 is Ok
                &&& final(self)@ == old(self)@.insert(message)
                &&& final(self).receiver_waiting() is None
                &&& r.1@ == slot_tasks(old(self).receiver_waiting())
                &&& final(self).senders_waiting() == old(self).senders_waiting()
            },
            old(self)@.len() >= CHANNEL_CAPACITY ==> {
                &&& r.0 == Err::<(), TrySendError>(TrySendError::Full(message))
                &&& final(self)@ == old(self)@
                &&& final(self).receiver_waiting() == old(self).receiver_waiting()
                &&& final(self).senders_waiting() == old(self).senders_waiting()
                &&& r.1@ == Seq::<u64>::empty()
            },
    {
        self.try_send_with_context(message, None)
    }

    /// Attempt to immediately receive the greatest message.
    pub fn try_receive(&mut self) -> (r: (Result<u64, TryReceiveError>, Vec<u64>))
        ensures
            final(self).senders_waiting() == receive_wakes(
                old(self)@.len(),
                old(self).senders_waiting(),
            ).0,
            final(self).receiver_waiting() == old(self).receiver_waiting(),
            r.1@ == receive_wakes(old(self)@.len(), old(self).senders_waiting()).1,
            old(self)@.len() > 0 ==> (r.0 matches Ok(x) && is_greatest(x, old(self)@) && final(self)@ == old(self)@.remove(x)),
            old(self)@.len() == 0 ==> r.0 == Err::<u64, TryReceiveError>(TryReceiveError::Empty)
                && final(self)@ == old(self)@,
    {
        self.try_receive_with_context(None)
    }

    /// Polls for the greatest message on behalf of `task`.
    pub fn poll_receive(&mut self, task: u64) -> (r: (Poll<u64>, Vec<u64>))
        ensures
            final(self).senders_waiting() == receive_wakes(
                old(self)@.len(),
                old(self).senders_waiting(),
            ).0,
            old(self)@.len() > 0 ==> {
                &&& r.0 matches Poll::Ready(x) && is_greatest(x, old(self)@) && final(self)@ == old(self)@.remove(x)
                &&& final(self).receiver_waiting() == old(self).receiver_waiting()
                &&& r.1@ == receive_wakes(old(self)@.len(), old(self).senders_waiting()).1
            },
            old(self)@.len() == 0 ==> {
                &&& r.0 is Pending
                &&& final(self)@ == old(self)@
                &&& (final(self).receiver_waiting(), r.1@) == register_spec(
                    old(self).receiver_waiting(),
                    task,
                )
            },
    {
        let (res, woken) = self.try_receive_with_context(Some(task));
        match res {
            Ok(x) => (Poll::Ready(x), woken),
            Err(_) => (Poll::Pending, woken),
        }
    }

    /// Registers `task` as receiver; ready when a message is buffered.
    pub fn poll_ready_to_receive(&mut self, task: u64) -> (r: (Poll<()>, Vec<u64>))
        ensures
            (final(self).receiver_waiting(), r.1@) == register_spec(
                old(self).receiver_waiting(),
                task,
            ),
            final(self).senders_waiting() == old(self).senders_waiting(),
            final(self)@ == old(self)@,
            r.0 is Ready <==> old(self)@.len() > 0,
    {
        let mut woken: Vec<u64> = Vec::new();
        register_slot(&mut self.receiver, task, &mut woken);
        assert(woken@ =~= register_spec(old(self).receiver, task).1);
        if max_heap_len(&self.queue) > 0 {
            (Poll::Ready(()), woken)
        } else {
            (Poll::Pending, woken)
        }
    }

    /// Registers `task` as sender; ready when the bitwise complement of the number of
    /// buffered messages equals the capacity.
    pub fn poll_ready_to_send(&mut self, task: u64) -> (r: (Poll<()>, Vec<u64>))
        ensures
            (final(self).senders_waiting(), r.1@) == register_spec(
                old(self).senders_waiting(),
                task,
            ),
            final(self).receiver_waiting() == old(self).receiver_waiting(),
            final(self)@ == old(self)@,
            r.0 is Ready <==> (!(old(self)@.len() as usize)) == CHANNEL_CAPACITY,
    {
        let mut woken: Vec<u64> = Vec::new();
        register_slot(&mut self.senders, task, &mut woken);
        assert(woken@ =~= register_spec(old(self).senders, task).1);
        let n = max_heap_len(&self.queue);
        if !n == CHANNEL_CAPACITY {
            (Poll::Ready(()), woken)
        } else {
            (Poll::Pending, woken)
        }
    }

    /// Send a value, waiting until there is capacity: a future to poll with the channel.
    pub fn send(&self, message: u64) -> (r: SendFuture)
        ensures
            r.message == Some(message),
    {
        SendFuture { message: Some(message) }
    }

    /// Receive the next value, waiting until there is one: a future to poll with the channel.
    pub fn receive(&self) -> (r: ReceiveFuture) {
        ReceiveFuture
    }
}

/// Future returned by [`PriorityChannel::send`]: the message until it is sent.
pub struct SendFuture {
    pub message: Option<u64>,
}

impl SendFuture {
    /// One poll on behalf of `task`: ready once the message is sent; while the channel is
    /// full, pending with `task` registered as sender and the message kept.
    pub fn poll(&mut self, channel: &mut PriorityChannel, task: u64) -> (r: (Poll<()>, Vec<u64>))
        requires
            old(self).message is Some,
        ensures
            old(channel)@.len() < CHANNEL_CAPACITY ==> {
                &&& r.0 is Ready
                &&& final(self).message is None
                &&& final(channel)@ == old(channel)@.insert(old(self).message->0)
                &&& final(channel).receiver_waiting() is None
                &&& r.1@ == slot_tasks(old(channel).receiver_waiting())
                &&& final(channel).senders_waiting() == old(channel).senders_waiting()
            },
            old(channel)@.len() >= CHANNEL_CAPACITY ==> {
                &&& r.0 is Pending
                &&& final(self).message == old(self).message
                &&& final(channel)@ == old(channel)@
                &&& final(channel).receiver_waiting() == old(channel).receiver_waiting()
                &&& (final(channel).senders_waiting(), r.1@) == register_spec(
                    old(channel).senders_waiting(),
                    task,
                )
            },
    {
        let m = match self.message {
            Some(m) => m,
            None => 0,
        };
        self.message = None;
        let (res, woken) = channel.try_send_with_context(m, Some(task));
        match res {
            Ok(()) => (Poll::Ready(()), woken),
            Err(TrySendError::Full(back)) => {
                self.message = Some(back);
                (Poll::Pending, woken)
            },
        }
    }
}

/// Future returned by [`PriorityChannel::receive`].
pub struct ReceiveFuture;

impl ReceiveFuture {
    /// One poll on behalf of `task`: [`PriorityChannel::poll_receive`].
    pub fn poll(&self, channel: &mut PriorityChannel, task: u64) -> (r: (Poll<u64>, Vec<u64>))
        ensures
            final(channel).senders_waiting() == receive_wakes(
                old(channel)@.len(),
                old(channel).senders_waiting(),
            ).0,
            old(channel)@.len() > 0 ==> {
                &&& r.0 matches Poll::Ready(x) && is_greatest(x, old(channel)@) && final(channel)@
                    == old(channel)@.remove(x)
                &&& final(channel).receiver_waiting() == old(channel).receiver_waiting()
                &&& r.1@ == receive_wakes(old(channel)@.len(), old(channel).senders_waiting()).1
            },
            old(channel)@.len() == 0 ==> {
                &&& r.0 is Pending
                &&& final(channel)@ == old(channel)@
                &&& (final(channel).receiver_waiting(), r.1@) == register_spec(
                    old(channel).receiver_waiting(),
                    task,
                )
            },
    {
        channel.poll_receive(task)
    }
}

} // verus!
