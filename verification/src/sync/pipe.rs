//! A bounded byte pipe: bytes written come out of it in the order they went in.

use vstd::prelude::*;
use crate::executor::Poll;
use crate::sync::ring_buffer::RingBuffer;

verus! {

/// Error returned by [`Pipe::try_read`].
#[derive(PartialEq, Eq, Clone, Copy, Debug)]
pub enum TryReadError {
    /// No data could be read from the pipe because it is currently
    /// empty, and reading would require blocking.
    Empty,
}

/// Error returned by [`Pipe::try_write`].
#[derive(PartialEq, Eq, Clone, Copy, Debug)]
pub enum TryWriteError {
    /// No data could be written to the pipe because it is
    /// currently full, and writing would require blocking.
    Full,
}

/// A bounded byte-oriented pipe for communicating between asynchronous tasks
/// with backpressure.
///
/// The pipe will buffer up to `N` bytes. All data written will become available in
/// the same order as it was written.
pub struct Pipe<const N: usize> {
    buf: Vec<u8>,
    buffer: RingBuffer<N>,
}

impl<const N: usize> View for Pipe<N> {
    type V = Seq<u8>;

    /// The buffered bytes, oldest first.
    closed spec fn view(&self) -> Seq<u8> {
        self.buffer.contents(self.buf@)
    }
}

/// What a call does with a pipe, as far as the tasks waiting on it go: reads (and
/// fills), writes, consumes, or clears it.
#[derive(PartialEq, Eq, Clone, Copy, Debug)]
pub enum Access {
    Read,
    Write,
    Consume,
    Clear,
}

/// Whom a call on a pipe wakes when it starts, and whose waker a call that finds it
/// cannot go on registers: the reader's or the writer's.
#[derive(PartialEq, Eq, Clone, Copy, Debug)]
pub struct Wakes {
    pub wake_reader: bool,
    pub wake_writer: bool,
    pub register_reader: bool,
    pub register_writer: bool,
}

/// One call on a pipe holding `before`, which puts the bytes `put` in and takes the
/// bytes `took` out and leaves it holding `after`: what it took came first, then what
/// stays, and together they are what was there followed by what was put in.
pub open spec fn fifo_step(before: Seq<u8>, after: Seq<u8>, put: Seq<u8>, took: Seq<u8>) -> bool {
    took + after == before + put
}

/// All the byte sequences of `s`, one after the other.
pub open spec fn concat_all(s: Seq<Seq<u8>>) -> Seq<u8>
    decreases s.len(),
{
    if s.len() == 0 {
        Seq::empty()
    } else {
        concat_all(s.drop_last()) + s.last()
    }
}

/// Bytes come out of a pipe in the order they were written, none lost, duplicated or
/// invented: over any run of calls from an empty pipe, the call `i` leaving it holding
/// `views[i + 1]` after putting in `puts[i]` and taking out `tooks[i]`, everything taken
/// out is a prefix of everything put in, and the pipe holds exactly the rest.
pub proof fn lemma_fifo(views: Seq<Seq<u8>>, puts: Seq<Seq<u8>>, tooks: Seq<Seq<u8>>)
    requires
        views.len() == puts.len() + 1,
        tooks.len() == puts.len(),
        views[0] == Seq::<u8>::empty(),
        forall|i: int| 0 <= i < puts.len() ==> #[trigger] fifo_step(views[i], views[i + 1], puts[i], tooks[i]),
    ensures
        concat_all(tooks) + views.last() == concat_all(puts),
        concat_all(tooks).len() <= concat_all(puts).len(),
        concat_all(puts).subrange(0, concat_all(tooks).len() as int) == concat_all(tooks),
        views.last() == concat_all(puts).subrange(concat_all(tooks).len() as int, concat_all(puts).len() as int),
        views.last().len() == concat_all(puts).len() - concat_all(tooks).len(),
    decreases puts.len(),
{
    let n = puts.len();
    if n == 0 {
        assert(concat_all(tooks) =~= Seq::<u8>::empty());
        assert(concat_all(puts) =~= Seq::<u8>::empty());
        assert(concat_all(tooks) + views.last() =~= concat_all(puts));
    } else {
        let v = views.drop_last();
        let p = puts.drop_last();
        let t = tooks.drop_last();
        assert forall|i: int| 0 <= i < p.len() implies #[trigger] fifo_step(v[i], v[i + 1], p[i], t[i]) by {
            assert(fifo_step(views[i], views[i + 1], puts[i], tooks[i]));
        }
        lemma_fifo(v, p, t);
        assert(fifo_step(views[n - 1], views[n as int], puts[n - 1], tooks[n - 1]));
        assert(views[n - 1] == v.last());
        assert(concat_all(tooks) + views.last() =~= concat_all(t) + (tooks.last() + views.last()));
        assert(concat_all(puts) =~= (concat_all(t) + v.last()) + puts.last());
        assert(concat_all(tooks) + views.last() =~= concat_all(puts));
    }
    let w = concat_all(puts);
    let r = concat_all(tooks);
    assert(w.subrange(0, r.len() as int) =~= r);
    assert(views.last() =~= w.subrange(r.len() as int, w.len() as int));
}

/// Whom `access` wakes and registers on a pipe of capacity `cap` holding `len` bytes;
/// see [`Pipe::wakes`].
pub open spec fn wakes_spec(len: int, cap: int, access: Access, waiting: bool) -> Wakes {
    Wakes {
        wake_reader: access is Write && len == 0,
        wake_writer: (access is Read && cap > 0 && len == cap) || access is Clear,
        register_reader: waiting && access is Read && len == 0,
        register_writer: waiting && access is Write && len == cap,
    }
}

/// The tasks waiting on a pipe, by id: the one to wake when it can read, and the one
/// to wake when it can write.
#[derive(PartialEq, Eq, Clone, Copy, Debug)]
pub struct Waiters {
    pub reader: Option<u64>,
    pub writer: Option<u64>,
}

/// The tasks in `slot`, none or one.
pub open spec fn slot_tasks(slot: Option<u64>) -> Seq<u64> {
    match slot {
        Some(t) => seq![t],
        None => Seq::empty(),
    }
}

/// Registering `task` in `slot`: a task already there stays; another task takes its
/// place and the one it replaces is woken. The new slot and the tasks woken.
pub open spec fn register_spec(slot: Option<u64>, task: u64) -> (Option<u64>, Seq<u64>) {
    if slot == Some(task) {
        (slot, Seq::empty())
    } else {
        (Some(task), slot_tasks(slot))
    }
}

/// What carrying out `wakes` for a call by `task` (when it waits) does to the waiters:
/// first the reader is woken, then the writer, as `wakes` says, each slot emptied; then
/// `task` is registered as reader or writer. The new waiters and the tasks woken, in
/// order.
pub open spec fn waiters_after(w: Waiters, wakes: Wakes, task: Option<u64>) -> (Waiters, Seq<u64>) {
    let (r1, woken1) = if wakes.wake_reader {
        (None::<u64>, slot_tasks(w.reader))
    } else {
        (w.reader, Seq::<u64>::empty())
    };
    let (w1, woken2) = if wakes.wake_writer {
        (None::<u64>, slot_tasks(w.writer))
    } else {
        (w.writer, Seq::<u64>::empty())
    };
    let (r2, woken3) = if wakes.register_reader && task is Some {
        register_spec(r1, task->0)
    } else {
        (r1, Seq::<u64>::empty())
    };
    let (w2, woken4) = if wakes.register_writer && task is Some {
        register_spec(w1, task->0)
    } else {
        (w1, Seq::<u64>::empty())
    };
    (Waiters { reader: r2, writer: w2 }, woken1 + woken2 + woken3 + woken4)
}

pub(crate) fn register_slot(slot: &mut Option<u64>, task: u64, woken: &mut Vec<u64>)
    ensures
        (*final(slot), final(woken)@) == ({
            let (s, w) = register_spec(*old(slot), task);
            (s, old(woken)@ + w)
        }),
{
    match *slot {
        Some(t) => {
            if t == task {
                assert(old(woken)@ + Seq::<u64>::empty() =~= woken@);
                return ;
            }
            woken.push(t);
            *slot = Some(task);
            assert(old(woken)@ + seq![t] =~= woken@);
        },
        None => {
            *slot = Some(task);
            assert(old(woken)@ + Seq::<u64>::empty() =~= woken@);
        },
    }
}

pub(crate) fn wake_slot(slot: &mut Option<u64>, woken: &mut Vec<u64>)
    ensures
        *final(slot) is None,
        final(woken)@ == old(woken)@ + slot_tasks(*old(slot)),
{
    match *slot {
        Some(t) => {
            woken.push(t);
            assert(old(woken)@ + seq![t] =~= woken@);
        },
        None => {
            assert(old(woken)@ + Seq::<u64>::empty() =~= woken@);
        },
    }
    *slot = None;
}

impl Waiters {
    /// No task waits.
    pub fn new() -> (r: Self)
        ensures
            r.reader is None,
            r.writer is None,
    {
        Waiters { reader: None, writer: None }
    }

    /// Carries out `wakes` for a call by `task`, if it waits: returns the tasks to wake,
    /// in order.
    pub fn apply(&mut self, wakes: Wakes, task: Option<u64>) -> (r: Vec<u64>)
        ensures
            (*final(self), r@) == waiters_after(*old(self), wakes, task),
    {
        let mut woken: Vec<u64> = Vec::new();
        if wakes.wake_reader {
            wake_slot(&mut self.reader, &mut woken);
        }
        if wakes.wake_writer {
            wake_slot(&mut self.writer, &mut woken);
        }
        if wakes.register_reader {
            if let Some(t) = task {
                register_slot(&mut self.reader, t, &mut woken);
            }
        }
        if wakes.register_writer {
            if let Some(t) = task {
                register_slot(&mut self.writer, t, &mut woken);
            }
        }
        assert(woken@ =~= waiters_after(*old(self), wakes, task).1);
        woken
    }
}

/// What carrying out wakes does to the waiting tasks, slot by slot: a woken slot hands
/// its task back and is emptied, a registering task takes its slot, a slot neither woken
/// nor registered is kept, and no task is handed back that was not waiting. When only
/// the writer is woken, its task comes back first; likewise for the reader.
pub proof fn lemma_waiters_after(w: Waiters, wakes: Wakes, task: Option<u64>)
    ensures
        ({
            let (w2, woken) = waiters_after(w, wakes, task);
            &&& (wakes.register_reader && task is Some) ==> w2.reader == task
            &&& (wakes.register_writer && task is Some) ==> w2.writer == task
            &&& (wakes.wake_reader && !(wakes.register_reader && task is Some)) ==> w2.reader is None
            &&& (wakes.wake_writer && !(wakes.register_writer && task is Some)) ==> w2.writer is None
            &&& (!wakes.wake_reader && !(wakes.register_reader && task is Some)) ==> w2.reader == w.reader
            &&& (!wakes.wake_writer && !(wakes.register_writer && task is Some)) ==> w2.writer == w.writer
            &&& (wakes.wake_reader && w.reader is Some) ==> woken.len() > 0 && woken[0] == w.reader->0
            &&& (wakes.wake_writer && !wakes.wake_reader && w.writer is Some) ==> woken.len() > 0
                && woken[0] == w.writer->0
            &&& (wakes.wake_writer && w.writer is Some) ==> woken.contains(w.writer->0)
            &&& forall|k: int| 0 <= k < woken.len() ==> (Some(#[trigger] woken[k]) == w.reader || Some(woken[k]) == w.writer)
        }),
{
    let (w2, woken) = waiters_after(w, wakes, task);
    if wakes.wake_writer && w.writer is Some {
        let r1 = if wakes.wake_reader { slot_tasks(w.reader) } else { Seq::<u64>::empty() };
        assert(woken[r1.len() as int] == w.writer->0);
    }
}

/// A write that found the pipe full and registered task `t` is woken by the next read:
/// over a run of calls on a pipe of capacity `cap > 0`, never holding more than `cap`
/// bytes, that starts full with `t` registered as writer, where every call but the last
/// is a write or a consume that takes nothing out and registers no other writer, the
/// last call, a read, wakes `t` first. Call `i` is `calls[i]` (its kind and the task,
/// when it waits); it leaves the pipe holding `views[i + 1]` and the waiters
/// `waiters[i + 1]`.
pub proof fn lemma_pending_write_woken(
    t: u64,
    cap: int,
    views: Seq<Seq<u8>>,
    puts: Seq<Seq<u8>>,
    tooks: Seq<Seq<u8>>,
    calls: Seq<(Access, Option<u64>)>,
    waiters: Seq<Waiters>,
)
    requires
        cap > 0,
        calls.len() > 0,
        views.len() == calls.len() + 1,
        waiters.len() == calls.len() + 1,
        puts.len() == calls.len(),
        tooks.len() == calls.len(),
        views[0].len() == cap,
        forall|i: int| 0 <= i < views.len() ==> (#[trigger] views[i]).len() <= cap,
        waiters[0].writer == Some(t),
        forall|i: int| 0 <= i < calls.len() ==> #[trigger] fifo_step(views[i], views[i + 1], puts[i], tooks[i]),
        forall|i: int| 0 <= i < calls.len() ==> waiters[i + 1] == #[trigger] waiters_after(
            waiters[i],
            wakes_spec(views[i].len() as int, cap, calls[i].0, calls[i].1 is Some),
            calls[i].1,
        ).0,
        forall|i: int| 0 <= i < calls.len() - 1 ==> {
            &&& (#[trigger] calls[i].0 is Write || calls[i].0 is Consume)
            &&& tooks[i].len() == 0
            &&& (calls[i].0 is Write && calls[i].1 is Some ==> calls[i].1 == Some(t))
        },
        calls.last().0 is Read,
    ensures
        ({
            let k = calls.len() - 1;
            let woken = waiters_after(
                waiters[k],
                wakes_spec(views[k].len() as int, cap, calls[k].0, calls[k].1 is Some),
                calls[k].1,
            ).1;
            woken.len() > 0 && woken[0] == t
        }),
{
    let k = calls.len() - 1;
    lemma_still_blocked(t, cap, views, puts, tooks, calls, waiters, k);
}

/// Up to the last call of such a run, the pipe stays full and `t` stays registered.
proof fn lemma_still_blocked(
    t: u64,
    cap: int,
    views: Seq<Seq<u8>>,
    puts: Seq<Seq<u8>>,
    tooks: Seq<Seq<u8>>,
    calls: Seq<(Access, Option<u64>)>,
    waiters: Seq<Waiters>,
    i: int,
)
    requires
        cap > 0,
        calls.len() > 0,
        views.len() == calls.len() + 1,
        waiters.len() == calls.len() + 1,
        puts.len() == calls.len(),
        tooks.len() == calls.len(),
        views[0].len() == cap,
        forall|i: int| 0 <= i < views.len() ==> (#[trigger] views[i]).len() <= cap,
        waiters[0].writer == Some(t),
        forall|i: int| 0 <= i < calls.len() ==> #[trigger] fifo_step(views[i], views[i + 1], puts[i], tooks[i]),
        forall|i: int| 0 <= i < calls.len() ==> waiters[i + 1] == #[trigger] waiters_after(
            waiters[i],
            wakes_spec(views[i].len() as int, cap, calls[i].0, calls[i].1 is Some),
            calls[i].1,
        ).0,
        forall|i: int| 0 <= i < calls.len() - 1 ==> {
            &&& (#[trigger] calls[i].0 is Write || calls[i].0 is Consume)
            &&& tooks[i].len() == 0
            &&& (calls[i].0 is Write && calls[i].1 is Some ==> calls[i].1 == Some(t))
        },
        0 <= i <= calls.len() - 1,
    ensures
        views[i].len() == cap,
        waiters[i].writer == Some(t),
    decreases i,
{
    if i > 0 {
        let j = i - 1;
        lemma_still_blocked(t, cap, views, puts, tooks, calls, waiters, j);
        assert(fifo_step(views[j], views[j + 1], puts[j], tooks[j]));
        assert((tooks[j] + views[j + 1]).len() == (views[j] + puts[j]).len());
        assert(views[j + 1].len() <= cap);
        let _ = calls[j].0 is Write;
        assert(waiters[j + 1] == waiters_after(
            waiters[j],
            wakes_spec(views[j].len() as int, cap, calls[j].0, calls[j].1 is Some),
            calls[j].1,
        ).0);
    }
}

/// Up to the last call of such a run, the pipe stays empty and `t` stays registered.
proof fn lemma_still_pending(
    t: u64,
    cap: int,
    views: Seq<Seq<u8>>,
    puts: Seq<Seq<u8>>,
    tooks: Seq<Seq<u8>>,
    calls: Seq<(Access, Option<u64>)>,
    waiters: Seq<Waiters>,
    i: int,
)
    requires
        cap > 0,
        calls.len() > 0,
        views.len() == calls.len() + 1,
        waiters.len() == calls.len() + 1,
        puts.len() == calls.len(),
        tooks.len() == calls.len(),
        views[0].len() == 0,
        waiters[0].reader == Some(t),
        forall|i: int| 0 <= i < calls.len() ==> #[trigger] fifo_step(views[i], views[i + 1], puts[i], tooks[i]),
        forall|i: int| 0 <= i < calls.len() ==> waiters[i + 1] == #[trigger] waiters_after(
            waiters[i],
            wakes_spec(views[i].len() as int, cap, calls[i].0, calls[i].1 is Some),
            calls[i].1,
        ).0,
        forall|i: int| 0 <= i < calls.len() - 1 ==> {
            &&& !(#[trigger] calls[i].0 is Write)
            &&& puts[i].len() == 0
            &&& (calls[i].0 is Read && calls[i].1 is Some ==> calls[i].1 == Some(t))
        },
        0 <= i <= calls.len() - 1,
    ensures
        views[i].len() == 0,
        waiters[i].reader == Some(t),
    decreases i,
{
    if i > 0 {
        let j = i - 1;
        lemma_still_pending(t, cap, views, puts, tooks, calls, waiters, j);
        assert(fifo_step(views[j], views[j + 1], puts[j], tooks[j]));
        assert((tooks[j] + views[j + 1]).len() == (views[j] + puts[j]).len());
        let _ = calls[j].0 is Write;
        assert(waiters[j + 1] == waiters_after(
            waiters[j],
            wakes_spec(views[j].len() as int, cap, calls[j].0, calls[j].1 is Some),
            calls[j].1,
        ).0);
    }
}

/// A read that found the pipe empty and registered task `t` is woken by the next write:
/// over a run of calls on a pipe of capacity `cap > 0` that starts empty with `t`
/// registered as reader, where every call but the last is no write, puts nothing in,
/// and registers no other reader, the last call, a write, wakes `t` first. Call `i` is
/// `calls[i]` (its kind and the task, when it waits); it leaves the pipe holding
/// `views[i + 1]` and the waiters `waiters[i + 1]`.
pub proof fn lemma_pending_read_woken(
    t: u64,
    cap: int,
    views: Seq<Seq<u8>>,
    puts: Seq<Seq<u8>>,
    tooks: Seq<Seq<u8>>,
    calls: Seq<(Access, Option<u64>)>,
    waiters: Seq<Waiters>,
)
    requires
        cap > 0,
        calls.len() > 0,
        views.len() == calls.len() + 1,
        waiters.len() == calls.len() + 1,
        puts.len() == calls.len(),
        tooks.len() == calls.len(),
        views[0].len() == 0,
        waiters[0].reader == Some(t),
        forall|i: int| 0 <= i < calls.len() ==> #[trigger] fifo_step(views[i], views[i + 1], puts[i], tooks[i]),
        forall|i: int| 0 <= i < calls.len() ==> waiters[i + 1] == #[trigger] waiters_after(
            waiters[i],
            wakes_spec(views[i].len() as int, cap, calls[i].0, calls[i].1 is Some),
            calls[i].1,
        ).0,
        forall|i: int| 0 <= i < calls.len() - 1 ==> {
            &&& !(#[trigger] calls[i].0 is Write)
            &&& puts[i].len() == 0
            &&& (calls[i].0 is Read && calls[i].1 is Some ==> calls[i].1 == Some(t))
        },
        calls.last().0 is Write,
    ensures
        ({
            let k = calls.len() - 1;
            let woken = waiters_after(
                waiters[k],
                wakes_spec(views[k].len() as int, cap, calls[k].0, calls[k].1 is Some),
                calls[k].1,
            ).1;
            woken.len() > 0 && woken[0] == t
        }),
{
    let k = calls.len() - 1;
    lemma_still_pending(t, cap, views, puts, tooks, calls, waiters, k);
}

impl<const N: usize> Pipe<N> {
    /// The ring buffer is consistent and the storage holds `N` bytes.
    pub closed spec fn wf(&self) -> bool {
        &&& self.buffer.wf()
        &&& self.buf@.len() == N
        &&& self.buffer.len_spec() == self.buffer.contents(self.buf@).len()
    }

    /// Where the oldest buffered byte sits in the buffer; in an empty pipe, where the
    /// next byte written goes.
    pub closed spec fn head(&self) -> int {
        self.buffer.start as int
    }

    /// Where the oldest byte sits after `n` bytes have been taken out: `n` slots on,
    /// wrapping to the start at the end of the buffer.
    pub open spec fn head_after(&self, n: int) -> int {
        if self.head() + n == N {
            0
        } else {
            self.head() + n
        }
    }

    /// How many bytes one write can take now: the free slots up to the end of the
    /// buffer, or all free slots once the buffered bytes wrap around.
    pub open spec fn write_room(&self) -> int {
        if self@.len() == N {
            0
        } else if self.head() + self@.len() < N {
            N - self.head() - self@.len()
        } else {
            N - self@.len()
        }
    }

    /// How many bytes one read can return now: the buffered bytes up to the end of the
    /// buffer.
    pub open spec fn read_room(&self) -> int {
        if self.head() + self@.len() <= N {
            self@.len() as int
        } else {
            N - self.head()
        }
    }

    /// The head lies inside the buffer and at most `N` bytes are buffered; so a write
    /// has room exactly when the pipe is not full and never more than the free space,
    /// and a read has room exactly when the pipe is not empty and never more than is
    /// buffered.
    pub open spec fn rooms_ok(&self) -> bool {
        &&& self@.len() <= N
        &&& (N > 0 ==> 0 <= self.head() < N)
        &&& (N == 0 ==> self.head() == 0)
        &&& 0 <= self.write_room() <= N - self@.len()
        &&& (self.write_room() == 0 <==> self@.len() == N)
        &&& 0 <= self.read_room() <= self@.len()
        &&& (self.read_room() == 0 <==> self@.len() == 0)
    }

    proof fn lemma_rooms(&self)
        requires
            self.wf(),
        ensures
            self.rooms_ok(),
            self.write_room() == self.buffer.push_range().1 - self.buffer.push_range().0,
            self.read_room() == self.buffer.pop_range().1 - self.buffer.pop_range().0,
    {
    }

    /// Establish a new bounded pipe of `N` bytes.
    pub fn new() -> (r: Self)
        ensures
            r.wf(),
            r@ == Seq::<u8>::empty(),
            r.head() == 0,
            r.rooms_ok(),
    {
        let mut buf: Vec<u8> = Vec::new();
        let mut i: usize = 0;
        while i < N
            invariant
                0 <= i <= N,
                buf@.len() == i,
            decreases N - i,
        {
            buf.push(0);
            i = i + 1;
        }
        let r = Pipe { buf, buffer: RingBuffer::new() };
        proof {
            r.lemma_rooms();
        }
        r
    }

    /// Attempt to immediately write some bytes to the pipe.
    ///
    /// Writes as many bytes of `buf` as fit in the free slots up to the end of the
    /// buffer, at least one when `buf` is not empty, and returns how many; returns an
    /// error if the pipe is full.
    pub fn try_write(&mut self, buf: &[u8]) -> (r: Result<usize, TryWriteError>)
        requires
            old(self).wf(),
        ensures
            final(self).wf(),
            old(self).rooms_ok(),
            final(self).rooms_ok(),
            r is Err <==> old(self)@.len() == N,
            r is Err ==> final(self)@ == old(self)@,
            final(self).head() == old(self).head(),
            r is Err ==> fifo_step(old(self)@, final(self)@, Seq::empty(), Seq::empty()),
            r matches Ok(n) ==> fifo_step(old(self)@, final(self)@, buf@.subrange(0, n as int), Seq::empty()),
            r matches Ok(n) ==> {
                &&& n == (if old(self).write_room() < buf@.len() {
                    old(self).write_room()
                } else {
                    buf@.len() as int
                })
                &&& (buf@.len() > 0 ==> n > 0)
                &&& old(self)@.len() + n <= N
                &&& final(self)@ == old(self)@ + buf@.subrange(0, n as int)
            },
    {
        proof {
            self.lemma_rooms();
        }
        let (start, end) = self.buffer.push_buf();
        if start == end {
            return Err(TryWriteError::Full);
        }
        let room = end - start;
        let n = if room < buf.len() {
            room
        } else {
            buf.len()
        };
        let ghost old_buf = self.buf@;
        let ghost ring = self.buffer;
        let mut i: usize = 0;
        while i < n
            invariant
                0 <= i <= n,
                self.buffer == ring,
                ring.wf(),
                start == ring.push_range().0,
                start + n <= ring.push_range().1,
                start + n <= N,
                self.buf@.len() == N,
                n <= buf@.len(),
                forall|j: int| 0 <= j < i ==> self.buf@[start + j] == buf@[j],
                forall|j: int|
                    0 <= j < N && !(start <= j < start + i) ==> self.buf@[j] == old_buf[j],
            decreases n - i,
        {
            self.buf.set(start + i, buf[i]);
            i = i + 1;
        }
        proof {
            assert(ring.contents(self.buf@) =~= ring.contents(old_buf));
            assert(self.buf@.subrange(start as int, start + n) =~= buf@.subrange(0, n as int));
        }
        self.buffer.push(n);
        proof {
            self.lemma_rooms();
        }
        Ok(n)
    }

    /// Attempt to immediately read some bytes from the pipe.
    ///
    /// Reads into the front of `buf` as many buffered bytes as come before the end of
    /// the buffer and fit in `buf`, and returns how many; returns an error if the pipe
    /// is empty.
    pub fn try_read(&mut self, buf: &mut [u8]) -> (r: Result<usize, TryReadError>)
        requires
            old(self).wf(),
        ensures
            final(self).wf(),
            old(self).rooms_ok(),
            final(self).rooms_ok(),
            r is Err <==> old(self)@.len() == 0,
            r is Err ==> final(self)@ == old(self)@ && final(buf)@ == old(buf)@ && final(self).head()
                == old(self).head(),
            r is Err ==> fifo_step(old(self)@, final(self)@, Seq::empty(), Seq::empty()),
            r matches Ok(n) ==> fifo_step(old(self)@, final(self)@, Seq::empty(), final(buf)@.subrange(0, n as int)),
            r matches Ok(n) ==> {
                &&& n == (if old(self).read_room() < old(buf)@.len() {
                    old(self).read_room()
                } else {
                    old(buf)@.len() as int
                })
                &&& (old(buf)@.len() > 0 ==> n > 0)
                &&& final(buf)@ == old(self)@.subrange(0, n as int) + old(buf)@.subrange(
                    n as int,
                    old(buf)@.len() as int,
                )
                &&& final(self)@ == old(self)@.subrange(n as int, old(self)@.len() as int)
                &&& final(self).head() == old(self).head_after(n as int)
            },
    {
        proof {
            self.lemma_rooms();
        }
        let (start, end) = self.buffer.pop_buf();
        if start == end {
            return Err(TryReadError::Empty);
        }
        let room = end - start;
        let n = if room < buf.len() {
            room
        } else {
            buf.len()
        };
        let ghost old_buf = buf@;
        let mut i: usize = 0;
        while i < n
            invariant
                0 <= i <= n,
                start + n <= N,
                self.buf@.len() == N,
                n <= buf@.len(),
                buf@.len() == old_buf.len(),
                forall|j: int| 0 <= j < i ==> buf@[j] == self.buf@[start + j],
                forall|j: int| i <= j < buf@.len() ==> buf@[j] == old_buf[j],
            decreases n - i,
        {
            buf[i] = self.buf[start + i];
            i = i + 1;
        }
        proof {
            assert(self@.subrange(0, n as int) =~= self.buf@.subrange(start as int, start + n));
            assert(buf@ =~= self@.subrange(0, n as int) + old_buf.subrange(
                n as int,
                old_buf.len() as int,
            ));
        }
        let ghost before = self@;
        self.buffer.pop(n);
        proof {
            self.lemma_rooms();
            assert(buf@.subrange(0, n as int) =~= before.subrange(0, n as int));
            assert(buf@.subrange(0, n as int) + self@ =~= before + Seq::<u8>::empty());
        }
        Ok(n)
    }

    /// Try returning the buffered bytes that come first without wrapping around the end
    /// of the buffer; returns an error if the pipe is empty.
    pub fn try_fill_buf(&self) -> (r: Result<&[u8], TryReadError>)
        requires
            self.wf(),
        ensures
            self.rooms_ok(),
            r is Err <==> self@.len() == 0,
            r matches Ok(s) ==> s@ == self@.subrange(0, self.read_room()),
    {
        proof {
            self.lemma_rooms();
        }
        let (start, end) = self.buffer.pop_buf();
        if start == end {
            return Err(TryReadError::Empty);
        }
        let s = vstd::slice::slice_subrange(self.buf.as_slice(), start, end);
        proof {
            assert(s@ =~= self@.subrange(0, self.read_room()));
        }
        Ok(s)
    }

    /// Tell the pipe that `amt` of the bytes returned by `try_fill_buf` have been consumed,
    /// so they are no longer buffered.
    pub fn consume(&mut self, amt: usize)
        requires
            old(self).wf(),
            amt <= old(self).read_room(),
        ensures
            final(self).wf(),
            final(self).rooms_ok(),
            final(self)@ == old(self)@.subrange(amt as int, old(self)@.len() as int),
            final(self).head() == old(self).head_after(amt as int),
            fifo_step(old(self)@, final(self)@, Seq::empty(), old(self)@.subrange(0, amt as int)),
    {
        proof {
            self.lemma_rooms();
        }
        let (start, end) = self.buffer.pop_buf();
        assert(amt <= end - start);
        self.buffer.pop(amt);
        proof {
            self.lemma_rooms();
            assert(old(self)@.subrange(0, amt as int) + self@ =~= old(self)@ + Seq::<u8>::empty());
        }
    }

    /// Clear the data in the pipe's buffer.
    pub fn clear(&mut self)
        requires
            old(self).wf(),
        ensures
            final(self).wf(),
            final(self).rooms_ok(),
            final(self)@ == Seq::<u8>::empty(),
            final(self).head() == 0,
            fifo_step(old(self)@, final(self)@, Seq::empty(), old(self)@),
    {
        self.buffer.clear();
        proof {
            self.lemma_rooms();
        }
    }

    /// Whom `access` wakes and registers, from the state before it: a read of a full
    /// pipe (of some room at all) wakes the writer, a write to an empty pipe wakes the reader, clearing wakes
    /// the writer; a read of an empty pipe registers the reader and a write to a full
    /// pipe registers the writer, when the caller is `waiting` to be woken.
    pub fn wakes(&self, access: Access, waiting: bool) -> (r: Wakes)
        requires
            self.wf(),
        ensures
            r.wake_writer == ((access is Read && N > 0 && self@.len() == N) || access is Clear),
            r.wake_reader == (access is Write && self@.len() == 0),
            r.register_reader == (waiting && access is Read && self@.len() == 0),
            r.register_writer == (waiting && access is Write && self@.len() == N),
            r == wakes_spec(self@.len() as int, N as int, access, waiting),
    {
        proof {
            self.lemma_rooms();
        }
        let full = self.buffer.is_full();
        let empty = self.buffer.is_empty();
        let len = self.buffer.len();
        match access {
            Access::Read => Wakes {
                wake_reader: false,
                wake_writer: full,
                register_reader: waiting && empty,
                register_writer: false,
            },
            Access::Write => Wakes {
                wake_reader: empty,
                wake_writer: false,
                register_reader: false,
                register_writer: waiting && len == N,
            },
            Access::Consume => Wakes {
                wake_reader: false,
                wake_writer: false,
                register_reader: false,
                register_writer: false,
            },
            Access::Clear => Wakes {
                wake_reader: false,
                wake_writer: true,
                register_reader: false,
                register_writer: false,
            },
        }
    }

    /// Return whether the pipe is full (no free space in the buffer)
    pub fn is_full(&self) -> (r: bool)
        requires
            self.wf(),
        ensures
            r == (self@.len() == N),
    {
        self.len() == N
    }

    /// Return whether the pipe is empty (no data buffered)
    pub fn is_empty(&self) -> (r: bool)
        requires
            self.wf(),
        ensures
            r == (self@.len() == 0),
    {
        self.len() == 0
    }

    /// Total byte capacity: the `N` generic param.
    pub fn capacity(&self) -> (r: usize)
        ensures
            r == N,
    {
        N
    }

    /// Used byte capacity.
    pub fn len(&self) -> (r: usize)
        requires
            self.wf(),
        ensures
            r == self@.len(),
            r <= N,
    {
        proof {
            self.lemma_rooms();
        }
        self.buffer.len()
    }

    /// Free byte capacity: `capacity() - len()`.
    pub fn free_capacity(&self) -> (r: usize)
        requires
            self.wf(),
        ensures
            r == N - self@.len(),
    {
        N - self.len()
    }

    /// Return the buffered bytes that come first: a future that, once polled with the
    /// pipe, returns them, or waits while the pipe is empty.
    pub fn fill_buf(&self) -> (r: FillBufFuture) {
        FillBufFuture
    }

    /// Write some bytes to the pipe: a future that, once polled with the pipe, writes a
    /// nonzero amount of bytes from `buf`, or waits while the pipe is full.
    pub fn write<'a>(&self, buf: &'a [u8]) -> (r: WriteFuture<'a>)
        ensures
            r.buf@ == buf@,
    {
        WriteFuture { buf }
    }

    /// Read some bytes from the pipe: a future that, once polled with the pipe, reads a
    /// nonzero amount of bytes into `buf`, or waits while the pipe is empty.
    pub fn read<'a>(&self, buf: &'a mut [u8]) -> (r: ReadFuture<'a>)
        ensures
            r.buf@ == old(buf)@,
    {
        ReadFuture { buf }
    }
}

/// Future returned by [`Pipe::write`].
pub struct WriteFuture<'p> {
    pub buf: &'p [u8],
}

impl<'p> WriteFuture<'p> {
    /// One poll: ready with the number of bytes written, or pending while the pipe is full.
    pub fn poll<const N: usize>(&self, pipe: &mut Pipe<N>) -> (r: Poll<usize>)
        requires
            old(pipe).wf(),
        ensures
            final(pipe).wf(),
            old(pipe).rooms_ok(),
            r is Pending <==> old(pipe)@.len() == N,
            r is Pending ==> final(pipe)@ == old(pipe)@,
            final(pipe).head() == old(pipe).head(),
            r is Pending ==> fifo_step(old(pipe)@, final(pipe)@, Seq::empty(), Seq::empty()),
            r matches Poll::Ready(n) ==> fifo_step(old(pipe)@, final(pipe)@, self.buf@.subrange(0, n as int), Seq::empty()),
            r matches Poll::Ready(n) ==> {
                &&& n == (if old(pipe).write_room() < self.buf@.len() {
                    old(pipe).write_room()
                } else {
                    self.buf@.len() as int
                })
                &&& (self.buf@.len() > 0 ==> n > 0)
                &&& final(pipe)@ == old(pipe)@ + self.buf@.subrange(0, n as int)
            },
    {
        match pipe.try_write(self.buf) {
            Ok(n) => Poll::Ready(n),
            Err(TryWriteError::Full) => Poll::Pending,
        }
    }
}

/// Future returned by [`Pipe::read`].
pub struct ReadFuture<'p> {
    pub buf: &'p mut [u8],
}

impl<'p> ReadFuture<'p> {
    /// One poll: ready with the number of bytes read into the buffer, or pending while
    /// the pipe is empty.
    pub fn poll<const N: usize>(&mut self, pipe: &mut Pipe<N>) -> (r: Poll<usize>)
        requires
            old(pipe).wf(),
        ensures
            final(pipe).wf(),
            old(pipe).rooms_ok(),
            r is Pending <==> old(pipe)@.len() == 0,
            r is Pending ==> final(pipe)@ == old(pipe)@ && final(self).buf@ == old(self).buf@
                && final(pipe).head() == old(pipe).head(),
            r matches Poll::Ready(n) ==> final(pipe).head() == old(pipe).head_after(n as int),
            r is Pending ==> fifo_step(old(pipe)@, final(pipe)@, Seq::empty(), Seq::empty()),
            r matches Poll::Ready(n) ==> fifo_step(old(pipe)@, final(pipe)@, Seq::empty(), final(self).buf@.subrange(0, n as int)),
            r matches Poll::Ready(n) ==> {
                &&& n == (if old(pipe).read_room() < old(self).buf@.len() {
                    old(pipe).read_room()
                } else {
                    old(self).buf@.len() as int
                })
                &&& (old(self).buf@.len() > 0 ==> n > 0)
                &&& final(self).buf@ == old(pipe)@.subrange(0, n as int) + old(self).buf@.subrange(
                    n as int,
                    old(self).buf@.len() as int,
                )
                &&& final(pipe)@ == old(pipe)@.subrange(n as int, old(pipe)@.len() as int)
            },
    {
        match pipe.try_read(self.buf) {
            Ok(n) => Poll::Ready(n),
            Err(TryReadError::Empty) => Poll::Pending,
        }
    }
}

/// Future returned by [`Pipe::fill_buf`].
pub struct FillBufFuture;

impl FillBufFuture {
    /// One poll: ready with the buffered bytes that come first, or pending while the
    /// pipe is empty.
    pub fn poll<'p, const N: usize>(&self, pipe: &'p Pipe<N>) -> (r: Poll<&'p [u8]>)
        requires
            pipe.wf(),
        ensures
            pipe.rooms_ok(),
            r is Pending <==> pipe@.len() == 0,
            r matches Poll::Ready(s) ==> s@.len() > 0 && s@ == pipe@.subrange(0, pipe.read_room()),
    {
        match pipe.try_fill_buf() {
            Ok(buf) => Poll::Ready(buf),
            Err(TryReadError::Empty) => Poll::Pending,
        }
    }
}

} // verus!
