//! The bookkeeping of a ring buffer of `N` slots: where the stored bytes start and end.

use vstd::prelude::*;

verus! {

/// The positions of a ring buffer of `N` slots: the stored bytes run from `start` to
/// `end`, wrapping around the end of the buffer; `full` tells a full buffer from an
/// empty one when the two positions meet.
pub(crate) struct RingBuffer<const N: usize> {
    pub(crate) start: usize,
    pub(crate) end: usize,
    pub(crate) full: bool,
}

impl<const N: usize> RingBuffer<N> {
    /// Positions lie inside the buffer, and a full buffer has meeting positions.
    pub(crate) open spec fn wf(&self) -> bool {
        &&& N == 0 ==> self.start == 0 && self.end == 0 && !self.full
        &&& N > 0 ==> self.start < N && self.end < N
        &&& self.full ==> self.start == self.end
    }

    /// No byte is stored.
    pub(crate) open spec fn empty_spec(&self) -> bool {
        self.start == self.end && !self.full
    }

    /// The number of stored bytes.
    pub(crate) open spec fn len_spec(&self) -> int {
        if self.empty_spec() {
            0
        } else if self.start < self.end {
            self.end - self.start
        } else {
            N - self.start + self.end
        }
    }

    /// The stored bytes of `buf`, oldest first.
    pub(crate) open spec fn contents(&self, buf: Seq<u8>) -> Seq<u8> {
        if self.empty_spec() {
            Seq::empty()
        } else if self.start < self.end {
            buf.subrange(self.start as int, self.end as int)
        } else {
            buf.subrange(self.start as int, N as int) + buf.subrange(0, self.end as int)
        }
    }

    /// The free slots that follow the stored bytes without wrapping.
    pub(crate) open spec fn push_range(&self) -> (int, int) {
        if self.full {
            (0, 0)
        } else if self.start <= self.end {
            (self.end as int, N as int)
        } else {
            (self.end as int, self.start as int)
        }
    }

    /// The stored bytes that come first without wrapping.
    pub(crate) open spec fn pop_range(&self) -> (int, int) {
        if self.empty_spec() {
            (0, 0)
        } else if self.end <= self.start {
            (self.start as int, N as int)
        } else {
            (self.start as int, self.end as int)
        }
    }

    /// An empty ring buffer.
    pub(crate) fn new() -> (r: Self)
        ensures
            r.wf(),
            r.empty_spec(),
            r.start == 0,
            r.end == 0,
    {
        RingBuffer { start: 0, end: 0, full: false }
    }

    /// The range of free slots that follow the stored bytes without wrapping.
    pub(crate) fn push_buf(&self) -> (r: (usize, usize))
        requires
            self.wf(),
        ensures
            r.0 == self.push_range().0,
            r.1 == self.push_range().1,
    {
        if self.is_full() {
            return (0, 0);
        }
        let end = if self.start <= self.end {
            N
        } else {
            self.start
        };
        (self.end, end)
    }

    /// Marks the first `n` slots of `push_buf` as stored.
    pub(crate) fn push(&mut self, n: usize)
        requires
            old(self).wf(),
            n <= old(self).push_range().1 - old(self).push_range().0,
        ensures
            final(self).wf(),
            final(self).start == old(self).start,
            n > 0 ==> !final(self).empty_spec(),
            final(self).len_spec() == old(self).len_spec() + n,
            forall|buf: Seq<u8>|
                buf.len() == N ==> #[trigger] final(self).contents(buf) == old(self).contents(buf)
                    + buf.subrange(old(self).end as int, old(self).end + n),
    {
        if n == 0 {
            assert forall|buf: Seq<u8>| buf.len() == N implies #[trigger] self.contents(buf)
                == old(self).contents(buf) + buf.subrange(old(self).end as int, old(self).end + n) by {
                assert(self.contents(buf) =~= old(self).contents(buf) + buf.subrange(
                    old(self).end as int,
                    old(self).end + n,
                ));
            }
            return ;
        }
        self.end = self.wrap(self.end + n);
        self.full = self.start == self.end;
        assert forall|buf: Seq<u8>| buf.len() == N implies #[trigger] self.contents(buf)
            == old(self).contents(buf) + buf.subrange(old(self).end as int, old(self).end + n) by {
            assert(self.contents(buf) =~= old(self).contents(buf) + buf.subrange(
                old(self).end as int,
                old(self).end + n,
            ));
        }
    }

    /// The range of stored bytes that come first without wrapping.
    pub(crate) fn pop_buf(&self) -> (r: (usize, usize))
        requires
            self.wf(),
        ensures
            r.0 == self.pop_range().0,
            r.1 == self.pop_range().1,
    {
        if self.is_empty() {
            return (0, 0);
        }
        let end = if self.end <= self.start {
            N
        } else {
            self.end
        };
        (self.start, end)
    }

    /// Drops the first `n` stored bytes.
    pub(crate) fn pop(&mut self, n: usize)
        requires
            old(self).wf(),
            n <= old(self).pop_range().1 - old(self).pop_range().0,
        ensures
            final(self).wf(),
            final(self).end == old(self).end,
            final(self).len_spec() == old(self).len_spec() - n,
            forall|buf: Seq<u8>|
                buf.len() == N ==> #[trigger] final(self).contents(buf) == old(self).contents(
                    buf,
                ).subrange(n as int, old(self).len_spec()),
    {
        if n == 0 {
            assert forall|buf: Seq<u8>| buf.len() == N implies #[trigger] self.contents(buf)
                == old(self).contents(buf).subrange(n as int, old(self).len_spec()) by {
                assert(self.contents(buf) =~= old(self).contents(buf).subrange(
                    n as int,
                    old(self).len_spec(),
                ));
            }
            return ;
        }
        self.start = self.wrap(self.start + n);
        self.full = false;
        assert forall|buf: Seq<u8>| buf.len() == N implies #[trigger] self.contents(buf)
            == old(self).contents(buf).subrange(n as int, old(self).len_spec()) by {
            assert(self.contents(buf) =~= old(self).contents(buf).subrange(
                n as int,
                old(self).len_spec(),
            ));
        }
    }

    /// Whether every slot is stored.
    pub(crate) fn is_full(&self) -> (r: bool)
        ensures
            r == self.full,
    {
        self.full
    }

    /// Whether no byte is stored.
    pub(crate) fn is_empty(&self) -> (r: bool)
        ensures
            r == self.empty_spec(),
    {
        self.start == self.end && !self.full
    }

    /// The number of stored bytes.
    pub(crate) fn len(&self) -> (r: usize)
        requires
            self.wf(),
        ensures
            r == self.len_spec(),
    {
        if self.is_empty() {
            0
        } else if self.start < self.end {
            self.end - self.start
        } else {
            N - self.start + self.end
        }
    }

    /// Drops every stored byte.
    pub(crate) fn clear(&mut self)
        ensures
            final(self).wf(),
            final(self).empty_spec(),
            final(self).start == 0,
            final(self).end == 0,
    {
        self.start = 0;
        self.end = 0;
        self.full = false;
    }

    /// A position `n` in `[0, N]`, with `N` wrapped around to the start.
    fn wrap(&self, n: usize) -> (r: usize)
        requires
            n <= N,
        ensures
            r == (if n == N { 0 } else { n }),
    {
        if n == N {
            0
        } else {
            n
        }
    }
}

} // verus!
