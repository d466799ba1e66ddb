//! A future that gives the other tasks one turn.

use vstd::prelude::*;
use crate::executor::Poll;

verus! {

/// Yields once: the first poll wakes the task again and is pending, the next is ready.
pub struct Yielder {
    yielded: bool,
}

impl Yielder {
    /// Whether the task has yielded already.
    pub closed spec fn has_yielded(&self) -> bool {
        self.yielded
    }

    /// A yielder that has not yielded yet.
    pub fn new() -> (r: Self)
        ensures
            !r.has_yielded(),
    {
        Self { yielded: false }
    }

    /// One poll: pending the first time, when the caller wakes the task at once so that
    /// it runs again at its next turn; ready every time after.
    pub fn poll(&mut self) -> (r: Poll<()>)
        ensures
            old(self).has_yielded() ==> r == Poll::<()>::Ready(()),
            !old(self).has_yielded() ==> r is Pending,
            final(self).has_yielded(),
    {
        if self.yielded {
            Poll::Ready(())
        } else {
            self.yielded = true;
            Poll::Pending
        }
    }
}

} // verus!
