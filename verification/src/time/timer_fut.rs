//! A future that completes once a tick has been reached.

use vstd::prelude::*;
use crate::executor::Poll;

verus! {

/// Completes at tick `expires_at`.
pub struct Timer {
    expires_at: u64,
}

impl Timer {
    /// The tick the timer completes at.
    pub closed spec fn deadline(&self) -> u64 {
        self.expires_at
    }

    /// A timer that completes `ticks` ticks after the tick `now`.
    pub fn after_ticks(now: u64, ticks: u64) -> (r: Self)
        requires
            now + ticks <= u64::MAX,
        ensures
            r.deadline() == now + ticks,
    {
        Self { expires_at: now + ticks }
    }

    /// The tick the timer completes at.
    pub fn expires_at(&self) -> (r: u64)
        ensures
            r == self.deadline(),
    {
        self.expires_at
    }

    /// One poll at tick `now`: ready once the deadline has been reached; otherwise
    /// pending, when the caller records the deadline as the tick to wake the polled task at.
    pub fn poll(&self, now: u64) -> (r: Poll<()>)
        ensures
            r == (if self.deadline() <= now {
                Poll::<()>::Ready(())
            } else {
                Poll::<()>::Pending
            }),
    {
        if self.expires_at <= now {
            Poll::Ready(())
        } else {
            Poll::Pending
        }
    }
}

} // verus!
