//! How an executor is told that it has work to do.

use vstd::prelude::*;

verus! {

/// How to wake an executor: the thread executor by the core's local event flag, an
/// interrupt executor by requesting its software interrupt, named by its priority.
#[derive(Clone, Copy, PartialEq, Eq, Debug)]
pub enum Pender {
    ThreadExecutorPender,
    InterruptExecutorPender { sw_interrupt: u8 },
}

} // verus!
