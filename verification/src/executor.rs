pub mod base_executor;
pub mod interrupt_executor;
pub mod pender;
pub mod thread_executor;
pub mod yields;

use vstd::prelude::*;

verus! {

/// The outcome of one poll of an operation: done with a value, or to be polled again
/// once something has changed.
#[derive(PartialEq, Eq, Debug)]
pub enum Poll<T> {
    Ready(T),
    Pending,
}

} // verus!
