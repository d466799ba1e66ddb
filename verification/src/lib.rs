//! The kernel of a small cooperative and preemptive executor runtime for one core:
//! the heap's hole list, the byte pipe, the timer and alarm queues, the scheduling state
//! of the executors, the kernel's tick and event state, and the stack resource policy
//! mutex, each with its contract.

pub mod bounded;
pub mod cpu;
pub mod executor;
pub mod memory;
pub mod srp_mutex;
pub mod sync;
pub mod time;
