pub mod timer;
pub mod timer_fut;
pub mod timer_queue;
