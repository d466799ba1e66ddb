pub mod blocking_mutex;
pub mod ring_buffer;
pub mod pipe;
pub mod priority_channel;
