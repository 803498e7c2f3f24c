//! Device-side state the kernel keeps: the queues of input events.
pub mod input;
