//! Device emulation over guest memory: scatter/gather buffers parsed from descriptor chains,
//! a fixed-capacity deque of their spans, the entropy device with its rate limiter and leak
//! queues, and the allocation of interrupt lines.

pub mod device;
pub mod guest_memory;
pub mod iov_deque;
pub mod iovec;
pub mod layout;
pub mod pmem;
pub mod queue;
pub mod rate_limiter;
pub mod resources;
pub mod rng;
