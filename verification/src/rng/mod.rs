//! The entropy device, its queues and its features.

use vstd::prelude::*;

pub mod device;
pub mod metrics;
pub mod pass;

verus! {

/// Number of queues of the device.
pub const NUM_QUEUES: usize = 3;

/// Number of entries of each queue.
pub const QUEUE_SIZE: u16 = 256;

/// Feature bit of a device that follows version 1 of the virtio standard.
pub const VIRTIO_F_VERSION_1: u32 = 32;

/// Feature bit of a device that reports leaks of entropy on leak queues.
pub const VIRTIO_F_RNG_F_LEAK: u32 = 0;

/// Queue index of the main entropy queue.
pub const RNG_QUEUE: usize = 0;

/// Queue index of the first leak queue.
pub const LEAK_QUEUE_1: usize = 1;

/// Queue index of the second leak queue.
pub const LEAK_QUEUE_2: usize = 2;

/// Tag of one of the two leak queues.
#[derive(Debug, Clone, Copy, PartialEq, Eq, Structural)]
pub enum LeakQueue {
    LeakQueue1,
    LeakQueue2,
}

impl LeakQueue {
    /// The leak queue that `self` is not.
    pub open spec fn spec_other(&self) -> LeakQueue {
        match self {
            LeakQueue::LeakQueue1 => LeakQueue::LeakQueue2,
            LeakQueue::LeakQueue2 => LeakQueue::LeakQueue1,
        }
    }

    /// Index of the queue among the queues of the device.
    pub open spec fn spec_index(&self) -> usize {
        match self {
            LeakQueue::LeakQueue1 => LEAK_QUEUE_1,
            LeakQueue::LeakQueue2 => LEAK_QUEUE_2,
        }
    }

    /// Index of the queue among the queues of the device.
    #[verifier::when_used_as_spec(spec_index)]
    pub fn index(&self) -> (r: usize)
        ensures
            r == self.spec_index(),
    {
        match self {
            LeakQueue::LeakQueue1 => LEAK_QUEUE_1,
            LeakQueue::LeakQueue2 => LEAK_QUEUE_2,
        }
    }

    /// Returns the other leak queue.
    #[verifier::when_used_as_spec(spec_other)]
    pub fn other(&self) -> (r: LeakQueue)
        ensures
            r == self.spec_other(),
    {
        match self {
            LeakQueue::LeakQueue1 => LeakQueue::LeakQueue2,
            LeakQueue::LeakQueue2 => LeakQueue::LeakQueue1,
        }
    }
}

/// The other of the other leak queue is the queue itself, and never the other.
pub proof fn lemma_other_swaps(queue: LeakQueue)
    ensures
        queue.spec_other() != queue,
        queue.spec_other().spec_other() == queue,
        queue.spec_index() != queue.spec_other().spec_index(),
        queue.spec_index() == LEAK_QUEUE_1 || queue.spec_index() == LEAK_QUEUE_2,
{
}

impl From<&LeakQueue> for usize {
    /// Index of the queue among the queues of the device.
    fn from(queue: &LeakQueue) -> (r: usize) {
        match queue {
            LeakQueue::LeakQueue1 => LEAK_QUEUE_1,
            LeakQueue::LeakQueue2 => LEAK_QUEUE_2,
        }
    }
}

impl vstd::std_specs::convert::FromSpecImpl<&LeakQueue> for usize {
    open spec fn obeys_from_spec() -> bool {
        true
    }

    open spec fn from_spec(queue: &LeakQueue) -> usize {
        queue.spec_index()
    }
}

impl From<LeakQueue> for usize {
    /// Index of the queue among the queues of the device.
    fn from(queue: LeakQueue) -> (r: usize) {
        usize::from(&queue)
    }
}

impl vstd::std_specs::convert::FromSpecImpl<LeakQueue> for usize {
    open spec fn obeys_from_spec() -> bool {
        true
    }

    open spec fn from_spec(queue: LeakQueue) -> usize {
        queue.spec_index()
    }
}

} // verus!
