use virtio_devices::rng::{LeakQueue, LEAK_QUEUE_1, LEAK_QUEUE_2, RNG_QUEUE};

#[test]
fn other_swaps_the_two_queues() {
    assert_eq!(LeakQueue::LeakQueue1.other(), LeakQueue::LeakQueue2);
    assert_eq!(LeakQueue::LeakQueue2.other(), LeakQueue::LeakQueue1);
    assert_eq!(LeakQueue::LeakQueue1.other().other(), LeakQueue::LeakQueue1);
}

#[test]
fn leak_queues_follow_the_entropy_queue() {
    assert_eq!(RNG_QUEUE, 0);
    assert_eq!(LeakQueue::LeakQueue1.index(), LEAK_QUEUE_1);
    assert_eq!(LeakQueue::LeakQueue2.index(), LEAK_QUEUE_2);
    assert_eq!(LEAK_QUEUE_1, 1);
    assert_eq!(LEAK_QUEUE_2, 2);
}

#[test]
fn a_leak_queue_converts_to_its_index() {
    assert_eq!(usize::from(&LeakQueue::LeakQueue1), 1);
    assert_eq!(usize::from(&LeakQueue::LeakQueue2), 2);
    assert_eq!(usize::from(LeakQueue::LeakQueue1), LEAK_QUEUE_1);
    assert_eq!(usize::from(LeakQueue::LeakQueue2), LEAK_QUEUE_2);
}
