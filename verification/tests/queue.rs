use virtio_devices::queue::{Descriptor, DescriptorChain, Queue, QueueError, UsedElem};

fn chain(index: u16) -> DescriptorChain {
    DescriptorChain::new(index, vec![Descriptor { addr: 0, len: u32::from(index), flags: 0 }])
        .unwrap()
}

#[test]
fn chains_come_out_in_the_order_they_went_in() {
    let mut queue = Queue::new(4);
    assert_eq!(queue.size(), 4);
    assert!(queue.pop().is_none());
    for i in 0..4 {
        assert_eq!(queue.add_chain(chain(i)), Ok(()));
    }
    assert_eq!(queue.add_chain(chain(9)), Err(QueueError::AvailRingFull));
    for i in 0..4 {
        let head = queue.pop().unwrap();
        assert_eq!(head.index(), i);
        assert_eq!(head.get(0).len, u32::from(i));
    }
    assert!(queue.pop().is_none());
}

#[test]
fn undo_pop_hands_the_same_chain_out_again() {
    let mut queue = Queue::new(4);
    // Nothing was taken: nothing happens.
    queue.undo_pop();
    assert!(queue.pop().is_none());

    queue.add_chain(chain(1)).unwrap();
    queue.add_chain(chain(2)).unwrap();
    assert_eq!(queue.pop().unwrap().index(), 1);
    queue.undo_pop();
    assert_eq!(queue.pop().unwrap().index(), 1);
    assert_eq!(queue.pop().unwrap().index(), 2);
    queue.undo_pop();
    assert_eq!(queue.pop().unwrap().index(), 2);
    assert!(queue.pop().is_none());
}

#[test]
fn the_used_ring_takes_as_many_completions_as_the_queue_has_entries() {
    let mut queue = Queue::new(2);
    assert_eq!(queue.add_used(7, 70), Ok(()));
    assert_eq!(queue.add_used(8, 80), Ok(()));
    assert_eq!(queue.add_used(9, 90), Err(QueueError::UsedRingFull));
    assert_eq!(
        queue.take_used(),
        vec![UsedElem { id: 7, len: 70 }, UsedElem { id: 8, len: 80 }]
    );
    assert_eq!(queue.take_used(), Vec::new());
    assert_eq!(queue.add_used(9, 90), Ok(()));
    assert_eq!(queue.take_used(), vec![UsedElem { id: 9, len: 90 }]);
}

#[test]
fn a_copy_of_a_chain_holds_the_same_descriptors() {
    let descriptors = vec![
        Descriptor { addr: 1, len: 2, flags: 0 },
        Descriptor { addr: 3, len: 4, flags: 2 },
    ];
    let chain = DescriptorChain::new(11, descriptors.clone()).unwrap();
    let copy = chain.duplicate();
    assert_eq!(copy.index(), 11);
    assert_eq!(copy.len(), 2);
    assert_eq!(copy.get(0), descriptors[0]);
    assert_eq!(copy.get(1), descriptors[1]);
    assert!(!copy.is_write_only());
}
