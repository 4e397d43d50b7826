use virtio_devices::iov_deque::{IovDeque, IovDequeError};
use virtio_devices::iovec::IoVec;

#[test]
fn iov_deque_test_new() {
    let iov = IovDeque::new();
    assert!(iov.is_empty());
}

fn make_iovec(seed: usize) -> IoVec {
    IoVec { iov_base: seed as u64, iov_len: seed }
}

#[test]
fn test_push_back() {
    let mut iov = IovDeque::new();
    assert!(iov.is_empty());

    for i in 0usize..256 {
        iov.push_back(make_iovec(i)).unwrap();
        assert_eq!(iov.len(), i + 1);
    }

    assert!(matches!(iov.push_back(make_iovec(0)), Err(IovDequeError::Full)));
}

#[test]
fn test_pop() {
    let mut deque = IovDeque::new();
    assert!(deque.is_empty());

    assert!(matches!(deque.pop_front(), Err(IovDequeError::Empty)));

    for i in 0usize..256 {
        deque.push_back(make_iovec(i)).unwrap();
        assert_eq!(deque.len(), i + 1);
    }

    for i in 0usize..256 {
        let iov = deque.pop_front().unwrap();
        assert_eq!(iov.iov_base, i as u64);
        assert_eq!(iov.iov_len, i);
    }
}

#[test]
fn the_content_is_one_slice_across_the_wrap() {
    let mut deque = IovDeque::new();
    let mut next_in = 0usize;
    let mut next_out = 0usize;
    // Keep 200 spans in the deque while 2000 pass through it.
    for _ in 0..200 {
        deque.push_back(make_iovec(next_in)).unwrap();
        next_in += 1;
    }
    for _ in 0..2000 {
        let iov = deque.pop_front().unwrap();
        assert_eq!(iov, make_iovec(next_out));
        next_out += 1;
        deque.push_back(make_iovec(next_in)).unwrap();
        next_in += 1;

        assert_eq!(deque.len(), 200);
        let slice = deque.as_mut_slice();
        assert_eq!(slice.len(), 200);
        for (i, iov) in slice.iter().enumerate() {
            assert_eq!(*iov, make_iovec(next_out + i));
        }
    }
}

#[test]
fn a_full_deque_wraps_too() {
    let mut deque = IovDeque::new();
    for i in 0usize..256 {
        deque.push_back(make_iovec(i)).unwrap();
    }
    for i in 256usize..1000 {
        assert_eq!(deque.push_back(make_iovec(0)), Err(IovDequeError::Full));
        assert_eq!(deque.pop_front(), Ok(make_iovec(i - 256)));
        assert_eq!(deque.push_back(make_iovec(i)), Ok(()));
        assert_eq!(deque.len(), 256);
        let slice = deque.as_mut_slice();
        assert_eq!(slice[0], make_iovec(i - 255));
        assert_eq!(slice[255], make_iovec(i));
    }
}

#[test]
fn clear_forgets_everything() {
    let mut deque = IovDeque::new();
    for i in 0usize..10 {
        deque.push_back(make_iovec(i)).unwrap();
    }
    deque.clear();
    assert!(deque.is_empty());
    assert_eq!(deque.len(), 0);
    assert_eq!(deque.as_mut_slice().len(), 0);
    assert_eq!(deque.pop_front(), Err(IovDequeError::Empty));
    deque.push_back(make_iovec(7)).unwrap();
    assert_eq!(deque.as_mut_slice(), &[make_iovec(7)][..]);
}

#[test]
fn drop_iovs_pops_until_the_size_is_reached() {
    let mut deque = IovDeque::new();
    for len in [10usize, 20, 30, 40] {
        deque.push_back(IoVec { iov_base: 0, iov_len: len }).unwrap();
    }
    // Nothing to drop.
    assert_eq!(deque.drop_iovs(0), 0);
    assert_eq!(deque.len(), 4);
    // The first span is enough.
    assert_eq!(deque.drop_iovs(10), 10);
    assert_eq!(deque.len(), 3);
    // One byte more than the next span takes the one after it too.
    assert_eq!(deque.drop_iovs(21), 50);
    assert_eq!(deque.len(), 1);
    assert_eq!(deque.as_mut_slice(), &[IoVec { iov_base: 0, iov_len: 40 }][..]);
    // More than there is: everything leaves, and 0 is reported.
    assert_eq!(deque.drop_iovs(41), 0);
    assert!(deque.is_empty());
    assert_eq!(deque.drop_iovs(1), 0);
}
