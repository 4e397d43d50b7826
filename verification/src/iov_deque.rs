//! A queue of guest-memory spans with a fixed capacity, whose content is always one
//! contiguous slice.

use crate::iovec::{lemma_total_len_take, total_len, IoVec};
use vstd::prelude::*;
use vstd::slice::slice_subrange;

verus! {

/// Number of spans that an `IovDeque` holds at most: as many as the largest queue has
/// entries.
pub const IOV_DEQUE_CAPACITY: usize = 256;

/// Why an operation on an `IovDeque` failed.
#[derive(Debug, Clone, Copy, PartialEq, Eq, Structural)]
pub enum IovDequeError {
    /// The deque holds as many spans as it can.
    Full,
    /// The deque holds no span.
    Empty,
}

/// A first-in first-out queue of at most 256 spans. The spans live in an array of twice
/// that many slots, of which slot `i` and slot `i + 256` always hold the same span, so that
/// the content `[head, tail)` never wraps.
#[derive(Debug)]
pub struct IovDeque {
    iov: Vec<IoVec>,
    head: usize,
    tail: usize,
}

impl View for IovDeque {
    type V = Seq<IoVec>;

    closed spec fn view(&self) -> Seq<IoVec> {
        self.iov@.subrange(self.head as int, self.tail as int)
    }
}

/// How many spans leave the front of `s` until their lengths add up to `size`: all of them
/// where they never do.
pub open spec fn drop_count(s: Seq<IoVec>, size: int) -> int
    decreases s.len(),
{
    if size <= 0 || s.len() == 0 {
        0
    } else {
        1 + drop_count(s.drop_first(), size - s[0].iov_len)
    }
}

impl IovDeque {
    /// The cursors are in order and at most 256 apart, and the two halves of the array
    /// mirror each other.
    pub closed spec fn wf(&self) -> bool {
        &&& self.iov@.len() == 2 * IOV_DEQUE_CAPACITY
        &&& self.head <= self.tail
        &&& self.tail - self.head <= IOV_DEQUE_CAPACITY
        &&& self.head <= IOV_DEQUE_CAPACITY
        &&& forall|i: int|
            0 <= i < IOV_DEQUE_CAPACITY ==> #[trigger] self.iov@[i] == self.iov@[i
                + IOV_DEQUE_CAPACITY]
    }

    /// An empty deque.
    pub fn new() -> (r: Self)
        ensures
            r.wf(),
            r@.len() == 0,
    {
        let mut iov: Vec<IoVec> = Vec::new();
        let mut i: usize = 0;
        while i < 2 * IOV_DEQUE_CAPACITY
            invariant
                0 <= i <= 2 * IOV_DEQUE_CAPACITY,
                iov@.len() == i,
                forall|j: int| 0 <= j < i ==> iov@[j] == (IoVec { iov_base: 0, iov_len: 0 }),
            decreases 2 * IOV_DEQUE_CAPACITY - i,
        {
            iov.push(IoVec { iov_base: 0, iov_len: 0 });
            i += 1;
        }
        IovDeque { iov, head: 0, tail: 0 }
    }

    /// Number of spans in the deque.
    pub fn len(&self) -> (n: usize)
        requires
            self.wf(),
        ensures
            n == self@.len(),
            n <= IOV_DEQUE_CAPACITY,
    {
        self.tail - self.head
    }

    /// Whether the deque holds no span.
    pub fn is_empty(&self) -> (b: bool)
        requires
            self.wf(),
        ensures
            b == (self@.len() == 0),
    {
        self.head == self.tail
    }

    /// Appends a span, unless the deque is full.
    pub fn push_back(&mut self, iov: IoVec) -> (r: Result<(), IovDequeError>)
        requires
            old(self).wf(),
        ensures
            final(self).wf(),
            old(self)@.len() == IOV_DEQUE_CAPACITY ==> r == Err::<(), IovDequeError>(
                IovDequeError::Full,
            ) && final(self)@ == old(self)@,
            old(self)@.len() < IOV_DEQUE_CAPACITY ==> r is Ok && final(self)@ == old(self)@.push(
                iov,
            ),
    {
        if self.tail - self.head == IOV_DEQUE_CAPACITY {
            return Err(IovDequeError::Full);
        }
        let mirror = if self.tail >= IOV_DEQUE_CAPACITY {
            self.tail - IOV_DEQUE_CAPACITY
        } else {
            self.tail + IOV_DEQUE_CAPACITY
        };
        self.iov.set(self.tail, iov);
        self.iov.set(mirror, iov);
        self.tail += 1;
        proof {
            assert(self@ =~= old(self)@.push(iov));
        }
        Ok(())
    }

    /// Takes the oldest span out, unless the deque is empty.
    pub fn pop_front(&mut self) -> (r: Result<IoVec, IovDequeError>)
        requires
            old(self).wf(),
        ensures
            final(self).wf(),
            old(self)@.len() == 0 ==> r == Err::<IoVec, IovDequeError>(IovDequeError::Empty)
                && final(self)@ == old(self)@,
            old(self)@.len() > 0 ==> r == Ok::<IoVec, IovDequeError>(old(self)@[0])
                && final(self)@ == old(self)@.drop_first(),
    {
        if self.is_empty() {
            return Err(IovDequeError::Empty);
        }
        let iov = self.iov[self.head];
        self.head += 1;
        if self.head > IOV_DEQUE_CAPACITY {
            self.head -= IOV_DEQUE_CAPACITY;
            self.tail -= IOV_DEQUE_CAPACITY;
        }
        proof {
            assert(self@ =~= old(self)@.drop_first());
        }
        Ok(iov)
    }

    /// Forgets all spans.
    pub fn clear(&mut self)
        requires
            old(self).wf(),
        ensures
            final(self).wf(),
            final(self)@.len() == 0,
    {
        self.head = 0;
        self.tail = 0;
    }

    /// Takes spans out at the front until their lengths add up to `size` or more, and
    /// returns the sum of their lengths. Where the spans of the deque do not add up to `size`,
    /// all of them leave and 0 is returned.
    pub fn drop_iovs(&mut self, size: usize) -> (dropped: usize)
        requires
            old(self).wf(),
            total_len(old(self)@) <= usize::MAX,
        ensures
            final(self).wf(),
            final(self)@ == old(self)@.skip(drop_count(old(self)@, size as int)),
            total_len(old(self)@) >= size ==> dropped == total_len(
                old(self)@.take(drop_count(old(self)@, size as int)),
            ),
            total_len(old(self)@) < size ==> dropped == 0 && final(self)@.len() == 0,
    {
        let mut dropped: usize = 0;
        let ghost mut k: int = 0;
        proof {
            assert(self@.skip(0) == self@);
            assert(total_len(self@.take(0)) == 0);
        }
        while dropped < size
            invariant
                self.wf(),
                0 <= k <= old(self)@.len(),
                self@ == old(self)@.skip(k),
                dropped == total_len(old(self)@.take(k)),
                total_len(old(self)@) <= usize::MAX,
                drop_count(old(self)@, size as int) == k + drop_count(self@, size - dropped),
            decreases old(self)@.len() - k,
        {
            if self.is_empty() {
                proof {
                    assert(old(self)@.take(k) == old(self)@);
                }
                return 0;
            }
            let iov = match self.pop_front() {
                Ok(iov) => iov,
                Err(_) => {
                    return 0;
                },
            };
            proof {
                lemma_total_len_take(old(self)@, k + 1);
                assert(old(self)@.take(k + 1).drop_last() == old(self)@.take(k));
                assert(old(self)@.skip(k).drop_first() == old(self)@.skip(k + 1));
                k = k + 1;
            }
            dropped += iov.iov_len;
        }
        proof {
            lemma_total_len_take(old(self)@, k);
        }
        dropped
    }

    /// The spans of the deque, oldest first, as one slice. The slice is shared: the deque
    /// keeps each span twice in its array, and a change through the slice would not reach
    /// the second one.
    pub fn as_mut_slice(&mut self) -> (r: &[IoVec])
        requires
            old(self).wf(),
        ensures
            r@ == old(self)@,
            *final(self) == *old(self),
    {
        slice_subrange(self.iov.as_slice(), self.head, self.tail)
    }
}

} // verus!
