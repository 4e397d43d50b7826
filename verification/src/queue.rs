//! Descriptor chains and the virtqueue that hands them out and takes completions back.

use vstd::prelude::*;

verus! {

/// Flag of a descriptor that the device may only write to.
pub const VIRTQ_DESC_F_WRITE: u16 = 0x2;

/// The largest number of entries a queue may have.
pub const MAX_QUEUE_SIZE: u16 = 256;

/// One descriptor: a span of guest memory and its flags.
#[derive(Debug, Clone, Copy, PartialEq, Eq, Structural)]
pub struct Descriptor {
    pub addr: u64,
    pub len: u32,
    pub flags: u16,
}

impl Descriptor {
    /// Whether the write flag is set.
    pub open spec fn spec_is_write_only(&self) -> bool {
        self.flags & VIRTQ_DESC_F_WRITE != 0
    }

    /// Whether the device may only write to the span.
    #[verifier::when_used_as_spec(spec_is_write_only)]
    pub fn is_write_only(&self) -> (b: bool)
        ensures
            b == self.spec_is_write_only(),
    {
        self.flags & VIRTQ_DESC_F_WRITE != 0
    }
}

/// Number of bytes that a list of descriptors spans.
pub open spec fn chain_len(descriptors: Seq<Descriptor>) -> int
    decreases descriptors.len(),
{
    if descriptors.len() == 0 {
        0
    } else {
        chain_len(descriptors.drop_last()) + descriptors.last().len
    }
}

/// A list of descriptors spans no negative number of bytes.
pub proof fn lemma_chain_len_nonneg(descriptors: Seq<Descriptor>)
    ensures
        chain_len(descriptors) >= 0,
    decreases descriptors.len(),
{
    if descriptors.len() > 0 {
        lemma_chain_len_nonneg(descriptors.drop_last());
    }
}

/// A prefix of a list of descriptors spans no more bytes than the list.
pub proof fn lemma_chain_len_take(descriptors: Seq<Descriptor>, n: int)
    requires
        0 <= n <= descriptors.len(),
    ensures
        0 <= chain_len(descriptors.take(n)) <= chain_len(descriptors),
    decreases descriptors.len() - n,
{
    lemma_chain_len_nonneg(descriptors.take(n));
    if n < descriptors.len() {
        lemma_chain_len_take(descriptors, n + 1);
        assert(descriptors.take(n + 1).drop_last() == descriptors.take(n));
    } else {
        assert(descriptors.take(n) == descriptors);
    }
}

/// What a descriptor chain holds.
pub struct ChainView {
    pub index: u16,
    pub descriptors: Seq<Descriptor>,
}

impl ChainView {
    /// A chain has a head, and its spans fit in `usize` together.
    pub open spec fn wf(self) -> bool {
        self.descriptors.len() >= 1 && chain_len(self.descriptors) <= usize::MAX
    }
}

/// One request of the driver: the descriptors of a chain in order, and the index of its head.
#[derive(Debug)]
pub struct DescriptorChain {
    index: u16,
    descriptors: Vec<Descriptor>,
}

impl View for DescriptorChain {
    type V = ChainView;

    closed spec fn view(&self) -> ChainView {
        ChainView { index: self.index, descriptors: self.descriptors@ }
    }
}

impl DescriptorChain {
    /// Whether the chain is well formed.
    pub open spec fn wf(&self) -> bool {
        self@.wf()
    }

    /// Makes a chain of the given descriptors. There is none of an empty list, nor of one
    /// whose spans do not fit in `usize` together.
    pub fn new(index: u16, descriptors: Vec<Descriptor>) -> (r: Option<DescriptorChain>)
        ensures
            r is Some <==> (ChainView { index, descriptors: descriptors@ }).wf(),
            r matches Some(chain) ==> chain@ == (ChainView { index, descriptors: descriptors@ })
                && chain.wf(),
    {
        if descriptors.len() == 0 {
            return None;
        }
        let mut total: usize = 0;
        let mut i: usize = 0;
        while i < descriptors.len()
            invariant
                0 <= i <= descriptors.len(),
                total == chain_len(descriptors@.take(i as int)),
            decreases descriptors.len() - i,
        {
            proof {
                assert(descriptors@.take(i + 1).drop_last() == descriptors@.take(i as int));
                lemma_chain_len_take(descriptors@, i + 1);
            }
            match total.checked_add(descriptors[i].len as usize) {
                Some(sum) => {
                    total = sum;
                },
                None => {
                    return None;
                },
            }
            i += 1;
        }
        assert(descriptors@.take(i as int) == descriptors@);
        Some(DescriptorChain { index, descriptors })
    }

    /// Index of the head descriptor, by which the chain is reported back.
    pub fn index(&self) -> (i: u16)
        ensures
            i == self@.index,
    {
        self.index
    }

    /// Number of descriptors.
    pub fn len(&self) -> (n: usize)
        ensures
            n == self@.descriptors.len(),
    {
        self.descriptors.len()
    }

    /// The `i`-th descriptor.
    pub fn get(&self, i: usize) -> (d: Descriptor)
        requires
            i < self@.descriptors.len(),
        ensures
            d == self@.descriptors[i as int],
    {
        self.descriptors[i]
    }

    /// Whether the head descriptor is write-only.
    pub fn is_write_only(&self) -> (b: bool)
        requires
            self.wf(),
        ensures
            b == self@.descriptors[0].spec_is_write_only(),
    {
        self.descriptors[0].is_write_only()
    }

    /// A copy of the chain.
    pub fn duplicate(&self) -> (r: DescriptorChain)
        ensures
            r@ == self@,
    {
        let mut descriptors: Vec<Descriptor> = Vec::new();
        let mut i: usize = 0;
        while i < self.descriptors.len()
            invariant
                0 <= i <= self.descriptors.len(),
                descriptors@ == self.descriptors@.take(i as int),
            decreases self.descriptors.len() - i,
        {
            descriptors.push(self.descriptors[i]);
            i += 1;
        }
        assert(self.descriptors@.take(i as int) == self.descriptors@);
        DescriptorChain { index: self.index, descriptors }
    }
}

/// Why a completion could not be posted.
#[derive(Debug, Clone, Copy, PartialEq, Eq, Structural)]
pub enum QueueError {
    /// The used ring holds as many completions as the queue has entries.
    UsedRingFull,
    /// The available ring holds as many chains as the queue has entries.
    AvailRingFull,
}

/// A completion: the index of a chain's head and the number of bytes written to the chain.
#[derive(Debug, Clone, Copy, PartialEq, Eq, Structural)]
pub struct UsedElem {
    pub id: u16,
    pub len: u32,
}

/// What a queue holds.
pub struct QueueView {
    /// Number of entries of each ring.
    pub size: u16,
    /// The chains that the driver made available, in ring order.
    pub avail: Seq<ChainView>,
    /// Number of chains, from the front of `avail`, that the device has taken.
    pub next: int,
    /// The completions that the device posted, in ring order.
    pub used: Seq<UsedElem>,
}

impl QueueView {
    /// The chains that the device has not taken yet.
    pub open spec fn pending(self) -> Seq<ChainView> {
        self.avail.skip(self.next)
    }

    /// The rings hold no more than the queue's size, and every chain is well formed.
    pub open spec fn wf(self) -> bool {
        &&& 0 <= self.next <= self.avail.len()
        &&& self.avail.len() - self.next <= self.size
        &&& self.used.len() <= self.size
        &&& forall|i: int| 0 <= i < self.avail.len() ==> (#[trigger] self.avail[i]).wf()
    }

    /// The queue after the device took the next chain.
    pub open spec fn popped(self) -> QueueView {
        QueueView { next: self.next + 1, ..self }
    }

    /// The queue after the device gave the chain that it took last back: unchanged where it
    /// took none, or where the ring has no room for the chain.
    pub open spec fn unpopped(self) -> QueueView {
        if self.next > 0 && self.pending().len() < self.size {
            QueueView { next: self.next - 1, ..self }
        } else {
            self
        }
    }

    /// The queue after a completion was posted.
    pub open spec fn with_used(self, id: u16, len: u32) -> QueueView {
        QueueView { used: self.used.push(UsedElem { id, len }), ..self }
    }
}

/// A virtqueue as the device sees it: the chains that the driver made available, of which
/// the device takes the next one, and the completions that the device posts.
#[derive(Debug)]
pub struct Queue {
    size: u16,
    avail: Vec<DescriptorChain>,
    next_avail: usize,
    used: Vec<UsedElem>,
}

impl View for Queue {
    type V = QueueView;

    closed spec fn view(&self) -> QueueView {
        QueueView {
            size: self.size,
            avail: self.avail@.map_values(|c: DescriptorChain| c@),
            next: self.next_avail as int,
            used: self.used@,
        }
    }
}

impl Queue {
    /// Whether the queue is well formed.
    pub open spec fn wf(&self) -> bool {
        self@.wf()
    }

    /// A queue with empty rings of `size` entries.
    pub fn new(size: u16) -> (r: Self)
        ensures
            r.wf(),
            r@ == (QueueView { size, avail: Seq::empty(), next: 0, used: Seq::empty() }),
    {
        let r = Queue { size, avail: Vec::new(), next_avail: 0, used: Vec::new() };
        assert(r@.avail =~= Seq::empty());
        r
    }

    /// Number of entries of each ring.
    pub fn size(&self) -> (n: u16)
        ensures
            n == self@.size,
    {
        self.size
    }

    /// Makes a chain available to the device, as the driver does, unless the ring is full.
    /// Chains that the device took before the ring ran empty are forgotten.
    pub fn add_chain(&mut self, chain: DescriptorChain) -> (r: Result<(), QueueError>)
        requires
            old(self).wf(),
            chain.wf(),
        ensures
            final(self).wf(),
            final(self)@.size == old(self)@.size,
            final(self)@.used == old(self)@.used,
            old(self)@.pending().len() == old(self)@.size ==> r == Err::<(), QueueError>(
                QueueError::AvailRingFull,
            ) && final(self)@ == old(self)@,
            old(self)@.pending().len() < old(self)@.size ==> r is Ok && final(self)@.pending()
                == old(self)@.pending().push(chain@),
    {
        if self.avail.len() - self.next_avail >= self.size as usize {
            return Err(QueueError::AvailRingFull);
        }
        if self.next_avail == self.avail.len() {
            self.avail.clear();
            self.next_avail = 0;
        }
        let ghost kept = self@.avail;
        assert(forall|i: int| 0 <= i < kept.len() ==> (#[trigger] kept[i]).wf()) by {
            assert(kept.len() == 0 || kept == old(self)@.avail);
        }
        self.avail.push(chain);
        proof {
            assert(self@.avail =~= kept.push(chain@));
            assert(self@.pending() =~= old(self)@.pending().push(chain@));
        }
        Ok(())
    }

    /// Takes the next chain, if the driver made one available.
    pub fn pop(&mut self) -> (r: Option<DescriptorChain>)
        requires
            old(self).wf(),
        ensures
            final(self).wf(),
            old(self)@.pending().len() == 0 ==> r is None && final(self)@ == old(self)@,
            old(self)@.pending().len() > 0 ==> final(self)@ == old(self)@.popped() && (
            r matches Some(chain) && chain@ == old(self)@.pending()[0] && chain.wf()),
    {
        if self.next_avail == self.avail.len() {
            return None;
        }
        let chain = self.avail[self.next_avail].duplicate();
        self.next_avail += 1;
        proof {
            assert(chain@ == old(self)@.avail[old(self)@.next]);
        }
        Some(chain)
    }

    /// Gives the chain that was taken last back, so that the next `pop` hands it out
    /// again. Nothing happens where no chain was taken.
    pub fn undo_pop(&mut self)
        requires
            old(self).wf(),
        ensures
            final(self).wf(),
            final(self)@ == old(self)@.unpopped(),
    {
        if self.next_avail > 0 && self.avail.len() - self.next_avail < self.size as usize {
            self.next_avail -= 1;
        }
    }

    /// Posts the completion of the chain with head `desc_index`, unless the used ring is
    /// full.
    pub fn add_used(&mut self, desc_index: u16, len: u32) -> (r: Result<(), QueueError>)
        requires
            old(self).wf(),
        ensures
            final(self).wf(),
            old(self)@.used.len() == old(self)@.size ==> r == Err::<(), QueueError>(
                QueueError::UsedRingFull,
            ) && final(self)@ == old(self)@,
            old(self)@.used.len() < old(self)@.size ==> r is Ok
                && final(self)@ == old(self)@.with_used(desc_index, len),
    {
        if self.used.len() >= self.size as usize {
            return Err(QueueError::UsedRingFull);
        }
        self.used.push(UsedElem { id: desc_index, len });
        Ok(())
    }

    /// Takes all completions out of the used ring, as the driver does.
    pub fn take_used(&mut self) -> (r: Vec<UsedElem>)
        requires
            old(self).wf(),
        ensures
            final(self).wf(),
            r@ == old(self)@.used,
            final(self)@ == (QueueView { used: Seq::empty(), ..old(self)@ }),
    {
        let mut taken: Vec<UsedElem> = Vec::new();
        std::mem::swap(&mut taken, &mut self.used);
        taken
    }
}

} // verus!
