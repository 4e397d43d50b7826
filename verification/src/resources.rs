//! Allocation of interrupt lines to devices.

use crate::layout::{IRQ_BASE, IRQ_MAX};
use vstd::prelude::*;

verus! {

/// `vm_allocator::IdAllocator`: hands out the ids of a range, each to one holder at a time.
#[verifier::external_type_specification]
#[verifier::external_body]
pub struct ExIdAllocator(vm_allocator::IdAllocator);

/// The ids that are allocated from an allocator.
pub uninterp spec fn allocated_ids(allocator: vm_allocator::IdAllocator) -> Set<u32>;

/// The first and the last id of the range that an allocator was made for.
pub uninterp spec fn id_range(allocator: vm_allocator::IdAllocator) -> (u32, u32);

/// Whether `id` is the smallest id in `[base, end]` that is not in `allocated`.
pub open spec fn is_smallest_free(base: u32, end: u32, allocated: Set<u32>, id: u32) -> bool {
    &&& base <= id <= end
    &&& !allocated.contains(id)
    &&& forall|other: u32| base <= other < id ==> #[trigger] allocated.contains(other)
}

/// Whether every id in `[base, end]` is in `allocated`.
pub open spec fn none_free(base: u32, end: u32, allocated: Set<u32>) -> bool {
    forall|id: u32| base <= id <= end ==> #[trigger] allocated.contains(id)
}

/// `IdAllocator::new` makes an allocator for a range that is not empty, with no id
/// allocated. Its error is dropped.
#[verifier::external_body]
fn new_id_allocator(base: u32, end: u32) -> (r: Option<vm_allocator::IdAllocator>)
    ensures
        r is Some <==> base <= end,
        r matches Some(allocator) ==> allocated_ids(allocator) == Set::<u32>::empty() && id_range(
            allocator,
        ) == (base, end),
{
    vm_allocator::IdAllocator::new(base, end).ok()
}

/// `IdAllocator::allocate_id` hands out an id that was freed before if there is one, the
/// smallest of them, and else the next id that was never handed out: either way the smallest
/// id of the range that is not allocated. It fails where every id of the range is allocated;
/// its error is dropped.
#[verifier::external_body]
fn allocate_id(allocator: &mut vm_allocator::IdAllocator) -> (r: Option<u32>)
    ensures
        id_range(*final(allocator)) == id_range(*old(allocator)),
        match r {
            Some(id) => is_smallest_free(
                id_range(*old(allocator)).0,
                id_range(*old(allocator)).1,
                allocated_ids(*old(allocator)),
                id,
            ) && allocated_ids(*final(allocator)) == allocated_ids(*old(allocator)).insert(id),
            None => none_free(
                id_range(*old(allocator)).0,
                id_range(*old(allocator)).1,
                allocated_ids(*old(allocator)),
            ) && allocated_ids(*final(allocator)) == allocated_ids(*old(allocator)),
        },
{
    allocator.allocate_id().ok()
}

/// `IdAllocator::free_id` releases `id` and hands it back, where it is allocated. It fails
/// where `id` is outside the range, was never handed out or is released already; its error
/// is dropped.
#[verifier::external_body]
fn free_id(allocator: &mut vm_allocator::IdAllocator, id: u32) -> (r: Option<u32>)
    ensures
        id_range(*final(allocator)) == id_range(*old(allocator)),
        r is Some <==> allocated_ids(*old(allocator)).contains(id),
        r matches Some(freed) ==> freed == id
            && allocated_ids(*final(allocator)) == allocated_ids(*old(allocator)).remove(id),
        r is None ==> allocated_ids(*final(allocator)) == allocated_ids(*old(allocator)),
{
    allocator.free_id(id).ok()
}

/// `allocated` with the ids of `ids` added.
pub open spec fn with_ids(allocated: Set<u32>, ids: Seq<u32>) -> Set<u32>
    decreases ids.len(),
{
    if ids.len() == 0 {
        allocated
    } else {
        with_ids(allocated, ids.drop_last()).insert(ids.last())
    }
}

/// Whether `ids` are the ids that `ids.len()` allocations in a row hand out: each the
/// smallest id of the range that is free when its turn comes.
pub open spec fn allocated_in_turn(base: u32, end: u32, allocated: Set<u32>, ids: Seq<u32>)
    -> bool {
    forall|k: int|
        0 <= k < ids.len() ==> is_smallest_free(
            base,
            end,
            with_ids(allocated, ids.take(k)),
            #[trigger] ids[k],
        )
}

/// Why a resource could not be allocated.
#[derive(Debug, Clone, Copy, PartialEq, Eq, Structural)]
pub enum ResourceError {
    /// No resource is left.
    ResourceNotAvailable,
}

/// Hands out the interrupt lines (GSIs) of devices.
#[derive(Debug)]
pub struct ResourceAllocator {
    // Allocator for device interrupt lines
    gsi_allocator: vm_allocator::IdAllocator,
}

impl ResourceAllocator {
    /// The interrupt lines that are handed out.
    pub closed spec fn gsis(&self) -> Set<u32> {
        allocated_ids(self.gsi_allocator)
    }

    /// The allocator manages the lines from `IRQ_BASE` to `IRQ_MAX`.
    pub closed spec fn wf(&self) -> bool {
        id_range(self.gsi_allocator) == (IRQ_BASE, IRQ_MAX)
    }

    /// An allocator with no interrupt line handed out.
    pub fn new() -> (r: Result<Self, ResourceError>)
        ensures
            r matches Ok(allocator) && allocator.wf() && allocator.gsis() == Set::<u32>::empty(),
    {
        match new_id_allocator(IRQ_BASE, IRQ_MAX) {
            Some(gsi_allocator) => Ok(ResourceAllocator { gsi_allocator }),
            None => Err(ResourceError::ResourceNotAvailable),
        }
    }

    // Gives back the lines `gsis`, which were allocated in turn from `first`.
    fn release_gsis(&mut self, gsis: Vec<u32>, Ghost(first): Ghost<Set<u32>>)
        requires
            old(self).wf(),
            allocated_in_turn(IRQ_BASE, IRQ_MAX, first, gsis@),
            old(self).gsis() == with_ids(first, gsis@),
        ensures
            final(self).wf(),
            final(self).gsis() == first,
    {
        let mut gsis = gsis;
        let ghost tried = gsis@;
        assert(tried.take(tried.len() as int) == tried);
        while gsis.len() > 0
            invariant
                self.wf(),
                gsis@.len() <= tried.len(),
                gsis@ == tried.take(gsis@.len() as int),
                allocated_in_turn(IRQ_BASE, IRQ_MAX, first, tried),
                self.gsis() == with_ids(first, gsis@),
            decreases gsis.len(),
        {
            let ghost held = gsis@;
            let gsi = gsis.pop().unwrap();
            proof {
                assert(held.drop_last() == gsis@);
                assert(tried.take(gsis@.len() as int) == gsis@);
                assert(is_smallest_free(
                    IRQ_BASE,
                    IRQ_MAX,
                    with_ids(first, tried.take(gsis@.len() as int)),
                    tried[gsis@.len() as int],
                ));
                assert(with_ids(first, held).remove(gsi) =~= with_ids(first, gsis@));
            }
            let freed = free_id(&mut self.gsi_allocator, gsi);
            assert(freed is Some);
        }
    }

    /// Allocates `gsi_count` interrupt lines: one after the other, each the smallest line
    /// that is free. Where the lines run out, none stays allocated and the call fails.
    pub fn allocate_gsi(&mut self, gsi_count: u32) -> (r: Result<Vec<u32>, ResourceError>)
        requires
            old(self).wf(),
        ensures
            final(self).wf(),
            match r {
                Ok(gsis) => gsis@.len() == gsi_count && allocated_in_turn(
                    IRQ_BASE,
                    IRQ_MAX,
                    old(self).gsis(),
                    gsis@,
                ) && final(self).gsis() == with_ids(old(self).gsis(), gsis@),
                Err(_) => final(self).gsis() == old(self).gsis() && exists|ids: Seq<u32>|
                    ids.len() < gsi_count && #[trigger] allocated_in_turn(
                        IRQ_BASE,
                        IRQ_MAX,
                        old(self).gsis(),
                        ids,
                    ) && none_free(IRQ_BASE, IRQ_MAX, with_ids(old(self).gsis(), ids)),
            },
    {
        let mut gsis: Vec<u32> = Vec::new();
        let ghost first = self.gsis();
        let mut i: u32 = 0;
        while i < gsi_count
            invariant
                0 <= i <= gsi_count,
                self.wf(),
                first == old(self).gsis(),
                gsis@.len() == i,
                allocated_in_turn(IRQ_BASE, IRQ_MAX, first, gsis@),
                self.gsis() == with_ids(first, gsis@),
            decreases gsi_count - i,
        {
            match allocate_id(&mut self.gsi_allocator) {
                Some(gsi) => {
                    let ghost before = gsis@;
                    gsis.push(gsi);
                    proof {
                        assert(gsis@.drop_last() == before);
                        assert forall|k: int| 0 <= k < gsis@.len() implies is_smallest_free(
                            IRQ_BASE,
                            IRQ_MAX,
                            with_ids(first, gsis@.take(k)),
                            #[trigger] gsis@[k],
                        ) by {
                            if k < before.len() {
                                assert(gsis@.take(k) == before.take(k));
                                assert(gsis@[k] == before[k]);
                            } else {
                                assert(gsis@.take(k) == before);
                            }
                        }
                    }
                },
                None => {
                    let ghost tried = gsis@;
                    self.release_gsis(gsis, Ghost(first));
                    assert(tried.len() < gsi_count && allocated_in_turn(
                        IRQ_BASE,
                        IRQ_MAX,
                        first,
                        tried,
                    ) && none_free(IRQ_BASE, IRQ_MAX, with_ids(first, tried)));
                    return Err(ResourceError::ResourceNotAvailable);
                },
            }
            i += 1;
        }
        Ok(gsis)
    }
}

} // verus!
