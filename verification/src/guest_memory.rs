//! Guest memory: the region map and bounds-checked access to it.

use vm_memory::bitmap::Bitmap;
use vm_memory::{Bytes, GuestAddress, GuestMemoryBackend};
use vstd::prelude::*;

verus! {

/// `vm_memory::GuestRegionCollection`: the regions of a guest memory, sorted and apart from
/// each other. Nothing of its inside is known here.
#[verifier::external_type_specification]
#[verifier::external_body]
#[verifier::reject_recursive_types(R)]
pub struct ExGuestRegionCollection<R>(vm_memory::GuestRegionCollection<R>);

/// `vm_memory::GuestRegionMmap`: one region of guest memory, mapped into the host.
#[verifier::external_type_specification]
#[verifier::external_body]
#[verifier::reject_recursive_types(B)]
pub struct ExGuestRegionMmap<B>(vm_memory::GuestRegionMmap<B>);

/// `vm_memory::bitmap::AtomicBitmap`: the pages of a region that were written to.
#[verifier::external_type_specification]
#[verifier::external_body]
pub struct ExAtomicBitmap(vm_memory::bitmap::AtomicBitmap);

/// `vm_memory::GuestMemoryError`: why an access to guest memory failed.
#[verifier::external_type_specification]
#[verifier::external_body]
pub struct ExGuestMemoryError(vm_memory::GuestMemoryError);

/// Guest memory backed by anonymous mappings, with a dirty bitmap per region.
pub type GuestMemoryMmap = vm_memory::GuestMemoryMmap<vm_memory::bitmap::AtomicBitmap>;

/// The regions of a guest memory map, each as (first guest address, length in bytes). The
/// map of a guest memory never changes.
pub uninterp spec fn guest_regions(mem: GuestMemoryMmap) -> Seq<(int, int)>;

/// Whether `[addr, addr + len)` starts inside one region and ends inside the same region.
pub open spec fn range_mapped(regions: Seq<(int, int)>, addr: int, len: int) -> bool {
    exists|i: int|
        0 <= i < regions.len() && #[trigger] regions[i].0 <= addr && addr < regions[i].0
            + regions[i].1 && addr + len <= regions[i].0 + regions[i].1
}

/// Looks up `[addr, addr + len)` with `GuestMemoryBackend::get_slice`, which finds the region
/// holding `addr` and accepts the range when it ends within that region. Regions never
/// reach past the last guest address.
#[verifier::external_body]
pub(crate) fn check_guest_range(mem: &GuestMemoryMmap, addr: u64, len: usize) -> (r: Result<
    (),
    vm_memory::GuestMemoryError,
>)
    ensures
        r is Ok <==> range_mapped(guest_regions(*mem), addr as int, len as int),
        r is Ok ==> addr + len <= u64::MAX,
{
    mem.get_slice(GuestAddress(addr), len).map(|_| ())
}

/// A range inside a mapped range is mapped, if it is not empty or starts before the end.
pub proof fn lemma_range_mapped_within(
    regions: Seq<(int, int)>,
    addr: int,
    len: int,
    sub_addr: int,
    sub_len: int,
)
    requires
        range_mapped(regions, addr, len),
        addr <= sub_addr,
        sub_addr + sub_len <= addr + len,
        sub_len > 0 || sub_addr < addr + len,
        sub_len >= 0,
    ensures
        range_mapped(regions, sub_addr, sub_len),
{
    let i = choose|i: int|
        0 <= i < regions.len() && #[trigger] regions[i].0 <= addr && addr < regions[i].0
            + regions[i].1 && addr + len <= regions[i].0 + regions[i].1;
    assert(regions[i].0 <= sub_addr);
}

/// Marks `[addr, addr + len)` as written in the dirty bitmap of the region that holds it,
/// through `Bitmap::mark_dirty` on the bitmap of the slice that `get_slice` hands out.
/// Nothing is marked where the range is not mapped.
#[verifier::external_body]
pub(crate) fn mark_guest_dirty(mem: &GuestMemoryMmap, addr: u64, len: usize) {
    if let Ok(slice) = mem.get_slice(GuestAddress(addr), len) {
        slice.bitmap().mark_dirty(0, len);
    }
}

/// Copies `len` bytes of guest memory at `addr` into `buf[at..at + len]` with
/// `Bytes::read_slice`, which touches no other byte of `buf` and succeeds on a mapped range.
/// What the bytes are is up to the guest.
#[verifier::external_body]
pub(crate) fn read_guest(
    mem: &GuestMemoryMmap,
    addr: u64,
    buf: &mut [u8],
    at: usize,
    len: usize,
) -> (r: Result<(), vm_memory::GuestMemoryError>)
    requires
        at + len <= old(buf)@.len(),
    ensures
        final(buf)@.len() == old(buf)@.len(),
        forall|i: int|
            0 <= i < at || at + len <= i < old(buf)@.len() ==> final(buf)@[i] == old(buf)@[i],
        range_mapped(guest_regions(*mem), addr as int, len as int) ==> r is Ok,
{
    mem.read_slice(&mut buf[at..at + len], GuestAddress(addr))
}

/// Copies `buf[at..at + len]` into guest memory at `addr` with `Bytes::write_slice`, which
/// succeeds on a mapped range.
#[verifier::external_body]
pub(crate) fn write_guest(
    mem: &GuestMemoryMmap,
    addr: u64,
    buf: &[u8],
    at: usize,
    len: usize,
) -> (r: Result<(), vm_memory::GuestMemoryError>)
    requires
        at + len <= buf@.len(),
    ensures
        range_mapped(guest_regions(*mem), addr as int, len as int) ==> r is Ok,
{
    mem.write_slice(&buf[at..at + len], GuestAddress(addr))
}

} // verus!
