//! Scatter/gather buffers over guest memory, parsed from descriptor chains.
//!
//! A span of a buffer is named by its guest address and its length. It is looked up in the
//! guest memory when the chain is parsed, and every later access goes through the guest
//! memory again, to a part of a span that was found then.

use crate::guest_memory::{
    check_guest_range, guest_regions, lemma_range_mapped_within, mark_guest_dirty, range_mapped,
    read_guest, write_guest, GuestMemoryMmap,
};
use crate::queue::{chain_len, lemma_chain_len_take, Descriptor, DescriptorChain};
use vstd::prelude::*;
use vstd::slice::slice_subrange;

verus! {

/// One contiguous span of guest memory: its first guest address and its length in bytes.
#[derive(Debug, Clone, Copy, PartialEq, Eq, Structural)]
pub struct IoVec {
    pub iov_base: u64,
    pub iov_len: usize,
}

impl IoVec {
    /// The span does not reach past the last guest address.
    pub open spec fn wf(self) -> bool {
        self.iov_base + self.iov_len <= u64::MAX
    }

    /// `self` lies inside `outer`.
    pub open spec fn within(self, outer: IoVec) -> bool {
        outer.iov_base <= self.iov_base && self.iov_base + self.iov_len <= outer.iov_base
            + outer.iov_len
    }
}

/// All spans of a list are well formed.
pub open spec fn all_wf(regions: Seq<IoVec>) -> bool {
    forall|i: int| 0 <= i < regions.len() ==> (#[trigger] regions[i]).wf()
}

/// Number of bytes that a list of spans describes.
pub open spec fn total_len(regions: Seq<IoVec>) -> int
    decreases regions.len(),
{
    if regions.len() == 0 {
        0
    } else {
        total_len(regions.drop_last()) + regions.last().iov_len
    }
}

/// The part of span `r` that falls into the window `[lo, hi)` of a buffer in which `r` holds
/// the bytes `[start, start + r.iov_len)`. Empty (length 0) when the two do not meet.
pub open spec fn clip(r: IoVec, start: int, lo: int, hi: int) -> IoVec {
    let a = if start >= lo { start } else { lo };
    let b = if start + r.iov_len <= hi { start + r.iov_len } else { hi };
    if a < b {
        IoVec { iov_base: (r.iov_base + (a - start)) as u64, iov_len: (b - a) as usize }
    } else {
        IoVec { iov_base: r.iov_base, iov_len: 0 }
    }
}

/// The window `[lo, hi)` of the buffer that `regions` describes: the non-empty clips of the
/// spans, in order.
pub open spec fn window(regions: Seq<IoVec>, lo: int, hi: int) -> Seq<IoVec>
    decreases regions.len(),
{
    if regions.len() == 0 {
        Seq::empty()
    } else {
        let front = window(regions.drop_last(), lo, hi);
        let piece = clip(regions.last(), total_len(regions.drop_last()), lo, hi);
        if piece.iov_len > 0 {
            front.push(piece)
        } else {
            front
        }
    }
}

/// A list of spans holds no negative number of bytes.
pub proof fn lemma_total_len_nonneg(regions: Seq<IoVec>)
    ensures
        total_len(regions) >= 0,
    decreases regions.len(),
{
    if regions.len() > 0 {
        lemma_total_len_nonneg(regions.drop_last());
    }
}

/// A byte range of a list of scattered spans.
#[derive(Debug)]
pub struct IoVecSubregion {
    iovecs: Vec<IoVec>,
}

impl View for IoVecSubregion {
    type V = Seq<IoVec>;

    closed spec fn view(&self) -> Seq<IoVec> {
        self.iovecs@
    }
}

impl IoVecSubregion {
    /// Takes the window `[offset, offset + size)` out of `iovecs`. There is none where `offset`
    /// is not below `len` or `size` is 0; one that reaches past the end of the spans is cut
    /// there.
    pub fn new(iovecs: &[IoVec], len: usize, offset: usize, size: usize) -> (r: Option<Self>)
        requires
            all_wf(iovecs@),
        ensures
            r is None <==> offset >= len || size == 0,
            r matches Some(sub) ==> sub@ == window(iovecs@, offset as int, offset + size),
    {
        if offset >= len {
            return None;
        }
        if size == 0 {
            return None;
        }
        let ghost lo = offset as int;
        let ghost hi = offset + size;
        let mut offset = offset;
        let mut size = size;
        let mut out: Vec<IoVec> = Vec::new();
        let mut i: usize = 0;
        while i < iovecs.len()
            invariant
                0 <= i <= iovecs.len(),
                all_wf(iovecs@),
                0 <= lo < hi,
                out@ == window(iovecs@.take(i as int), lo, hi),
                total_len(iovecs@.take(i as int)) <= lo ==> offset == lo - total_len(
                    iovecs@.take(i as int),
                ) && size == hi - lo,
                total_len(iovecs@.take(i as int)) > lo ==> offset == 0 && (if hi > total_len(
                    iovecs@.take(i as int),
                ) {
                    size == hi - total_len(iovecs@.take(i as int))
                } else {
                    size == 0
                }),
            decreases iovecs.len() - i,
        {
            let iov = iovecs[i];
            proof {
                assert(iovecs@.take(i + 1).drop_last() == iovecs@.take(i as int));
                assert(iovecs@.take(i + 1).last() == iov);
                assert(iov.wf());
                lemma_total_len_nonneg(iovecs@.take(i as int));
            }
            if offset >= iov.iov_len {
                offset -= iov.iov_len;
            } else if size != 0 {
                let iov_len = if iov.iov_len - offset <= size {
                    iov.iov_len - offset
                } else {
                    size
                };
                out.push(IoVec { iov_base: iov.iov_base + offset as u64, iov_len });
                offset = 0;
                size -= iov_len;
            }
            i += 1;
        }
        assert(iovecs@.take(i as int) == iovecs@);
        Some(IoVecSubregion { iovecs: out })
    }

    /// The spans of the subregion, in order.
    pub fn as_slice(&self) -> (r: &[IoVec])
        ensures
            r@ == self@,
    {
        self.iovecs.as_slice()
    }

    /// Number of bytes in the subregion.
    pub fn len(&self) -> (n: usize)
        requires
            total_len(self@) <= usize::MAX,
        ensures
            n == total_len(self@),
    {
        let mut n: usize = 0;
        let mut i: usize = 0;
        while i < self.iovecs.len()
            invariant
                0 <= i <= self.iovecs.len(),
                n == total_len(self.iovecs@.take(i as int)),
                total_len(self.iovecs@) <= usize::MAX,
            decreases self.iovecs.len() - i,
        {
            proof {
                assert(self.iovecs@.take(i + 1).drop_last() == self.iovecs@.take(i as int));
                lemma_total_len_take(self.iovecs@, i + 1);
            }
            n += self.iovecs[i].iov_len;
            i += 1;
        }
        assert(self.iovecs@.take(i as int) == self.iovecs@);
        n
    }
}

/// The first `n` spans of a list hold no more bytes than the whole list.
pub proof fn lemma_total_len_take(regions: Seq<IoVec>, n: int)
    requires
        0 <= n <= regions.len(),
    ensures
        0 <= total_len(regions.take(n)) <= total_len(regions),
    decreases regions.len() - n,
{
    lemma_total_len_nonneg(regions.take(n));
    if n < regions.len() {
        lemma_total_len_take(regions, n + 1);
        assert(regions.take(n + 1).drop_last() == regions.take(n));
    } else {
        assert(regions.take(n) == regions);
    }
}

/// The bytes of a window: as many as the window asks for, or as many as the spans hold behind
/// its start.
pub open spec fn window_len(total: int, lo: int, hi: int) -> int {
    let end = if total <= hi { total } else { hi };
    if end > lo { end - lo } else { 0 }
}

/// A window of `size` bytes that starts inside the buffer holds as many bytes as it asks for,
/// or as many as the buffer has left, whichever is less, and at least one.
pub proof fn lemma_window_len_is_min(total: int, offset: int, size: int)
    requires
        0 <= offset < total,
        size > 0,
    ensures
        window_len(total, offset, offset + size) == (if size <= total - offset {
            size
        } else {
            total - offset
        }),
        window_len(total, offset, offset + size) > 0,
{
}

/// A window holds exactly the bytes of the buffer that lie in `[lo, hi)`.
pub proof fn lemma_window_total(regions: Seq<IoVec>, lo: int, hi: int)
    requires
        0 <= lo <= hi,
    ensures
        total_len(window(regions, lo, hi)) == window_len(total_len(regions), lo, hi),
    decreases regions.len(),
{
    if regions.len() > 0 {
        let front = regions.drop_last();
        lemma_window_total(front, lo, hi);
        lemma_total_len_nonneg(front);
        let piece = clip(regions.last(), total_len(front), lo, hi);
        if piece.iov_len > 0 {
            let w = window(front, lo, hi).push(piece);
            assert(w.drop_last() == window(front, lo, hi));
            assert(w.last() == piece);
        }
    }
}

/// Each span of a window is non-empty and lies inside one of the spans it was cut from.
pub proof fn lemma_window_within(regions: Seq<IoVec>, lo: int, hi: int, k: int)
    requires
        0 <= lo <= hi,
        all_wf(regions),
        0 <= k < window(regions, lo, hi).len(),
    ensures
        window(regions, lo, hi)[k].iov_len > 0,
        window(regions, lo, hi)[k].wf(),
        exists|j: int|
            0 <= j < regions.len() && window(regions, lo, hi)[k].within(#[trigger] regions[j]),
    decreases regions.len(),
{
    if regions.len() > 0 {
        let front = regions.drop_last();
        let last = regions.last();
        lemma_total_len_nonneg(front);
        let piece = clip(last, total_len(front), lo, hi);
        assert(last.wf());
        if piece.iov_len > 0 && k == window(front, lo, hi).len() {
            assert(piece.within(regions[regions.len() - 1]));
        } else {
            lemma_window_within(front, lo, hi, k);
            let j = choose|j: int|
                0 <= j < front.len() && window(front, lo, hi)[k].within(#[trigger] front[j]);
            assert(front[j] == regions[j]);
        }
    }
}

/// Why a descriptor chain could not be parsed.
#[derive(Debug)]
pub enum Error {
    /// A write-only descriptor stood where a read-only one was expected.
    WriteOnlyDescriptor,
    /// A read-only descriptor stood where a write-only one was expected.
    ReadOnlyDescriptor,
    /// A descriptor does not describe guest memory.
    GuestMemory(vm_memory::GuestMemoryError),
}

/// Which directions a parse accepts.
#[derive(Debug, Clone, Copy, PartialEq, Eq, Structural)]
pub enum ParseMode {
    /// Read-only descriptors, then write-only ones.
    Mixed,
    /// Read-only descriptors alone.
    ReadOnly,
    /// Write-only descriptors alone.
    WriteOnly,
}

/// How a parse ends.
pub enum ParseOutcome {
    Parsed,
    WriteOnlyDescriptor,
    ReadOnlyDescriptor,
    GuestMemory,
}

/// The span of guest memory that a descriptor names.
pub open spec fn region_of(d: Descriptor) -> IoVec {
    IoVec { iov_base: d.addr, iov_len: d.len as usize }
}

/// The spans that a list of descriptors names, in order.
pub open spec fn regions_of(ds: Seq<Descriptor>) -> Seq<IoVec> {
    Seq::new(ds.len(), |i: int| region_of(ds[i]))
}

/// Whether the span of a descriptor is guest memory.
pub open spec fn mapped(regions: Seq<(int, int)>, d: Descriptor) -> bool {
    range_mapped(regions, d.addr as int, d.len as int)
}

/// Index of the first write-only descriptor at or after `i`; the length of the list where
/// there is none.
pub open spec fn first_write_from(ds: Seq<Descriptor>, i: int) -> int
    decreases ds.len() - i,
{
    if i < 0 || i >= ds.len() {
        ds.len() as int
    } else if ds[i].spec_is_write_only() {
        i
    } else {
        first_write_from(ds, i + 1)
    }
}

/// The first write-only descriptor at or after `i` is not before `i`.
pub proof fn lemma_first_write_bounds(ds: Seq<Descriptor>, i: int)
    requires
        0 <= i <= ds.len(),
    ensures
        i <= first_write_from(ds, i) <= ds.len(),
    decreases ds.len() - i,
{
    if i < ds.len() && !ds[i].spec_is_write_only() {
        lemma_first_write_bounds(ds, i + 1);
    }
}

/// Number of read-only descriptors at the head of the list.
pub open spec fn read_prefix(ds: Seq<Descriptor>) -> int {
    first_write_from(ds, 0)
}

/// Whether descriptor `i` has a direction that `mode` does not accept in its place.
pub open spec fn misplaced(mode: ParseMode, ds: Seq<Descriptor>, i: int) -> bool {
    match mode {
        ParseMode::Mixed => i >= read_prefix(ds) && !ds[i].spec_is_write_only(),
        ParseMode::ReadOnly => ds[i].spec_is_write_only(),
        ParseMode::WriteOnly => !ds[i].spec_is_write_only(),
    }
}

/// Index of the first descriptor at or after `i` that is misplaced or not guest memory; the
/// length of the list where there is none.
pub open spec fn first_bad_from(
    mode: ParseMode,
    regions: Seq<(int, int)>,
    ds: Seq<Descriptor>,
    i: int,
) -> int
    decreases ds.len() - i,
{
    if i < 0 || i >= ds.len() {
        ds.len() as int
    } else if misplaced(mode, ds, i) || !mapped(regions, ds[i]) {
        i
    } else {
        first_bad_from(mode, regions, ds, i + 1)
    }
}

/// How parsing `ds` in `mode` ends: the first descriptor that is misplaced or not guest
/// memory decides, and a misplaced one counts as misplaced whatever its span.
pub open spec fn parse_outcome(mode: ParseMode, regions: Seq<(int, int)>, ds: Seq<Descriptor>)
    -> ParseOutcome {
    let k = first_bad_from(mode, regions, ds, 0);
    if k >= ds.len() {
        ParseOutcome::Parsed
    } else if misplaced(mode, ds, k) {
        match mode {
            ParseMode::ReadOnly => ParseOutcome::WriteOnlyDescriptor,
            _ => ParseOutcome::ReadOnlyDescriptor,
        }
    } else {
        ParseOutcome::GuestMemory
    }
}

/// Number of spans of a parsed chain that belong to its read-only part.
pub open spec fn split_of(mode: ParseMode, ds: Seq<Descriptor>) -> int {
    match mode {
        ParseMode::Mixed => read_prefix(ds),
        ParseMode::ReadOnly => ds.len() as int,
        ParseMode::WriteOnly => 0,
    }
}

/// Whether a parse result is the one that `outcome` names.
pub open spec fn result_is(r: Result<(), Error>, outcome: ParseOutcome) -> bool {
    match outcome {
        ParseOutcome::Parsed => r is Ok,
        ParseOutcome::WriteOnlyDescriptor => r matches Err(Error::WriteOnlyDescriptor),
        ParseOutcome::ReadOnlyDescriptor => r matches Err(Error::ReadOnlyDescriptor),
        ParseOutcome::GuestMemory => r matches Err(Error::GuestMemory(_)),
    }
}

/// The spans of a list of descriptors hold as many bytes as the descriptors say.
pub proof fn lemma_regions_of_total(ds: Seq<Descriptor>)
    ensures
        total_len(regions_of(ds)) == chain_len(ds),
    decreases ds.len(),
{
    if ds.len() > 0 {
        lemma_regions_of_total(ds.drop_last());
        assert(regions_of(ds).drop_last() == regions_of(ds.drop_last()));
    }
}

/// The buffers of one descriptor chain: zero or more read-only spans of guest memory, then
/// zero or more write-only ones, with byte-wise access to both parts.
#[derive(Debug)]
pub struct IoVecBuffer<'a> {
    // index of the head of the chain that was parsed last
    desc_id: Option<u16>,
    // the spans, read-only ones first
    vecs: Vec<IoVec>,
    // bytes in the read-only part
    read_len: usize,
    // bytes in the write-only part
    write_len: usize,
    // index of the first write-only span in `vecs`
    split: usize,
    // the guest memory that the spans lie in
    mem: Option<&'a GuestMemoryMmap>,
}

/// The span that a descriptor names, where it is guest memory. The span of a write-only
/// descriptor is marked dirty.
pub fn iovec_try_from_descriptor_chain(
    mem: &GuestMemoryMmap,
    desc: &Descriptor,
    write_only: bool,
) -> (r: Result<IoVec, Error>)
    ensures
        r is Ok <==> mapped(guest_regions(*mem), *desc),
        r matches Ok(iov) ==> iov == region_of(*desc) && iov.wf(),
        r matches Err(e) ==> e is GuestMemory,
{
    match check_guest_range(mem, desc.addr, desc.len as usize) {
        Ok(()) => {
            if write_only {
                mark_guest_dirty(mem, desc.addr, desc.len as usize);
            }
            Ok(IoVec { iov_base: desc.addr, iov_len: desc.len as usize })
        },
        Err(e) => Err(Error::GuestMemory(e)),
    }
}

impl<'a> IoVecBuffer<'a> {
    /// All spans, read-only ones first.
    pub closed spec fn regions(&self) -> Seq<IoVec> {
        self.vecs@
    }

    /// Number of read-only spans.
    pub closed spec fn split_index(&self) -> int {
        self.split as int
    }

    /// Index of the head of the chain that was parsed last.
    pub closed spec fn id(&self) -> Option<u16> {
        self.desc_id
    }

    /// The guest memory that the spans lie in.
    pub closed spec fn memory(&self) -> Option<&GuestMemoryMmap> {
        self.mem
    }

    /// Bytes in the read-only part.
    pub closed spec fn spec_read_len(&self) -> usize {
        self.read_len
    }

    /// Bytes in the write-only part.
    pub closed spec fn spec_write_len(&self) -> usize {
        self.write_len
    }

    /// The read-only spans.
    pub open spec fn read_regions(&self) -> Seq<IoVec> {
        self.regions().take(self.split_index())
    }

    /// The write-only spans.
    pub open spec fn write_regions(&self) -> Seq<IoVec> {
        self.regions().skip(self.split_index())
    }

    /// The split lies within the spans, the two lengths are those of the two parts, and each
    /// span is guest memory.
    pub open spec fn wf(&self) -> bool {
        &&& 0 <= self.split_index() <= self.regions().len()
        &&& self.spec_read_len() == total_len(self.read_regions())
        &&& self.spec_write_len() == total_len(self.write_regions())
        &&& all_wf(self.regions())
        &&& self.regions().len() > 0 ==> self.memory() is Some
        &&& forall|i: int|
            0 <= i < self.regions().len() ==> range_mapped(
                guest_regions(*self.memory().unwrap()),
                (#[trigger] self.regions()[i]).iov_base as int,
                self.regions()[i].iov_len as int,
            )
    }

    /// Whether the buffer holds no span and no bytes.
    pub open spec fn is_clear(&self) -> bool {
        self.regions().len() == 0 && self.split_index() == 0 && self.spec_read_len() == 0
            && self.spec_write_len() == 0
    }

    /// A buffer without spans.
    pub fn new() -> (r: Self)
        ensures
            r.wf(),
            r.is_clear(),
            r.id() is None,
    {
        IoVecBuffer {
            desc_id: None,
            vecs: Vec::new(),
            read_len: 0,
            write_len: 0,
            split: 0,
            mem: None,
        }
    }

    fn clear(&mut self)
        ensures
            final(self).wf(),
            final(self).is_clear(),
            final(self).id() is None,
            final(self).memory() == old(self).memory(),
    {
        self.desc_id = None;
        self.vecs.clear();
        self.read_len = 0;
        self.write_len = 0;
        self.split = 0;
    }

    // Parses `head` in `mode`. The spans are collected aside and kept only where every
    // descriptor is accepted.
    fn parse_with(&mut self, mem: &'a GuestMemoryMmap, head: DescriptorChain, mode: ParseMode) -> (r:
        Result<(), Error>)
        requires
            head.wf(),
        ensures
            final(self).wf(),
            final(self).id() == Some(head@.index),
            result_is(r, parse_outcome(mode, guest_regions(*mem), head@.descriptors)),
            r is Ok ==> final(self).regions() == regions_of(head@.descriptors)
                && final(self).split_index() == split_of(mode, head@.descriptors)
                && final(self).memory() == Some(mem),
            r is Err ==> final(self).is_clear(),
    {
        self.clear();
        self.desc_id = Some(head.index());
        let n = head.len();
        let ghost ds = head@.descriptors;
        let ghost regions = guest_regions(*mem);
        let mut vecs: Vec<IoVec> = Vec::new();
        let mut read_len: usize = 0;
        let mut write_len: usize = 0;
        let mut split: usize = 0;
        let mut seen_write = false;
        let mut i: usize = 0;
        while i < n
            invariant
                n == ds.len(),
                ds == head@.descriptors,
                regions == guest_regions(*mem),
                head.wf(),
                0 <= i <= n,
                first_bad_from(mode, regions, ds, 0) == first_bad_from(mode, regions, ds, i as int),
                vecs@ == regions_of(ds).take(i as int),
                0 <= split <= i,
                read_len == total_len(vecs@.take(split as int)),
                write_len == total_len(vecs@.skip(split as int)),
                read_len + write_len == chain_len(ds.take(i as int)),
                forall|j: int| 0 <= j < i ==> mapped(regions, #[trigger] ds[j]),
                all_wf(vecs@),
                mode == ParseMode::Mixed && seen_write ==> split == read_prefix(ds) && split < i,
                mode == ParseMode::Mixed && !seen_write ==> split == i && first_write_from(ds, 0)
                    == first_write_from(ds, i as int),
                mode == ParseMode::ReadOnly ==> split == i,
                mode == ParseMode::WriteOnly ==> split == 0,
                self.wf(),
                self.is_clear(),
                self.id() == Some(head@.index),
            decreases n - i,
        {
            let desc = head.get(i);
            let write_only = desc.is_write_only();
            proof {
                assert(ds.take(i + 1).drop_last() == ds.take(i as int));
                lemma_chain_len_take(ds, i + 1);
            }
            match mode {
                ParseMode::Mixed => {
                    if seen_write && !write_only {
                        return Err(Error::ReadOnlyDescriptor);
                    }
                },
                ParseMode::ReadOnly => {
                    if write_only {
                        return Err(Error::WriteOnlyDescriptor);
                    }
                },
                ParseMode::WriteOnly => {
                    if !write_only {
                        return Err(Error::ReadOnlyDescriptor);
                    }
                },
            }
            proof {
                lemma_first_write_bounds(ds, i + 1);
                assert(!misplaced(mode, ds, i as int));
            }
            let iov = match iovec_try_from_descriptor_chain(mem, &desc, write_only) {
                Ok(iov) => iov,
                Err(e) => {
                    return Err(e);
                },
            };
            let ghost before = vecs@;
            vecs.push(iov);
            if write_only {
                seen_write = true;
                write_len += iov.iov_len;
                proof {
                    assert(vecs@.take(split as int) == before.take(split as int));
                    assert(vecs@.skip(split as int).drop_last() == before.skip(split as int));
                    assert(vecs@.skip(split as int).last() == iov);
                }
            } else {
                proof {
                    assert(before.take(split as int) == before);
                    assert(vecs@.take(split + 1).drop_last() == before);
                    assert(vecs@.take(split + 1).last() == iov);
                    assert(vecs@.skip(split + 1).len() == 0);
                    assert(before.skip(split as int).len() == 0);
                }
                read_len += iov.iov_len;
                split += 1;
            }
            i += 1;
        }
        proof {
            assert(regions_of(ds).take(n as int) == regions_of(ds));
        }
        self.vecs = vecs;
        self.read_len = read_len;
        self.write_len = write_len;
        self.split = split;
        self.mem = Some(mem);
        Ok(())
    }

    /// Parses a chain of read-only descriptors followed by write-only ones, after
    /// forgetting what the buffer held. Fails on a read-only descriptor behind a write-only
    /// one and on a descriptor that is not guest memory, whichever comes first in the chain,
    /// and then holds no span. The head's index is recorded either way.
    pub fn parse(&mut self, mem: &'a GuestMemoryMmap, head: DescriptorChain) -> (r: Result<
        (),
        Error,
    >)
        requires
            head.wf(),
        ensures
            final(self).wf(),
            final(self).id() == Some(head@.index),
            result_is(
                r,
                parse_outcome(ParseMode::Mixed, guest_regions(*mem), head@.descriptors),
            ),
            r is Ok ==> final(self).regions() == regions_of(head@.descriptors)
                && final(self).split_index() == read_prefix(head@.descriptors)
                && final(self).memory() == Some(mem),
            r is Err ==> final(self).is_clear(),
    {
        self.parse_with(mem, head, ParseMode::Mixed)
    }

    /// Parses a chain of read-only descriptors alone. Fails on a write-only descriptor and
    /// on a descriptor that is not guest memory, whichever comes first in the chain, and
    /// then holds no span. The head's index is recorded either way.
    pub fn parse_read_only(&mut self, mem: &'a GuestMemoryMmap, head: DescriptorChain) -> (r:
        Result<(), Error>)
        requires
            head.wf(),
        ensures
            final(self).wf(),
            final(self).id() == Some(head@.index),
            result_is(
                r,
                parse_outcome(ParseMode::ReadOnly, guest_regions(*mem), head@.descriptors),
            ),
            r is Ok ==> final(self).regions() == regions_of(head@.descriptors)
                && final(self).split_index() == head@.descriptors.len()
                && final(self).memory() == Some(mem),
            r is Err ==> final(self).is_clear(),
    {
        self.parse_with(mem, head, ParseMode::ReadOnly)
    }

    /// Parses a chain of write-only descriptors alone. Fails on a read-only descriptor and
    /// on a descriptor that is not guest memory, whichever comes first in the chain, and
    /// then holds no span. The head's index is recorded either way.
    pub fn parse_write_only(&mut self, mem: &'a GuestMemoryMmap, head: DescriptorChain) -> (r:
        Result<(), Error>)
        requires
            head.wf(),
        ensures
            final(self).wf(),
            final(self).id() == Some(head@.index),
            result_is(
                r,
                parse_outcome(ParseMode::WriteOnly, guest_regions(*mem), head@.descriptors),
            ),
            r is Ok ==> final(self).regions() == regions_of(head@.descriptors)
                && final(self).split_index() == 0
                && final(self).memory() == Some(mem),
            r is Err ==> final(self).is_clear(),
    {
        self.parse_with(mem, head, ParseMode::WriteOnly)
    }

    /// Index of the head of the chain that was parsed last, by which its completion is
    /// reported.
    pub fn descriptor_id(&self) -> (r: Option<u16>)
        ensures
            r == self.id(),
    {
        self.desc_id
    }

    /// The read-only spans.
    pub fn read(&self) -> (r: &[IoVec])
        requires
            self.wf(),
        ensures
            r@ == self.read_regions(),
    {
        slice_subrange(self.vecs.as_slice(), 0, self.split)
    }

    /// The write-only spans.
    pub fn write(&self) -> (r: &[IoVec])
        requires
            self.wf(),
        ensures
            r@ == self.write_regions(),
    {
        slice_subrange(self.vecs.as_slice(), self.split, self.vecs.len())
    }

    /// Bytes in the read-only part.
    #[verifier::when_used_as_spec(spec_read_len)]
    pub fn read_len(&self) -> (n: usize)
        ensures
            n == self.spec_read_len(),
    {
        self.read_len
    }

    /// Bytes in the write-only part.
    #[verifier::when_used_as_spec(spec_write_len)]
    pub fn write_len(&self) -> (n: usize)
        ensures
            n == self.spec_write_len(),
    {
        self.write_len
    }

    /// The bytes `[offset, offset + size)` of the read-only part.
    pub fn read_subregion(&self, offset: usize, size: usize) -> (r: Option<IoVecSubregion>)
        requires
            self.wf(),
        ensures
            r is None <==> offset >= self.read_len() || size == 0,
            r matches Some(sub) ==> sub@ == window(
                self.read_regions(),
                offset as int,
                offset + size,
            ),
    {
        IoVecSubregion::new(self.read(), self.read_len, offset, size)
    }

    /// The bytes `[offset, offset + size)` of the write-only part.
    pub fn write_subregion(&self, offset: usize, size: usize) -> (r: Option<IoVecSubregion>)
        requires
            self.wf(),
        ensures
            r is None <==> offset >= self.write_len() || size == 0,
            r matches Some(sub) ==> sub@ == window(
                self.write_regions(),
                offset as int,
                offset + size,
            ),
    {
        IoVecSubregion::new(self.write(), self.write_len, offset, size)
    }

    // Each span of a window of spans of the buffer is guest memory.
    proof fn lemma_fragment_mapped(&self, part: Seq<IoVec>, from: int, lo: int, hi: int, k: int)
        requires
            self.wf(),
            0 <= from,
            from + part.len() <= self.regions().len(),
            part == self.regions().subrange(from, from + part.len()),
            0 <= lo <= hi,
            0 <= k < window(part, lo, hi).len(),
        ensures
            self.memory() is Some,
            window(part, lo, hi)[k].iov_len > 0,
            range_mapped(
                guest_regions(*self.memory().unwrap()),
                window(part, lo, hi)[k].iov_base as int,
                window(part, lo, hi)[k].iov_len as int,
            ),
    {
        assert forall|i: int| 0 <= i < part.len() implies (#[trigger] part[i]).wf() by {
            assert(part[i] == self.regions()[from + i]);
        }
        lemma_window_within(part, lo, hi, k);
        let piece = window(part, lo, hi)[k];
        let j = choose|j: int| 0 <= j < part.len() && piece.within(#[trigger] part[j]);
        let outer = self.regions()[from + j];
        assert(part[j] == outer);
        lemma_range_mapped_within(
            guest_regions(*self.memory().unwrap()),
            outer.iov_base as int,
            outer.iov_len as int,
            piece.iov_base as int,
            piece.iov_len as int,
        );
    }

    /// Copies bytes of the read-only part, from `offset` on, into `buf`: as many as `buf`
    /// takes, or as many as the part holds behind `offset`. Nothing is copied, and `None`
    /// returned, where `offset` is not inside the part or `buf` is empty. The rest of `buf`
    /// stays as it was.
    pub fn read_at(&self, buf: &mut [u8], offset: usize) -> (r: Option<usize>)
        requires
            self.wf(),
        ensures
            final(buf)@.len() == old(buf)@.len(),
            r is None <==> offset >= self.read_len() || old(buf)@.len() == 0,
            r is None ==> final(buf)@ == old(buf)@,
            r matches Some(n) ==> n == window_len(
                self.read_len() as int,
                offset as int,
                offset + old(buf)@.len(),
            ) && forall|i: int| n <= i < old(buf)@.len() ==> final(buf)@[i] == old(buf)@[i],
    {
        let size = buf.len();
        let sub = match self.read_subregion(offset, size) {
            Some(sub) => sub,
            None => {
                return None;
            },
        };
        let ghost lo = offset as int;
        let ghost hi = offset + size;
        proof {
            lemma_window_total(self.read_regions(), lo, hi);
            assert(self.read_regions() == self.regions().subrange(0, self.split_index()));
        }
        let mut bytes: usize = 0;
        let mut k: usize = 0;
        while k < sub.iovecs.len()
            invariant
                self.wf(),
                0 <= lo < hi,
                hi == lo + size,
                sub@ == window(self.read_regions(), lo, hi),
                self.read_regions() == self.regions().subrange(0, self.split_index()),
                0 <= k <= sub.iovecs.len(),
                bytes == total_len(sub@.take(k as int)),
                total_len(sub@) <= size,
                buf@.len() == size,
                old(buf)@.len() == size,
                forall|i: int| bytes <= i < size ==> buf@[i] == old(buf)@[i],
            decreases sub.iovecs.len() - k,
        {
            let iov = sub.iovecs[k];
            proof {
                lemma_total_len_take(sub@, k + 1);
                assert(sub@.take(k + 1).drop_last() == sub@.take(k as int));
                self.lemma_fragment_mapped(self.read_regions(), 0, lo, hi, k as int);
            }
            if let Some(mem) = self.mem {
                let copied = read_guest(mem, iov.iov_base, buf, bytes, iov.iov_len);
                assert(copied is Ok);
            }
            bytes += iov.iov_len;
            k += 1;
        }
        proof {
            assert(sub@.take(k as int) == sub@);
        }
        Some(bytes)
    }

    /// Copies bytes of `buf` into the write-only part, from `offset` on: all of `buf`, or as
    /// many as the part takes behind `offset`. Nothing is copied, and `None` returned, where
    /// `offset` is not inside the part or `buf` is empty.
    pub fn write_at(&mut self, buf: &[u8], offset: usize) -> (r: Option<usize>)
        requires
            old(self).wf(),
        ensures
            *final(self) == *old(self),
            r is None <==> offset >= old(self).write_len() || buf@.len() == 0,
            r matches Some(n) ==> n == window_len(
                old(self).write_len() as int,
                offset as int,
                offset + buf@.len(),
            ),
    {
        let size = buf.len();
        let sub = match self.write_subregion(offset, size) {
            Some(sub) => sub,
            None => {
                return None;
            },
        };
        let ghost lo = offset as int;
        let ghost hi = offset + size;
        proof {
            lemma_window_total(self.write_regions(), lo, hi);
            assert(self.write_regions() == self.regions().subrange(
                self.split_index(),
                self.split_index() + self.write_regions().len(),
            ));
        }
        let mut bytes: usize = 0;
        let mut k: usize = 0;
        while k < sub.iovecs.len()
            invariant
                self.wf(),
                *self == *old(self),
                0 <= lo < hi,
                hi == lo + size,
                sub@ == window(self.write_regions(), lo, hi),
                self.write_regions() == self.regions().subrange(
                    self.split_index(),
                    self.split_index() + self.write_regions().len(),
                ),
                0 <= k <= sub.iovecs.len(),
                bytes == total_len(sub@.take(k as int)),
                total_len(sub@) <= size,
                buf@.len() == size,
            decreases sub.iovecs.len() - k,
        {
            let iov = sub.iovecs[k];
            proof {
                lemma_total_len_take(sub@, k + 1);
                assert(sub@.take(k + 1).drop_last() == sub@.take(k as int));
                self.lemma_fragment_mapped(
                    self.write_regions(),
                    self.split_index(),
                    lo,
                    hi,
                    k as int,
                );
            }
            if let Some(mem) = self.mem {
                let copied = write_guest(mem, iov.iov_base, buf, bytes, iov.iov_len);
                assert(copied is Ok);
            }
            bytes += iov.iov_len;
            k += 1;
        }
        proof {
            assert(sub@.take(k as int) == sub@);
        }
        Some(bytes)
    }
}

/// Index of the first misplaced descriptor at or after `i`; the length of the list where
/// there is none.
pub open spec fn first_misplaced_from(mode: ParseMode, ds: Seq<Descriptor>, i: int) -> int
    decreases ds.len() - i,
{
    if i < 0 || i >= ds.len() {
        ds.len() as int
    } else if misplaced(mode, ds, i) {
        i
    } else {
        first_misplaced_from(mode, ds, i + 1)
    }
}

proof fn lemma_first_write_is(ds: Seq<Descriptor>, i: int, r: int)
    requires
        0 <= i <= r <= ds.len(),
        forall|j: int| i <= j < r ==> !(#[trigger] ds[j]).spec_is_write_only(),
        r < ds.len() ==> ds[r].spec_is_write_only(),
    ensures
        first_write_from(ds, i) == r,
    decreases r - i,
{
    if i < r {
        lemma_first_write_is(ds, i + 1, r);
    }
}

proof fn lemma_first_bad_none(mode: ParseMode, regions: Seq<(int, int)>, ds: Seq<Descriptor>, i: int)
    requires
        0 <= i <= ds.len(),
        forall|j: int| i <= j < ds.len() ==> !misplaced(mode, ds, j)
            && mapped(regions, #[trigger] ds[j]),
    ensures
        first_bad_from(mode, regions, ds, i) == ds.len(),
    decreases ds.len() - i,
{
    if i < ds.len() {
        assert(mapped(regions, ds[i]));
        lemma_first_bad_none(mode, regions, ds, i + 1);
    }
}

proof fn lemma_first_misplaced_bounds(mode: ParseMode, ds: Seq<Descriptor>, i: int, k: int)
    requires
        0 <= i <= k < ds.len(),
        misplaced(mode, ds, k),
    ensures
        i <= first_misplaced_from(mode, ds, i) <= k,
        misplaced(mode, ds, first_misplaced_from(mode, ds, i)),
    decreases k - i,
{
    if i < k && !misplaced(mode, ds, i) {
        lemma_first_misplaced_bounds(mode, ds, i + 1, k);
    }
}

proof fn lemma_first_bad_is_misplaced(
    mode: ParseMode,
    regions: Seq<(int, int)>,
    ds: Seq<Descriptor>,
    i: int,
)
    requires
        0 <= i <= ds.len(),
        forall|j: int|
            i <= j < first_misplaced_from(mode, ds, i) ==> mapped(regions, #[trigger] ds[j]),
    ensures
        first_bad_from(mode, regions, ds, i) == first_misplaced_from(mode, ds, i),
    decreases ds.len() - i,
{
    if i < ds.len() && !misplaced(mode, ds, i) {
        lemma_first_misplaced_from_bounds(mode, ds, i + 1);
        assert(mapped(regions, ds[i]));
        lemma_first_bad_is_misplaced(mode, regions, ds, i + 1);
    }
}

proof fn lemma_first_misplaced_from_bounds(mode: ParseMode, ds: Seq<Descriptor>, i: int)
    requires
        0 <= i <= ds.len(),
    ensures
        i <= first_misplaced_from(mode, ds, i) <= ds.len(),
    decreases ds.len() - i,
{
    if i < ds.len() && !misplaced(mode, ds, i) {
        lemma_first_misplaced_from_bounds(mode, ds, i + 1);
    }
}

/// A chain of `r` read-only descriptors followed by write-only ones, all of them guest
/// memory, parses; its first `r` spans are the read-only part, and each part holds the bytes
/// that its descriptors say.
pub proof fn lemma_parse_read_then_write(regions: Seq<(int, int)>, ds: Seq<Descriptor>, r: int)
    requires
        0 <= r <= ds.len(),
        forall|i: int| 0 <= i < r ==> !(#[trigger] ds[i]).spec_is_write_only(),
        forall|i: int| r <= i < ds.len() ==> (#[trigger] ds[i]).spec_is_write_only(),
        forall|i: int| 0 <= i < ds.len() ==> mapped(regions, #[trigger] ds[i]),
    ensures
        parse_outcome(ParseMode::Mixed, regions, ds) is Parsed,
        split_of(ParseMode::Mixed, ds) == r,
        total_len(regions_of(ds).take(r)) == chain_len(ds.take(r)),
        total_len(regions_of(ds).skip(r)) == chain_len(ds.skip(r)),
{
    lemma_first_write_is(ds, 0, r);
    lemma_first_bad_none(ParseMode::Mixed, regions, ds, 0);
    assert(regions_of(ds).take(r) == regions_of(ds.take(r)));
    assert(regions_of(ds).skip(r) == regions_of(ds.skip(r)));
    lemma_regions_of_total(ds.take(r));
    lemma_regions_of_total(ds.skip(r));
}

/// A chain with a read-only descriptor behind a write-only one is refused as one with a
/// read-only descriptor out of place, where every descriptor before the first such one is
/// guest memory.
pub proof fn lemma_parse_read_after_write(
    regions: Seq<(int, int)>,
    ds: Seq<Descriptor>,
    w: int,
    k: int,
)
    requires
        0 <= w < k < ds.len(),
        ds[w].spec_is_write_only(),
        !ds[k].spec_is_write_only(),
        forall|i: int|
            0 <= i < first_misplaced_from(ParseMode::Mixed, ds, 0) ==> mapped(
                regions,
                #[trigger] ds[i],
            ),
    ensures
        parse_outcome(ParseMode::Mixed, regions, ds) is ReadOnlyDescriptor,
{
    lemma_first_write_bounds(ds, 0);
    assert(read_prefix(ds) <= w) by {
        lemma_first_write_upto(ds, 0, w);
    }
    assert(misplaced(ParseMode::Mixed, ds, k));
    lemma_first_misplaced_bounds(ParseMode::Mixed, ds, 0, k);
    lemma_first_bad_is_misplaced(ParseMode::Mixed, regions, ds, 0);
}

proof fn lemma_first_write_upto(ds: Seq<Descriptor>, i: int, w: int)
    requires
        0 <= i <= w < ds.len(),
        ds[w].spec_is_write_only(),
    ensures
        first_write_from(ds, i) <= w,
    decreases w - i,
{
    if i < w && !ds[i].spec_is_write_only() {
        lemma_first_write_upto(ds, i + 1, w);
    }
}

/// Guest address of byte `i` of the buffer that `regions` describes.
pub open spec fn byte_addr(regions: Seq<IoVec>, i: int) -> int
    decreases regions.len(),
{
    if regions.len() == 0 {
        0
    } else if i < total_len(regions.drop_last()) {
        byte_addr(regions.drop_last(), i)
    } else {
        regions.last().iov_base + (i - total_len(regions.drop_last()))
    }
}

/// Byte `j` of a window is byte `lo + j` of the buffer: a copy through a window reaches the
/// bytes of the buffer from `lo` on, each at its own guest address, however the spans are
/// scattered.
pub proof fn lemma_window_bytes(regions: Seq<IoVec>, lo: int, hi: int, j: int)
    requires
        0 <= lo <= hi,
        all_wf(regions),
        0 <= j < total_len(window(regions, lo, hi)),
    ensures
        byte_addr(window(regions, lo, hi), j) == byte_addr(regions, lo + j),
    decreases regions.len(),
{
    if regions.len() > 0 {
        let front = regions.drop_last();
        let last = regions.last();
        let inner = window(front, lo, hi);
        let piece = clip(last, total_len(front), lo, hi);
        lemma_total_len_nonneg(front);
        lemma_window_total(front, lo, hi);
        lemma_window_total(regions, lo, hi);
        assert(last.wf());
        if piece.iov_len > 0 {
            let whole = inner.push(piece);
            assert(whole.drop_last() == inner);
            assert(whole.last() == piece);
            if j < total_len(inner) {
                lemma_window_bytes(front, lo, hi, j);
            }
        } else {
            lemma_window_bytes(front, lo, hi, j);
        }
    }
}

} // verus!
