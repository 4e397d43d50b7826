use virtio_devices::guest_memory::GuestMemoryMmap;
use virtio_devices::iovec::{Error, IoVec, IoVecBuffer, IoVecSubregion};
use virtio_devices::queue::{Descriptor, DescriptorChain, VIRTQ_DESC_F_WRITE};
use vm_memory::bitmap::Bitmap;
use vm_memory::{Bytes, GuestAddress, GuestMemoryBackend, GuestMemoryRegion};

const MEM_SIZE: usize = 0x10000;
const DATA_ADDRESS: u64 = 0x1000;

fn create_virtio_mem() -> GuestMemoryMmap {
    GuestMemoryMmap::from_ranges(&[(GuestAddress(0), MEM_SIZE)]).unwrap()
}

// A chain whose buffers follow each other in guest memory, from `DATA_ADDRESS + addr_offset`
// on. Each descriptor is given as (index, length, flags).
fn desc_chain(addr_offset: u64, descs: &[(u16, u32, u16)]) -> DescriptorChain {
    let mut addr = DATA_ADDRESS + addr_offset;
    let mut descriptors = Vec::new();
    for &(_, len, flags) in descs {
        descriptors.push(Descriptor { addr, len, flags });
        addr += u64::from(len);
    }
    DescriptorChain::new(descs[0].0, descriptors).unwrap()
}

// Compares guest memory from `DATA_ADDRESS` on with the given buffers, one after the other.
fn check_data(mem: &GuestMemoryMmap, expected: &[&[u8]]) {
    let mut addr = DATA_ADDRESS;
    for data in expected {
        let mut buf = vec![0u8; data.len()];
        mem.read_slice(&mut buf, GuestAddress(addr)).unwrap();
        assert_eq!(&buf[..], *data);
        addr += data.len() as u64;
    }
}

fn read_only_chain(mem: &GuestMemoryMmap) -> DescriptorChain {
    let v: Vec<u8> = (0..=255).collect();
    mem.write_slice(&v, GuestAddress(DATA_ADDRESS)).unwrap();
    desc_chain(0, &[(0, 64, 0), (1, 64, 0), (2, 64, 0), (3, 64, 0)])
}

fn write_only_chain() -> DescriptorChain {
    desc_chain(
        0,
        &[
            (0, 64, VIRTQ_DESC_F_WRITE),
            (1, 64, VIRTQ_DESC_F_WRITE),
            (2, 64, VIRTQ_DESC_F_WRITE),
            (3, 64, VIRTQ_DESC_F_WRITE),
        ],
    )
}

// The three chains that the parse tests share: read-only, read-write and write-only.
fn three_chains() -> (DescriptorChain, DescriptorChain, DescriptorChain) {
    (
        desc_chain(0, &[(0, 64, 0), (1, 64, 0)]),
        desc_chain(128, &[(2, 64, 0), (3, 64, VIRTQ_DESC_F_WRITE)]),
        desc_chain(128, &[(4, 64, VIRTQ_DESC_F_WRITE), (5, 64, VIRTQ_DESC_F_WRITE)]),
    )
}

#[test]
fn test_parse_read_only() {
    let mem = create_virtio_mem();
    let (read_only, read_write, write_only) = three_chains();

    let mut iovec = IoVecBuffer::new();
    // First descriptor chain is read-only
    assert!(iovec.parse_read_only(&mem, read_only).is_ok());
    assert_eq!(iovec.descriptor_id(), Some(0));
    assert_eq!(iovec.read().len() + iovec.write().len(), 2);
    assert_eq!(iovec.read_len(), 128);
    assert_eq!(iovec.write_len(), 0);
    assert_eq!(iovec.read().len(), 2);

    // That's a read-write chain
    assert!(iovec.parse_read_only(&mem, read_write).is_err());

    // That's a write-only chain
    assert!(iovec.parse_read_only(&mem, write_only).is_err());
}

#[test]
fn test_parse_write_only() {
    let mem = create_virtio_mem();
    let (read_only, read_write, write_only) = three_chains();

    let mut iovec = IoVecBuffer::new();
    // First descriptor chain is read-only
    assert!(iovec.parse_write_only(&mem, read_only).is_err());

    // That's a read-write chain
    assert!(iovec.parse_write_only(&mem, read_write).is_err());

    // That's a write-only chain
    assert!(iovec.parse_write_only(&mem, write_only).is_ok());
    assert_eq!(iovec.descriptor_id(), Some(4));
    assert_eq!(iovec.read().len() + iovec.write().len(), 2);
    assert_eq!(iovec.write_len(), 128);
    assert_eq!(iovec.read_len(), 0);
    assert_eq!(iovec.read().len(), 0);
}

#[test]
fn test_parse_read_write() {
    let mem = create_virtio_mem();
    let (read_only, read_write, write_only) = three_chains();

    let mut iovec = IoVecBuffer::new();
    // First descriptor chain is read-only
    assert!(iovec.parse(&mem, read_only).is_ok());
    assert_eq!(iovec.descriptor_id(), Some(0));
    assert_eq!(iovec.read().len() + iovec.write().len(), 2);
    assert_eq!(iovec.read_len(), 128);
    assert_eq!(iovec.write_len(), 0);
    assert_eq!(iovec.read().len(), 2);

    // This is a read-write descriptor
    assert!(iovec.parse(&mem, read_write).is_ok());
    assert_eq!(iovec.descriptor_id(), Some(2));
    assert_eq!(iovec.read().len() + iovec.write().len(), 2);
    assert_eq!(iovec.read_len(), 64);
    assert_eq!(iovec.write_len(), 64);
    assert_eq!(iovec.read().len(), 1);

    // And finally a write-only descriptor
    assert!(iovec.parse(&mem, write_only).is_ok());
    assert_eq!(iovec.descriptor_id(), Some(4));
    assert_eq!(iovec.read().len() + iovec.write().len(), 2);
    assert_eq!(iovec.read_len(), 0);
    assert_eq!(iovec.write_len(), 128);
    assert_eq!(iovec.read().len(), 0);
}

fn read_tests(iovec: &IoVecBuffer) {
    let mut buf = vec![0; 5];
    assert_eq!(iovec.read_at(&mut buf[..4], 0), Some(4));
    assert_eq!(buf, vec![0u8, 1, 2, 3, 0]);

    assert_eq!(iovec.read_at(&mut buf, 0), Some(5));
    assert_eq!(buf, vec![0u8, 1, 2, 3, 4]);

    assert_eq!(iovec.read_at(&mut buf, 1), Some(5));
    assert_eq!(buf, vec![1u8, 2, 3, 4, 5]);

    assert_eq!(iovec.read_at(&mut buf, 60), Some(5));
    assert_eq!(buf, vec![60u8, 61, 62, 63, 64]);

    assert_eq!(iovec.read_at(&mut buf, 252), Some(4));
    assert_eq!(buf[0..4], vec![252u8, 253, 254, 255]);

    assert_eq!(iovec.read_at(&mut buf, 256), None);
}

#[test]
fn test_read_only_iovec_read_at() {
    let mem = create_virtio_mem();
    let head = read_only_chain(&mem);
    let mut iovec = IoVecBuffer::new();
    iovec.parse_read_only(&mem, head).unwrap();

    read_tests(&iovec);
}

#[test]
fn test_read_write_iovec_read_at() {
    let mem = create_virtio_mem();
    let head = read_only_chain(&mem);
    let mut iovec = IoVecBuffer::new();
    iovec.parse(&mem, head).unwrap();

    read_tests(&iovec);
}

#[test]
#[should_panic]
fn test_write_only_iovec_read_at() {
    let mem = create_virtio_mem();
    let head = write_only_chain();
    let mut iovec = IoVecBuffer::new();
    iovec.parse(&mem, head).unwrap();

    read_tests(&iovec);
}

fn write_tests(iovec: &mut IoVecBuffer, mem: &GuestMemoryMmap) {
    // One test vector for each part of the chain
    let mut test_vec1 = vec![0u8; 64];
    let mut test_vec2 = vec![0u8; 64];
    let test_vec3 = vec![0u8; 64];
    let mut test_vec4 = vec![0u8; 64];

    // Control test: Initially all four regions should be zero
    assert_eq!(iovec.write_at(&test_vec1, 0), Some(64));
    assert_eq!(iovec.write_at(&test_vec2, 64), Some(64));
    assert_eq!(iovec.write_at(&test_vec3, 128), Some(64));
    assert_eq!(iovec.write_at(&test_vec4, 192), Some(64));
    check_data(mem, &[&test_vec1, &test_vec2, &test_vec3, &test_vec4]);

    // Let's initialize test_vec1 with our buffer.
    let buf = vec![0u8, 1, 2, 3, 4];
    test_vec1[..buf.len()].copy_from_slice(&buf);
    // And write just a part of it
    assert_eq!(iovec.write_at(&buf[..3], 0), Some(3));
    // Not all 5 bytes from buf should be written in memory,
    // just 3 of them.
    check_data(mem, &[&[0u8, 1, 2, 0, 0]]);
    check_data(mem, &[&[0u8, 1, 2, 0, 0, 0, 0, 0][..]]);
    // But if we write the whole `buf` in memory then all
    // of it should be observable.
    assert_eq!(iovec.write_at(&buf, 0), Some(5));
    check_data(mem, &[&test_vec1, &test_vec2, &test_vec3, &test_vec4]);

    // We are now writing with an offset of 1. So, initialize
    // the corresponding part of `test_vec1`
    test_vec1[1..buf.len() + 1].copy_from_slice(&buf);
    assert_eq!(iovec.write_at(&buf, 1), Some(5));
    check_data(mem, &[&test_vec1, &test_vec2, &test_vec3, &test_vec4]);

    // Perform a write that traverses two of the underlying
    // regions. Writing at offset 60 should write 4 bytes on the
    // first region and one byte on the second
    test_vec1[60..64].copy_from_slice(&buf[0..4]);
    test_vec2[0] = 4;
    assert_eq!(iovec.write_at(&buf, 60), Some(5));
    check_data(mem, &[&test_vec1, &test_vec2, &test_vec3, &test_vec4]);

    test_vec4[63] = 3;
    test_vec4[62] = 2;
    test_vec4[61] = 1;
    // Now perform a write that does not fit in the buffer. Try writing
    // 5 bytes at offset 252 (only 4 bytes left).
    test_vec4[60..64].copy_from_slice(&buf[0..4]);
    assert_eq!(iovec.write_at(&buf, 252), Some(4));
    check_data(mem, &[&test_vec1, &test_vec2, &test_vec3, &test_vec4]);

    // Trying to add past the end of the buffer should not write anything
    assert_eq!(iovec.write_at(&buf, 256), None);
    check_data(mem, &[&test_vec1, &test_vec2, &test_vec3, &test_vec4]);
}

#[test]
fn test_write_only_iovec_write_at() {
    let mem = create_virtio_mem();
    // This is a descriptor chain with 4 elements 64 bytes long each.
    let head = write_only_chain();

    let mut iovec = IoVecBuffer::new();
    iovec.parse_write_only(&mem, head).unwrap();

    write_tests(&mut iovec, &mem);
}

#[test]
fn test_read_write_iovec_write_at() {
    let mem = create_virtio_mem();
    // This is a descriptor chain with 4 elements 64 bytes long each.
    let head = write_only_chain();

    let mut iovec = IoVecBuffer::new();
    iovec.parse(&mem, head).unwrap();

    write_tests(&mut iovec, &mem);
}

#[test]
#[should_panic]
fn test_read_only_iovec_write_at() {
    let mem = create_virtio_mem();
    // This is a descriptor chain with 4 elements 64 bytes long each.
    let head = desc_chain(0, &[(0, 64, 0), (1, 64, 0), (2, 64, 0), (3, 64, 0)]);

    let mut iovec = IoVecBuffer::new();
    iovec.parse(&mem, head).unwrap();

    write_tests(&mut iovec, &mem);
}

#[test]
fn test_sub_range() {
    let mem = create_virtio_mem();
    let head = read_only_chain(&mem);

    let mut iovec = IoVecBuffer::new();
    // This is a descriptor chain with 4 elements 64 bytes long each,
    // so 256 bytes long.
    iovec.parse(&mem, head).unwrap();

    // Sub-ranges past the end of the buffer are invalid
    assert!(iovec.read_subregion(iovec.read_len(), 256).is_none());

    // Getting an empty sub-range is invalid
    assert!(iovec.read_subregion(0, 0).is_none());

    // Let's take the whole region
    let sub = iovec.read_subregion(0, iovec.read_len()).unwrap();
    assert_eq!(iovec.read_len(), sub.len());

    // Let's take a valid sub-region that ends past the the end of the buffer
    let sub = iovec.read_subregion(128, 256).unwrap();
    assert_eq!(128, sub.len());

    // Getting a sub-region that falls in a single iovec of the buffer
    for i in 0..4 {
        let sub = iovec.read_subregion(10 + i * 64, 50).unwrap();
        assert_eq!(50, sub.len());
        assert_eq!(1, sub.as_slice().len());
        // All spans are 64 bytes long
        assert_eq!(sub.as_slice()[0].iov_base, iovec.read()[i].iov_base + 10);
    }

    // Get a sub-region that traverses more than one iovec of the buffer
    let sub = iovec.read_subregion(10, 100).unwrap();
    assert_eq!(100, sub.len());
    assert_eq!(2, sub.as_slice().len());
    assert_eq!(sub.as_slice()[0].iov_base, iovec.read()[0].iov_base + 10);

    assert_eq!(sub.as_slice()[1].iov_base, iovec.read()[1].iov_base);
}

#[test]
fn parse_keeps_the_spans_of_the_descriptors() {
    let mem = create_virtio_mem();
    let head = desc_chain(16, &[(7, 10, 0), (8, 20, 0), (9, 30, VIRTQ_DESC_F_WRITE)]);
    let mut iovec = IoVecBuffer::new();
    iovec.parse(&mem, head).unwrap();
    assert_eq!(iovec.descriptor_id(), Some(7));
    assert_eq!(
        iovec.read(),
        &[
            IoVec { iov_base: DATA_ADDRESS + 16, iov_len: 10 },
            IoVec { iov_base: DATA_ADDRESS + 26, iov_len: 20 }
        ][..]
    );
    assert_eq!(iovec.write(), &[IoVec { iov_base: DATA_ADDRESS + 46, iov_len: 30 }][..]);
    assert_eq!(iovec.read_len(), 30);
    assert_eq!(iovec.write_len(), 30);
}

#[test]
fn parse_refuses_a_read_only_descriptor_behind_a_write_only_one() {
    let mem = create_virtio_mem();
    let mut iovec = IoVecBuffer::new();
    let head = desc_chain(0, &[(3, 8, 0), (4, 8, VIRTQ_DESC_F_WRITE), (5, 8, 0)]);
    assert!(matches!(iovec.parse(&mem, head), Err(Error::ReadOnlyDescriptor)));
    // The head is recorded, and nothing else is kept.
    assert_eq!(iovec.descriptor_id(), Some(3));
    assert_eq!(iovec.read().len(), 0);
    assert_eq!(iovec.write().len(), 0);
    assert_eq!(iovec.read_len(), 0);
    assert_eq!(iovec.write_len(), 0);

    let head = desc_chain(0, &[(6, 8, VIRTQ_DESC_F_WRITE), (7, 8, 0)]);
    assert!(matches!(iovec.parse(&mem, head), Err(Error::ReadOnlyDescriptor)));
}

#[test]
fn parse_refuses_the_wrong_direction() {
    let mem = create_virtio_mem();
    let mut iovec = IoVecBuffer::new();
    let head = desc_chain(0, &[(0, 8, 0), (1, 8, VIRTQ_DESC_F_WRITE)]);
    assert!(matches!(iovec.parse_read_only(&mem, head), Err(Error::WriteOnlyDescriptor)));
    let head = desc_chain(0, &[(0, 8, VIRTQ_DESC_F_WRITE), (1, 8, 0)]);
    assert!(matches!(iovec.parse_write_only(&mem, head), Err(Error::ReadOnlyDescriptor)));
}

#[test]
fn parse_refuses_what_is_not_guest_memory() {
    let mem = create_virtio_mem();
    let mut iovec = IoVecBuffer::new();
    // The second buffer ends one byte behind the memory.
    let descriptors = vec![
        Descriptor { addr: 0, len: 16, flags: 0 },
        Descriptor { addr: MEM_SIZE as u64 - 15, len: 16, flags: 0 },
    ];
    let head = DescriptorChain::new(1, descriptors).unwrap();
    assert!(matches!(iovec.parse(&mem, head), Err(Error::GuestMemory(_))));
    assert_eq!(iovec.descriptor_id(), Some(1));
    assert_eq!(iovec.read_len(), 0);

    // A buffer that ends with the memory is fine.
    let descriptors = vec![Descriptor { addr: MEM_SIZE as u64 - 16, len: 16, flags: 0 }];
    let head = DescriptorChain::new(2, descriptors).unwrap();
    assert!(iovec.parse(&mem, head).is_ok());

    // The first fault decides: the unmapped buffer stands before the misplaced one.
    let descriptors = vec![
        Descriptor { addr: 0, len: 16, flags: VIRTQ_DESC_F_WRITE },
        Descriptor { addr: MEM_SIZE as u64, len: 16, flags: VIRTQ_DESC_F_WRITE },
        Descriptor { addr: 0, len: 16, flags: 0 },
    ];
    let head = DescriptorChain::new(3, descriptors).unwrap();
    assert!(matches!(iovec.parse(&mem, head), Err(Error::GuestMemory(_))));

    // A misplaced descriptor is refused as misplaced, whatever it points to.
    let descriptors = vec![
        Descriptor { addr: 0, len: 16, flags: VIRTQ_DESC_F_WRITE },
        Descriptor { addr: MEM_SIZE as u64, len: 16, flags: 0 },
    ];
    let head = DescriptorChain::new(4, descriptors).unwrap();
    assert!(matches!(iovec.parse(&mem, head), Err(Error::ReadOnlyDescriptor)));
}

#[test]
fn parse_marks_write_only_buffers_dirty() {
    let mem = create_virtio_mem();
    let region = mem.find_region(GuestAddress(0)).unwrap();
    assert!(!region.bitmap().dirty_at(0x2000));
    assert!(!region.bitmap().dirty_at(0x4000));

    let descriptors = vec![
        Descriptor { addr: 0x2000, len: 16, flags: 0 },
        Descriptor { addr: 0x4000, len: 16, flags: VIRTQ_DESC_F_WRITE },
    ];
    let head = DescriptorChain::new(0, descriptors).unwrap();
    let mut iovec = IoVecBuffer::new();
    iovec.parse(&mem, head).unwrap();

    assert!(!region.bitmap().dirty_at(0x2000));
    assert!(region.bitmap().dirty_at(0x4000));
}

#[test]
fn read_at_of_an_empty_buffer_reads_nothing() {
    let mem = create_virtio_mem();
    let head = read_only_chain(&mem);
    let mut iovec = IoVecBuffer::new();
    iovec.parse(&mem, head).unwrap();
    let mut empty: [u8; 0] = [];
    assert_eq!(iovec.read_at(&mut empty, 0), None);
    assert_eq!(iovec.write_at(&[1, 2, 3], 0), None);
}

#[test]
fn read_at_returns_what_write_at_wrote() {
    let mem = create_virtio_mem();
    // The write-only part of one chain is the read-only part of the other.
    let mut writer = IoVecBuffer::new();
    writer
        .parse_write_only(
            &mem,
            desc_chain(0, &[(0, 3, VIRTQ_DESC_F_WRITE), (1, 5, VIRTQ_DESC_F_WRITE)]),
        )
        .unwrap();
    let mut reader = IoVecBuffer::new();
    reader.parse_read_only(&mem, desc_chain(0, &[(2, 4, 0), (3, 4, 0)])).unwrap();

    assert_eq!(writer.write_at(&[10, 11, 12, 13, 14, 15, 16, 17, 18, 19], 1), Some(7));
    let mut buf = [0u8; 10];
    assert_eq!(reader.read_at(&mut buf, 0), Some(8));
    assert_eq!(buf, [0, 10, 11, 12, 13, 14, 15, 16, 0, 0]);
    // The buffer is a window of the part whatever it was before.
    let mut buf = [9u8; 4];
    assert_eq!(reader.read_at(&mut buf[1..3], 6), Some(2));
    assert_eq!(buf, [9, 15, 16, 9]);
}

#[test]
fn subregion_skips_empty_spans_and_stops_at_the_end() {
    let spans = [
        IoVec { iov_base: 100, iov_len: 0 },
        IoVec { iov_base: 200, iov_len: 4 },
        IoVec { iov_base: 300, iov_len: 0 },
        IoVec { iov_base: 400, iov_len: 4 },
    ];
    let sub = IoVecSubregion::new(&spans, 8, 2, 4).unwrap();
    assert_eq!(
        sub.as_slice(),
        &[IoVec { iov_base: 202, iov_len: 2 }, IoVec { iov_base: 400, iov_len: 2 }][..]
    );
    assert_eq!(sub.len(), 4);
    // A window that starts at the end of a span starts with the next one.
    let sub = IoVecSubregion::new(&spans, 8, 4, 100).unwrap();
    assert_eq!(sub.as_slice(), &[IoVec { iov_base: 400, iov_len: 4 }][..]);
    assert!(IoVecSubregion::new(&spans, 8, 8, 1).is_none());
    assert!(IoVecSubregion::new(&spans, 8, 0, 0).is_none());
}

#[test]
fn a_chain_needs_a_head() {
    assert!(DescriptorChain::new(0, Vec::new()).is_none());
    let chain = DescriptorChain::new(5, vec![Descriptor { addr: 1, len: 2, flags: 3 }]).unwrap();
    assert_eq!(chain.index(), 5);
    assert_eq!(chain.len(), 1);
    assert_eq!(chain.get(0), Descriptor { addr: 1, len: 2, flags: 3 });
    assert!(chain.is_write_only());
    assert!(!Descriptor { addr: 0, len: 0, flags: 1 }.is_write_only());
}
