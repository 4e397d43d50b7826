use virtio_devices::device::{
    ack_by_page, features_by_page, DeviceState, IrqTrigger, IrqType, VIRTIO_MMIO_INT_CONFIG,
    VIRTIO_MMIO_INT_VRING,
};
use virtio_devices::guest_memory::GuestMemoryMmap;
use virtio_devices::pmem::{
    ConfigSpace, PmemConstructorArgs, PmemDeviceConfig, PmemDeviceUpdateConfig, PMEM_NUM_QUEUES,
    PMEM_QUEUE_SIZE,
};
use vm_memory::{GuestAddress, GuestMemoryBackend};

fn create_virtio_mem() -> GuestMemoryMmap {
    GuestMemoryMmap::from_ranges(&[(GuestAddress(0), 0x1000), (GuestAddress(0x4000), 0x2000)])
        .unwrap()
}

#[test]
fn an_inactive_device_has_no_memory() {
    let state = DeviceState::Inactive;
    assert!(!state.is_activated());
    assert!(state.mem().is_none());
}

#[test]
fn an_activated_device_has_the_memory_it_was_given() {
    let state = DeviceState::Activated(create_virtio_mem());
    assert!(state.is_activated());
    let mem = state.mem().unwrap();
    assert_eq!(mem.num_regions(), 2);
    assert_eq!(mem.last_addr(), GuestAddress(0x5fff));
}

#[test]
fn an_interrupt_sets_its_status_bit_and_counts_a_signal() {
    let mut irq = IrqTrigger::new();
    assert_eq!(irq, IrqTrigger { irq_status: 0, signals: 0 });
    irq.trigger_irq(IrqType::Vring);
    assert_eq!(irq, IrqTrigger { irq_status: VIRTIO_MMIO_INT_VRING, signals: 1 });
    irq.trigger_irq(IrqType::Config);
    irq.trigger_irq(IrqType::Vring);
    assert_eq!(irq.irq_status, VIRTIO_MMIO_INT_VRING | VIRTIO_MMIO_INT_CONFIG);
    assert_eq!(irq.take_signals(), 3);
    assert_eq!(irq.take_signals(), 0);
    assert_eq!(irq.irq_status, 3);
    assert_eq!(IrqType::Vring.status_bit(), 1);
    assert_eq!(IrqType::Config.status_bit(), 2);
}

#[test]
fn the_count_of_signals_stops_at_the_largest_number() {
    let mut irq = IrqTrigger { irq_status: 0, signals: u64::MAX - 1 };
    irq.trigger_irq(IrqType::Vring);
    assert_eq!(irq.signals, u64::MAX);
    irq.trigger_irq(IrqType::Vring);
    assert_eq!(irq.signals, u64::MAX);
}

#[test]
fn features_come_in_pages_of_32_bits() {
    let features = 0x1234_5678_9abc_def0u64;
    assert_eq!(features_by_page(features, 0), 0x9abc_def0);
    assert_eq!(features_by_page(features, 1), 0x1234_5678);
    assert_eq!(features_by_page(features, 2), 0);
    assert_eq!(features_by_page(features, u32::MAX), 0);
}

#[test]
fn only_offered_features_are_acknowledged() {
    let avail = 0x0000_0001_0000_0003u64;
    assert_eq!(ack_by_page(avail, 0, 0, 0xffff_ffff), 0x3);
    assert_eq!(ack_by_page(avail, 0x3, 1, 0xffff_ffff), 0x0000_0001_0000_0003);
    assert_eq!(ack_by_page(avail, 0, 1, 0x2), 0);
    assert_eq!(ack_by_page(avail, 0x1, 0, 0x2), 0x3);
    // Other pages acknowledge nothing, and what was acknowledged stays.
    assert_eq!(ack_by_page(avail, 0x1, 2, 0xffff_ffff), 0x1);
    assert_eq!(ack_by_page(avail, 0x8, 0, 0), 0x8);
}

#[test]
fn constructor_args_wrap_the_memory() {
    let args = PmemConstructorArgs::new(create_virtio_mem());
    assert_eq!(args.0.num_regions(), 2);
}

#[test]
fn plain_data_of_the_persistent_memory_device() {
    let space = ConfigSpace { start: 0x1000, size: 0x2000 };
    assert_eq!(space, ConfigSpace { start: 0x1000, size: 0x2000 });
    let config = PmemDeviceConfig {
        drive_id: String::from("pmem0"),
        path_on_host: String::from("/tmp/backing"),
        is_read_only: true,
    };
    assert_eq!(config.drive_id, "pmem0");
    assert!(config.is_read_only);
    let update = PmemDeviceUpdateConfig { drive_id: String::from("pmem0"), path_on_host: None };
    assert_eq!(update.path_on_host, None);
    assert_eq!(PMEM_QUEUE_SIZE, 256);
    assert_eq!(PMEM_NUM_QUEUES, 1);
}
