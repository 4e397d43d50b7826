//! What every virtio device has: its activation state, its interrupt line and the
//! negotiation of features.

use crate::guest_memory::GuestMemoryMmap;
use vstd::prelude::*;

verus! {

/// Device type of the entropy device.
pub const TYPE_RNG: u32 = 4;

/// Interrupt status bit that says that a used ring has new completions.
pub const VIRTIO_MMIO_INT_VRING: u32 = 0x01;

/// Interrupt status bit that says that the configuration changed.
pub const VIRTIO_MMIO_INT_CONFIG: u32 = 0x02;

/// Whether a device is inactive or has been activated, with the guest memory that was
/// attached to it.
#[derive(Debug)]
pub enum DeviceState {
    Inactive,
    Activated(GuestMemoryMmap),
}

impl DeviceState {
    /// Whether the device is activated.
    pub fn is_activated(&self) -> (b: bool)
        ensures
            b == (self is Activated),
    {
        match self {
            DeviceState::Inactive => false,
            DeviceState::Activated(_) => true,
        }
    }

    /// The guest memory attached to the device, if it is activated.
    pub fn mem(&self) -> (r: Option<&GuestMemoryMmap>)
        ensures
            match *self {
                DeviceState::Activated(mem) => r == Some(&mem),
                DeviceState::Inactive => r is None,
            },
    {
        match self {
            DeviceState::Activated(mem) => Some(mem),
            DeviceState::Inactive => None,
        }
    }
}

/// What an interrupt is raised for.
#[derive(Debug, Clone, Copy, PartialEq, Eq, Structural)]
pub enum IrqType {
    /// The configuration changed.
    Config,
    /// A used ring has new completions.
    Vring,
}

impl IrqType {
    /// The status bit of the interrupt.
    pub open spec fn spec_status_bit(&self) -> u32 {
        match self {
            IrqType::Config => VIRTIO_MMIO_INT_CONFIG,
            IrqType::Vring => VIRTIO_MMIO_INT_VRING,
        }
    }

    /// The status bit of the interrupt.
    #[verifier::when_used_as_spec(spec_status_bit)]
    pub fn status_bit(&self) -> (r: u32)
        ensures
            r == self.spec_status_bit(),
    {
        match self {
            IrqType::Config => VIRTIO_MMIO_INT_CONFIG,
            IrqType::Vring => VIRTIO_MMIO_INT_VRING,
        }
    }
}

/// The interrupt line of a device: the status that the driver reads, and the number of
/// signals that were raised and not yet delivered.
#[derive(Debug, Clone, Copy, PartialEq, Eq, Structural)]
pub struct IrqTrigger {
    pub irq_status: u32,
    pub signals: u64,
}

impl IrqTrigger {
    /// An interrupt line with no status bit set and no signal raised.
    pub fn new() -> (r: Self)
        ensures
            r == (IrqTrigger { irq_status: 0, signals: 0 }),
    {
        IrqTrigger { irq_status: 0, signals: 0 }
    }

    /// Raises an interrupt: sets its status bit and counts one signal more.
    pub fn trigger_irq(&mut self, irq_type: IrqType)
        ensures
            final(self).irq_status == old(self).irq_status | irq_type.spec_status_bit(),
            final(self).signals == old(self).signals.saturating_add(1),
    {
        self.irq_status = self.irq_status | irq_type.status_bit();
        self.signals = self.signals.saturating_add(1);
    }

    /// Hands out the number of signals raised since the last call, and starts counting
    /// anew.
    pub fn take_signals(&mut self) -> (n: u64)
        ensures
            n == old(self).signals,
            final(self).signals == 0,
            final(self).irq_status == old(self).irq_status,
    {
        let n = self.signals;
        self.signals = 0;
        n
    }
}

/// The 32 feature bits of page `page` of `features`: page 0 holds the low half, page 1
/// the high half, and the other pages are empty.
pub open spec fn features_page(features: u64, page: u32) -> u32 {
    if page == 0 {
        (features & 0xFFFF_FFFF) as u32
    } else if page == 1 {
        (features >> 32) as u32
    } else {
        0
    }
}

/// The feature bits that `value` stands for when written to page `page`.
pub open spec fn page_features(page: u32, value: u32) -> u64 {
    if page == 0 {
        value as u64
    } else if page == 1 {
        (value as u64) << 32
    } else {
        0
    }
}

/// The acknowledged features after the driver wrote `value` to page `page`: those of the
/// written bits that the device offers are added.
pub open spec fn acked_after(avail: u64, acked: u64, page: u32, value: u32) -> u64 {
    acked | (page_features(page, value) & avail)
}

/// Page `page` of `features`.
pub fn features_by_page(features: u64, page: u32) -> (r: u32)
    ensures
        r == features_page(features, page),
{
    match page {
        0 => (features & 0xFFFF_FFFF) as u32,
        1 => (features >> 32) as u32,
        _ => 0u32,
    }
}

/// The acknowledged features after the driver wrote `value` to page `page`. Bits that the
/// device does not offer are not counted as acknowledged.
pub fn ack_by_page(avail: u64, acked: u64, page: u32, value: u32) -> (r: u64)
    ensures
        r == acked_after(avail, acked, page, value),
{
    let mut v: u64 = match page {
        0 => value as u64,
        1 => (value as u64) << 32,
        _ => 0u64,
    };
    let unrequested_features: u64 = v & !avail;
    if unrequested_features != 0 {
        let ghost before = v;
        v &= !unrequested_features;
        assert(v == before & avail) by (bit_vector)
            requires
                unrequested_features == before & !avail,
                v == before & !unrequested_features,
        ;
    } else {
        assert(v == v & avail) by (bit_vector)
            requires
                v & !avail == 0,
        ;
    }
    acked | v
}

/// A virtio device as its transport drives it: the negotiation of features, the
/// configuration space and the activation state.
pub trait VirtioDevice {
    /// The features that the device offers.
    spec fn spec_avail_features(&self) -> u64;

    /// The features that the driver has acknowledged.
    spec fn spec_acked_features(&self) -> u64;

    /// The features that the device offers.
    fn avail_features(&self) -> (r: u64)
        ensures
            r == self.spec_avail_features(),
    ;

    /// The features that the driver has acknowledged.
    fn acked_features(&self) -> (r: u64)
        ensures
            r == self.spec_acked_features(),
    ;

    /// Sets the features that the driver has acknowledged.
    fn set_acked_features(&mut self, acked_features: u64)
        ensures
            final(self).spec_acked_features() == acked_features,
            final(self).spec_avail_features() == old(self).spec_avail_features(),
    ;

    /// Whether the driver has acknowledged feature number `feature`.
    fn has_feature(&self, feature: u64) -> (r: bool)
        requires
            feature < 64,
        ensures
            r == (self.spec_acked_features() & (1u64 << feature) != 0),
    {
        (self.acked_features() & (1u64 << feature)) != 0
    }

    /// The type of the device.
    fn device_type(&self) -> u32;

    /// Page `page` of the features that the device offers: page 0 holds the low 32 bits,
    /// page 1 the high 32 bits, and the other pages are empty.
    fn avail_features_by_page(&self, page: u32) -> (r: u32)
        ensures
            r == features_page(self.spec_avail_features(), page),
    {
        features_by_page(self.avail_features(), page)
    }

    /// Acknowledges the features that `value` stands for on page `page`, as far as the
    /// device offers them.
    fn ack_features_by_page(&mut self, page: u32, value: u32)
        ensures
            final(self).spec_avail_features() == old(self).spec_avail_features(),
            final(self).spec_acked_features() == acked_after(
                old(self).spec_avail_features(),
                old(self).spec_acked_features(),
                page,
                value,
            ),
    {
        let acked = ack_by_page(self.avail_features(), self.acked_features(), page, value);
        self.set_acked_features(acked);
    }

    /// Reads the configuration space of the device at `offset` into `data`.
    fn read_config(&self, offset: u64, data: &mut [u8])
        ensures
            final(data)@.len() == old(data)@.len(),
    ;

    /// Writes `data` to the configuration space of the device at `offset`.
    fn write_config(&mut self, offset: u64, data: &[u8]);

    /// Whether the device is activated.
    fn is_activated(&self) -> bool;
}

/// Why a device could not be activated.
#[derive(Debug, Clone, Copy, PartialEq, Eq, Structural)]
pub enum ActivateError {
    /// The activation could not be announced.
    BadActivate,
}

} // verus!
