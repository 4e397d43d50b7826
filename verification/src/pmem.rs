//! Plain data of the persistent-memory device: its configuration space and what it is
//! configured and restored from.

use crate::guest_memory::GuestMemoryMmap;
use vstd::prelude::*;

verus! {

/// Number of entries of the queue of the device.
pub const PMEM_QUEUE_SIZE: u16 = 256;

/// Number of queues of the device.
pub const PMEM_NUM_QUEUES: usize = 1;

/// The configuration space of the device: where its memory starts in the guest, and how
/// long it is.
#[derive(Debug, Clone, Copy, PartialEq, Eq, Structural)]
pub struct ConfigSpace {
    /// Guest address of the first byte of the persistent memory.
    pub start: u64,
    /// Length of the persistent memory in bytes.
    pub size: u64,
}

/// What a device is set up from before the guest boots.
#[derive(Debug)]
pub struct PmemDeviceConfig {
    /// Identifier of the device.
    pub drive_id: String,
    /// Path of the backing file on the host.
    pub path_on_host: String,
    /// Whether the guest may only read the device.
    pub is_read_only: bool,
}

/// An update of a device's configuration. A field that is not given stays as it is.
#[derive(Debug)]
pub struct PmemDeviceUpdateConfig {
    /// Identifier of the device, as given when it was set up.
    pub drive_id: String,
    /// New path of the backing file on the host.
    pub path_on_host: Option<String>,
}

/// What a device is restored with: the guest memory.
#[derive(Debug)]
pub struct PmemConstructorArgs(pub GuestMemoryMmap);

impl PmemConstructorArgs {
    /// Wraps the guest memory.
    pub fn new(mem: GuestMemoryMmap) -> (r: Self)
        ensures
            r.0 == mem,
    {
        Self(mem)
    }
}

} // verus!
