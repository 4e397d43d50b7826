//! Addresses and interrupt lines that lay out an x86_64 guest.

use vstd::prelude::*;

verus! {

/// Initial stack for the boot CPU.
pub const BOOT_STACK_POINTER: u64 = 0x8ff0;

/// Kernel command line start address.
pub const CMDLINE_START: u64 = 0x20000;

/// Kernel command line maximum size.
pub const CMDLINE_MAX_SIZE: usize = 2048;

/// Start of the high memory: 1 MiB.
pub const HIMEM_START: u64 = 0x0010_0000;

/// First usable interrupt line for virtio devices. Typically 24 lines (0 to 23) are in use
/// on x86 systems.
pub const IRQ_BASE: u32 = 5;

/// Last usable interrupt line for virtio devices.
pub const IRQ_MAX: u32 = 23;

/// Address for the TSS setup.
pub const KVM_TSS_ADDRESS: u64 = 0xfffb_d000;

/// The zero page, which holds the boot parameters of the kernel.
pub const ZERO_PAGE_START: u64 = 0x7000;

/// APIC address.
pub const APIC_ADDR: u32 = 0xfee0_0000;

/// IOAPIC address.
pub const IOAPIC_ADDR: u32 = 0xfec0_0000;

/// The EBDA lies in the last KiB of the first 640 KiB of memory: `[0x9FC00, 0x9FFFF]`.
pub const EBDA_START: u64 = 0x9fc00;

/// Size of the EBDA.
pub const EBDA_SIZE: u64 = 0x400;

/// Start of the memory for ACPI data.
pub const ACPI_MEM_START: u64 = 0x9fc00;

/// Size of the memory for ACPI data: two pages, which hold the tables of a guest with
/// room to spare.
pub const ACPI_MEM_SIZE: u64 = 8192;

/// Location of the RSDP.
pub const RSDP_ADDR: u64 = 0x000e_0000;

} // verus!
