use vstd::prelude::*;

verus! {

// generic constants

/// Size of a page in bytes.
pub const PAGE_SIZE: u16 = 4096;
pub const VIRTIO0_IRQ: u16 = 1;
pub const UART0_IRQ: u16 = 10;

// hardware of the hypervisor

pub const UART_BASE: usize = 0x1000_0000;
pub const VIRTIO0_BASE: usize = 0x1000_1000;

pub const PLIC_BASE: usize = 0x0c00_0000;
pub const PLIC_HART0_M_INT_EN: usize = 0x2000;
pub const PLIC_HART0_M_PRIORITY: usize = 0x20_0000;
pub const PLIC_HART0_M_CLAIM_COMPLETE: usize = 0x20_0004;
pub const PLIC_HART1_M_INT_EN: usize = 0x2080;
pub const PLIC_HART1_M_PRIORITY: usize = 0x20_1000;
pub const PLIC_HART1_M_CLAIM_COMPLETE: usize = 0x20_1004;

pub const CLINT_HART0_MSIP: usize = 0x200_0000;
pub const CLINT_HART1_MSIP: usize = 0x200_0004;
pub const CLINT_HART2_MSIP: usize = 0x200_0008;
pub const CLINT_HART3_MSIP: usize = 0x200_000c;
pub const CLINT_HART4_MSIP: usize = 0x200_0010;

pub const CLINT_HART0_MTIMECMP: usize = 0x200_4000;
pub const CLINT_HART1_MTIMECMP: usize = 0x200_4008;
pub const CLINT_HART2_MTIMECMP: usize = 0x200_4010;
pub const CLINT_HART3_MTIMECMP: usize = 0x200_4018;
pub const CLINT_HART4_MTIMECMP: usize = 0x200_4020;

pub const CLINT_MTIME: usize = 0x200_bff8;

/// First byte of DRAM (page aligned).
pub const DRAM_START: u64 = 0x8000_0000;
/// Highest address that the page allocator of the hypervisor hands out.
pub const DRAM_END: u64 = 0x9000_0000;

// hardware as the guest sees it

pub const GUEST_UART_BASE: usize = 0x1000_0000;
pub const GUEST_DRAM_START: u64 = 0x8000_0000;
pub const GUEST_DRAM_END: u64 = 0x8200_0000;

} // verus!
