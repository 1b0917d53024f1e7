//! Verified core of a RISC-V hypervisor: Sv39 page tables over a model of
//! physical memory, a page allocator, control and status register updates,
//! SBI return values, virtual timers, and the decisions of the trap handlers.
pub mod clint;
pub mod guest;
pub mod hypervisor;
pub mod m_mode_calls;
pub mod memlayout;
pub mod mkernel;
pub mod memory;
pub mod paging;
pub mod plic;
pub mod riscv;
pub mod sbi;
pub mod table_tree;
pub mod timer;
