//! The platform-level interrupt controller: which register words the
//! hypervisor writes to enable, claim and complete interrupts.
use vstd::prelude::*;
use crate::memlayout::{
    PLIC_BASE, PLIC_HART1_M_CLAIM_COMPLETE, PLIC_HART1_M_INT_EN, PLIC_HART1_M_PRIORITY, UART0_IRQ,
    VIRTIO0_IRQ,
};

verus! {

/// The writes that enable the VirtIO and UART interrupts for hart 1, in
/// order: each interrupt's priority to 1, both in the enable word, and a
/// priority threshold of 0.
pub fn enable_interrupt() -> (r: [(usize, u32); 4])
    ensures
        r@ == seq![
            ((PLIC_BASE + 4 * VIRTIO0_IRQ) as usize, 1u32),
            ((PLIC_BASE + 4 * UART0_IRQ) as usize, 1u32),
            ((PLIC_BASE + PLIC_HART1_M_INT_EN) as usize, ((1u32 << VIRTIO0_IRQ) | (1u32 << UART0_IRQ))),
            ((PLIC_BASE + PLIC_HART1_M_PRIORITY) as usize, 0u32),
        ],
{
    [
        (PLIC_BASE + 4 * (VIRTIO0_IRQ as usize), 1),
        (PLIC_BASE + 4 * (UART0_IRQ as usize), 1),
        (PLIC_BASE + PLIC_HART1_M_INT_EN, (1u32 << VIRTIO0_IRQ) | (1u32 << UART0_IRQ)),
        (PLIC_BASE + PLIC_HART1_M_PRIORITY, 0),
    ]
}

/// Address of the claim and complete register of hart 1.
pub fn claim_register() -> (r: usize)
    ensures
        r == PLIC_BASE + PLIC_HART1_M_CLAIM_COMPLETE,
{
    PLIC_BASE + PLIC_HART1_M_CLAIM_COMPLETE
}

/// The write that tells the controller that `interrupt` has been served.
pub fn complete(interrupt: u32) -> (r: (usize, u32))
    ensures
        r == ((PLIC_BASE + PLIC_HART1_M_CLAIM_COMPLETE) as usize, interrupt),
{
    (claim_register(), interrupt)
}

/// The interrupt claimed, from the value read from the claim register: none
/// when it reads 0.
pub fn get_claim(register_value: u32) -> (r: Option<u32>)
    ensures
        r == (if register_value == 0 {
            None
        } else {
            Some(register_value)
        }),
{
    if register_value == 0 {
        None
    } else {
        Some(register_value)
    }
}

} // verus!
