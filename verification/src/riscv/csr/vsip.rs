//! `vsip` (CSR 0x244): interrupts pending for the guest's supervisor.
use vstd::prelude::*;

verus! {

pub const VSTIP: u64 = 0b1 << 5;

pub fn set_vstimer(vsip: u64) -> (r: u64)
    ensures
        r == vsip | VSTIP,
{
    vsip | (VSTIP)
}

pub fn clear_vstimer(vsip: u64) -> (r: u64)
    ensures
        r == vsip & !VSTIP,
{
    vsip & !(VSTIP)
}

} // verus!
