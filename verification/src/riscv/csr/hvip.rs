//! `hvip` (CSR 0x645): interrupts injected into the guest.
use vstd::prelude::*;
use super::lemma_single_bit_updates;

verus! {

pub const VSSIP: u64 = 1 << 2;
pub const VSTIP: u64 = 1 << 6;
pub const VSEIP: u64 = 1 << 10;

pub fn trigger_software_interrupt(hvip: u64) -> (r: u64)
    ensures
        r == hvip | VSSIP,
{
    proof {
        lemma_single_bit_updates(hvip);
    }
    VSSIP | hvip
}

pub fn trigger_timing_interrupt(hvip: u64) -> (r: u64)
    ensures
        r == hvip | VSTIP,
{
    proof {
        lemma_single_bit_updates(hvip);
    }
    VSTIP | hvip
}

pub fn trigger_external_interrupt(hvip: u64) -> (r: u64)
    ensures
        r == hvip | VSEIP,
{
    proof {
        lemma_single_bit_updates(hvip);
    }
    VSEIP | hvip
}

} // verus!
