//! `sie` (CSR 0x104): supervisor interrupt enable bits.
use vstd::prelude::*;
use super::lemma_single_bit_updates;

verus! {

pub const SEIE: u64 = 1 << 9;
pub const STIE: u64 = 0b1 << 5;

pub fn enable_hardware_timer(sie: u64) -> (r: u64)
    ensures
        r == sie | STIE,
{
    let stie_mask = !(STIE);
    proof {
        lemma_single_bit_updates(sie);
    }
    (sie & stie_mask) | ((1 as u64) << 5)
}

pub fn clear_hardware_timer(sie: u64) -> (r: u64)
    ensures
        r == sie & !STIE,
{
    sie & !(STIE)
}

} // verus!
