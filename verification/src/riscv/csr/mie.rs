//! `mie` (CSR 0x304): machine interrupt enable bits.
use vstd::prelude::*;
use super::lemma_single_bit_updates;

verus! {

pub const MTIE: u64 = 0b1 << 7;
pub const STIE: u64 = 0b1 << 5;

pub fn enable_m_mode_hardware_timer(mie: u64) -> (r: u64)
    ensures
        r == mie | MTIE,
{
    let mtie_mask = !(MTIE);
    proof {
        lemma_single_bit_updates(mie);
    }
    (mie & mtie_mask) | ((1 as u64) << 7)
}

pub fn clear_m_mode_hardware_timer(mie: u64) -> (r: u64)
    ensures
        r == mie & !MTIE,
{
    let mtie_mask = !(MTIE);
    proof {
        lemma_single_bit_updates(mie);
    }
    (mie & mtie_mask) | ((0 as u64) << 7)
}

pub fn enable_s_mode_hardware_timer(mie: u64) -> (r: u64)
    ensures
        r == mie | STIE,
{
    let stie_mask = !(STIE);
    proof {
        lemma_single_bit_updates(mie);
    }
    (mie & stie_mask) | (STIE)
}

pub fn clear_s_mode_hardware_timer(mie: u64) -> (r: u64)
    ensures
        r == mie & !STIE,
{
    let stie_mask = !(STIE);
    proof {
        lemma_single_bit_updates(mie);
    }
    (mie & stie_mask) | ((0 as u64) << 5)
}

} // verus!
