//! `mip` (CSR 0x344): machine interrupt pending bits.
use vstd::prelude::*;
use super::lemma_single_bit_updates;

verus! {

pub const STIP: u64 = 0b1 << 5;

pub fn set_stimer(mip: u64) -> (r: u64)
    ensures
        r == mip | STIP,
{
    let stip_mask = !(STIP);
    proof {
        lemma_single_bit_updates(mip);
    }
    (mip & stip_mask) | STIP
}

pub fn clear_stimer(mip: u64) -> (r: u64)
    ensures
        r == mip & !STIP,
{
    let stip_mask = !(STIP);
    proof {
        lemma_single_bit_updates(mip);
    }
    (mip & stip_mask) | ((0 as u64) << 5)
}

} // verus!
