//! `sip` (CSR 0x144): supervisor interrupt pending bits.
use vstd::prelude::*;

verus! {

pub const STIP: u64 = 0b1 << 5;

pub fn clear_stimer(sip: u64) -> (r: u64)
    ensures
        r == sip & !STIP,
{
    sip & !(STIP)
}

} // verus!
