//! Enabling and disabling all interrupts through `mstatus`.
use vstd::prelude::*;
use super::csr::mstatus;

verus! {

/// `mstatus` with the machine and supervisor interrupt enables cleared.
pub fn disable(mstatus: u64) -> (r: u64)
    ensures
        r == mstatus & !(mstatus::MIE | mstatus::SIE),
{
    let m = mstatus::clear_mie(mstatus);
    assert((mstatus & !(0b1u64 << 3u64)) & !(0b1u64 << 1u64) == mstatus & !((0b1u64 << 3u64) | (
    0b1u64 << 1u64))) by (bit_vector);
    mstatus::clear_sie(m)
}

/// `mstatus` with the machine and supervisor interrupt enables set.
pub fn enable(mstatus: u64) -> (r: u64)
    ensures
        r == mstatus | mstatus::MIE | mstatus::SIE,
{
    let m = mstatus::set_mie(mstatus);
    mstatus::set_sie(m)
}

} // verus!
