//! Bits of `mideleg` (CSR 0x303): interrupts delegated to S-mode.
use vstd::prelude::*;

verus! {

pub const SEIP: u64 = 1 << 9;
pub const MTIP: u64 = 1 << 7;
pub const STIP: u64 = 1 << 5;
pub const MSIP: u64 = 1 << 3;
pub const SSIP: u64 = 1 << 1;

} // verus!
