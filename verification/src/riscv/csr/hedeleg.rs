//! Bits of `hedeleg` (CSR 0x602): synchronous exceptions delegated to VS-mode.
use vstd::prelude::*;

verus! {

pub const INST_ADDR_MISALIGN: u64 = 1 << 0;
pub const BREAKPOINT: u64 = 1 << 3;
pub const ENV_CALL_FROM_U_MODE_OR_VU_MODE: u64 = 1 << 8;
pub const INST_PAGE_FAULT: u64 = 1 << 12;
pub const LOAD_PAGE_FAULT: u64 = 1 << 13;
pub const STORE_AMO_PAGE_FAULT: u64 = 1 << 15;

} // verus!
