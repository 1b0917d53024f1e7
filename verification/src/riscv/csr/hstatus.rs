//! `hstatus` (CSR 0x600): the previous-virtualization bit SPV (bit 7).
use vstd::prelude::*;
use super::{CpuMode, ModeError, PreviousMode, VirtualzationMode};

verus! {

pub const SPV: u64 = 0b1 << 7;

/// `hstatus` with SPV set to `mode`.
pub open spec fn with_spv(hstatus: u64, mode: VirtualzationMode) -> u64 {
    (hstatus & !SPV) | (mode.value() << 7u64)
}

/// The mode that SPV holds.
pub open spec fn spv_of(hstatus: u64) -> VirtualzationMode {
    if (hstatus >> 7u64) & 1 == 0 {
        VirtualzationMode::Host
    } else {
        VirtualzationMode::Guest
    }
}

/// The mode a trap came from, given SPV and the previous privilege of
/// `sstatus`; machine mode cannot be a previous mode here.
pub open spec fn previous_mode_of(spv: VirtualzationMode, spp: CpuMode) -> Result<PreviousMode, ModeError> {
    match (spv, spp) {
        (_, CpuMode::M) => Err(ModeError),
        (VirtualzationMode::Host, CpuMode::S) => Ok(PreviousMode::HS_mode),
        (VirtualzationMode::Host, CpuMode::U) => Ok(PreviousMode::U_mode),
        (VirtualzationMode::Guest, CpuMode::S) => Ok(PreviousMode::VS_mode),
        (VirtualzationMode::Guest, CpuMode::U) => Ok(PreviousMode::VU_mode),
    }
}

pub fn set_spv(hstatus: u64, mode: VirtualzationMode) -> (r: u64)
    ensures
        r == with_spv(hstatus, mode),
{
    let spv_mask = !(0b1 << 7 as u64);
    (hstatus & spv_mask) | (mode.bits() << 7)
}

pub fn read_spv(hstatus: u64) -> (r: VirtualzationMode)
    ensures
        r == spv_of(hstatus),
{
    if ((hstatus >> 7) & 0b1) == 0b0 {
        VirtualzationMode::Host
    } else {
        VirtualzationMode::Guest
    }
}

/// The mode that the last trap into HS-mode came from, given `hstatus` and
/// the previous privilege held in `sstatus`.
pub fn previous_mode(hstatus: u64, spp: CpuMode) -> (r: Result<PreviousMode, ModeError>)
    ensures
        r == previous_mode_of(spv_of(hstatus), spp),
{
    let spv = read_spv(hstatus);
    match spv {
        VirtualzationMode::Host => {
            match spp {
                CpuMode::M => Err(ModeError),
                CpuMode::S => Ok(PreviousMode::HS_mode),
                CpuMode::U => Ok(PreviousMode::U_mode),
            }
        },
        VirtualzationMode::Guest => {
            match spp {
                CpuMode::M => Err(ModeError),
                CpuMode::S => Ok(PreviousMode::VS_mode),
                CpuMode::U => Ok(PreviousMode::VU_mode),
            }
        },
    }
}

/// Setting SPV and reading it back gives the mode that was set; no other bit
/// of `hstatus` changes.
pub proof fn lemma_spv_roundtrip(hstatus: u64, mode: VirtualzationMode)
    ensures
        spv_of(with_spv(hstatus, mode)) == mode,
        with_spv(hstatus, mode) & !SPV == hstatus & !SPV,
{
    lemma_spv_bits(hstatus, mode.value());
}

/// After switching to a guest (SPV set to the guest, previous privilege S),
/// the trap returns into VS-mode.
pub proof fn lemma_switch_to_guest_mode(hstatus: u64)
    ensures
        previous_mode_of(spv_of(with_spv(hstatus, VirtualzationMode::Guest)), CpuMode::S) == Ok::<
            PreviousMode,
            ModeError,
        >(PreviousMode::VS_mode),
{
    lemma_spv_roundtrip(hstatus, VirtualzationMode::Guest);
}

proof fn lemma_spv_bits(x: u64, v: u64)
    by (bit_vector)
    requires
        v <= 1,
    ensures
        ((((x & !(0b1u64 << 7u64)) | (v << 7u64)) >> 7u64) & 1) == v,
        ((x & !(0b1u64 << 7u64)) | (v << 7u64)) & !(0b1u64 << 7u64) == x & !(0b1u64 << 7u64),
{
}

} // verus!
