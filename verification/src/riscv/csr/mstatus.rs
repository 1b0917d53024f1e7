//! `mstatus` (CSR 0x300): the interrupt enable bits MIE (bit 3) and SIE
//! (bit 1), the previous privilege MPP (bits 11 and 12) and the previous
//! virtualization mode MPV (bit 39).
use vstd::prelude::*;
use super::{CpuMode, ModeError, PreviousMode, VirtualzationMode};

verus! {

pub const MIE: u64 = 0b1 << 3;
pub const SIE: u64 = 0b1 << 1;
pub const MPP: u64 = 0b11 << 11;
pub const MPV: u64 = 0b1 << 39;

/// `mstatus` with MPP set to `mode`.
pub open spec fn with_mpp(mstatus: u64, mode: CpuMode) -> u64 {
    (mstatus & !MPP) | (mode.value() << 11u64)
}

/// The privilege that MPP holds; the reserved encoding reads as M.
pub open spec fn mpp_of(mstatus: u64) -> CpuMode {
    let f = (mstatus >> 11u64) & 0b11;
    if f == 0 {
        CpuMode::U
    } else if f == 1 {
        CpuMode::S
    } else {
        CpuMode::M
    }
}

/// `mstatus` with MPV set to `mode`.
pub open spec fn with_mpv(mstatus: u64, mode: VirtualzationMode) -> u64 {
    (mstatus & !MPV) | (mode.value() << 39u64)
}

pub open spec fn mpv_of(mstatus: u64) -> VirtualzationMode {
    if (mstatus >> 39u64) & 1 == 0 {
        VirtualzationMode::Host
    } else {
        VirtualzationMode::Guest
    }
}

/// The mode a trap into M-mode came from; a guest cannot run in M-mode.
pub open spec fn previous_mode_of(mpv: VirtualzationMode, mpp: CpuMode) -> Result<PreviousMode, ModeError> {
    match (mpv, mpp) {
        (VirtualzationMode::Host, CpuMode::M) => Ok(PreviousMode::M_mode),
        (VirtualzationMode::Host, CpuMode::S) => Ok(PreviousMode::HS_mode),
        (VirtualzationMode::Host, CpuMode::U) => Ok(PreviousMode::U_mode),
        (VirtualzationMode::Guest, CpuMode::M) => Err(ModeError),
        (VirtualzationMode::Guest, CpuMode::S) => Ok(PreviousMode::VS_mode),
        (VirtualzationMode::Guest, CpuMode::U) => Ok(PreviousMode::VU_mode),
    }
}

pub fn is_mie_set(mstatus: u64) -> (r: bool)
    ensures
        r == (mstatus & MIE != 0),
{
    proof {
        lemma_mie_bits(mstatus);
    }
    if ((mstatus >> 3) & 0b1) == 0b1 {
        true
    } else {
        false
    }
}

pub fn set_mie(mstatus: u64) -> (r: u64)
    ensures
        r == mstatus | MIE,
{
    let mie_mask = MIE;
    mstatus | mie_mask
}

pub fn clear_mie(mstatus: u64) -> (r: u64)
    ensures
        r == mstatus & !MIE,
{
    let mie_mask = !(MIE);
    mstatus & mie_mask
}

pub fn set_sie(mstatus: u64) -> (r: u64)
    ensures
        r == mstatus | SIE,
{
    let mie_mask = SIE;
    mstatus | mie_mask
}

pub fn clear_sie(mstatus: u64) -> (r: u64)
    ensures
        r == mstatus & !SIE,
{
    let sie_mask = !(SIE);
    mstatus & sie_mask
}

pub fn set_mpp(mstatus: u64, mode: CpuMode) -> (r: u64)
    ensures
        r == with_mpp(mstatus, mode),
{
    let mpp_mask = !(0b11 << 11 as u64);
    (mstatus & mpp_mask) | (mode.bits() << 11)
}

pub fn read_mpp(mstatus: u64) -> (r: CpuMode)
    ensures
        r == mpp_of(mstatus),
{
    let mpv = (mstatus >> 11) & 0b11;
    if mpv == 0b00 {
        CpuMode::U
    } else if mpv == 0b01 {
        CpuMode::S
    } else {
        CpuMode::M
    }
}

pub fn set_mpv(mstatus: u64, mode: VirtualzationMode) -> (r: u64)
    ensures
        r == with_mpv(mstatus, mode),
{
    let mpv_mask = !(0b1 << 39 as u64);
    (mstatus & mpv_mask) | (mode.bits() << 39)
}

pub fn read_mpv(mstatus: u64) -> (r: VirtualzationMode)
    ensures
        r == mpv_of(mstatus),
{
    if ((mstatus >> 39) & 0b1) == 0b0 {
        VirtualzationMode::Host
    } else {
        VirtualzationMode::Guest
    }
}

/// The mode that the last trap into M-mode came from.
pub fn previous_mode(mstatus: u64) -> (r: Result<PreviousMode, ModeError>)
    ensures
        r == previous_mode_of(mpv_of(mstatus), mpp_of(mstatus)),
{
    let mpv = read_mpv(mstatus);
    let mpp = read_mpp(mstatus);
    match mpv {
        VirtualzationMode::Host => {
            match mpp {
                CpuMode::M => Ok(PreviousMode::M_mode),
                CpuMode::S => Ok(PreviousMode::HS_mode),
                CpuMode::U => Ok(PreviousMode::U_mode),
            }
        },
        VirtualzationMode::Guest => {
            match mpp {
                CpuMode::M => Err(ModeError),
                CpuMode::S => Ok(PreviousMode::VS_mode),
                CpuMode::U => Ok(PreviousMode::VU_mode),
            }
        },
    }
}

/// Setting MPP and reading it back gives the privilege that was set; MPP
/// changes no other bit, MPV in particular.
pub proof fn lemma_mpp_roundtrip(mstatus: u64, mode: CpuMode)
    ensures
        mpp_of(with_mpp(mstatus, mode)) == mode,
        with_mpp(mstatus, mode) & !MPP == mstatus & !MPP,
        mpv_of(with_mpp(mstatus, mode)) == mpv_of(mstatus),
{
    lemma_mpp_bits(mstatus, mode.value());
}

/// Setting MPV and reading it back gives the mode that was set; MPV changes
/// no other bit, MPP in particular.
pub proof fn lemma_mpv_roundtrip(mstatus: u64, mode: VirtualzationMode)
    ensures
        mpv_of(with_mpv(mstatus, mode)) == mode,
        with_mpv(mstatus, mode) & !MPV == mstatus & !MPV,
        mpp_of(with_mpv(mstatus, mode)) == mpp_of(mstatus),
{
    lemma_mpv_bits(mstatus, mode.value());
}

/// After the switch to the hypervisor (MPP set to S, MPV to the host), the
/// return from M-mode goes to HS-mode, whatever `mstatus` held before.
pub proof fn lemma_switch_to_hypervisor_mode(mstatus: u64)
    ensures
        previous_mode_of(
            mpv_of(with_mpv(with_mpp(mstatus, CpuMode::S), VirtualzationMode::Host)),
            mpp_of(with_mpv(with_mpp(mstatus, CpuMode::S), VirtualzationMode::Host)),
        ) == Ok::<PreviousMode, ModeError>(PreviousMode::HS_mode),
{
    lemma_mpp_roundtrip(mstatus, CpuMode::S);
    lemma_mpv_roundtrip(with_mpp(mstatus, CpuMode::S), VirtualzationMode::Host);
}

/// Setting MIE makes `is_mie_set` true, clearing it makes it false; neither
/// changes another bit.
pub proof fn lemma_mie_set_clear(mstatus: u64)
    ensures
        (mstatus | MIE) & MIE != 0,
        (mstatus & !MIE) & MIE == 0,
        (mstatus | MIE) & !MIE == mstatus & !MIE,
        (mstatus | MIE) & !MIE == (mstatus & !MIE) & !MIE,
{
    lemma_mie_bits(mstatus);
}

proof fn lemma_mie_bits(x: u64)
    by (bit_vector)
    ensures
        ((x >> 3u64) & 0b1 == 0b1) == (x & (0b1u64 << 3u64) != 0),
        (x | (0b1u64 << 3u64)) & (0b1u64 << 3u64) != 0,
        (x & !(0b1u64 << 3u64)) & (0b1u64 << 3u64) == 0,
        (x | (0b1u64 << 3u64)) & !(0b1u64 << 3u64) == x & !(0b1u64 << 3u64),
        (x & !(0b1u64 << 3u64)) & !(0b1u64 << 3u64) == x & !(0b1u64 << 3u64),
{
}

proof fn lemma_mpp_bits(x: u64, v: u64)
    by (bit_vector)
    requires
        v <= 3,
    ensures
        ((((x & !(0b11u64 << 11u64)) | (v << 11u64)) >> 11u64) & 0b11) == v,
        ((x & !(0b11u64 << 11u64)) | (v << 11u64)) & !(0b11u64 << 11u64) == x & !(0b11u64 << 11u64),
        ((((x & !(0b11u64 << 11u64)) | (v << 11u64)) >> 39u64) & 1) == ((x >> 39u64) & 1),
{
}

proof fn lemma_mpv_bits(x: u64, v: u64)
    by (bit_vector)
    requires
        v <= 1,
    ensures
        ((((x & !(0b1u64 << 39u64)) | (v << 39u64)) >> 39u64) & 1) == v,
        ((x & !(0b1u64 << 39u64)) | (v << 39u64)) & !(0b1u64 << 39u64) == x & !(0b1u64 << 39u64),
        ((((x & !(0b1u64 << 39u64)) | (v << 39u64)) >> 11u64) & 0b11) == ((x >> 11u64) & 0b11),
{
}

} // verus!
