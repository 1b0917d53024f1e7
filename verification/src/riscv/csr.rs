//! Privilege and virtualization modes, and the updates of the control and
//! status registers. Each update takes the current value of its register
//! and returns the value to write back (registers are 64 bits wide).
use vstd::prelude::*;

pub mod hedeleg;
pub mod hstatus;
pub mod hvip;
pub mod mideleg;
pub mod mie;
pub mod mip;
pub mod mstatus;
pub mod sie;
pub mod sip;
pub mod vsip;

verus! {

#[derive(Clone, Copy, Debug, PartialEq, Eq, Structural)]
pub enum CpuMode {
    M,
    S,
    U,
}

impl CpuMode {
    /// The encoding of the mode in a previous-privilege field.
    pub open spec fn value(self) -> u64 {
        match self {
            CpuMode::M => 0b11,
            CpuMode::S => 0b01,
            CpuMode::U => 0b00,
        }
    }

    pub fn bits(&self) -> (r: u64)
        ensures
            r == self.value(),
    {
        match self {
            CpuMode::M => 0b11,
            CpuMode::S => 0b01,
            CpuMode::U => 0b00,
        }
    }
}

#[derive(Clone, Copy, Debug, PartialEq, Eq, Structural)]
pub enum VirtualzationMode {
    Host,
    Guest,
}

impl VirtualzationMode {
    /// The encoding of the mode in a previous-virtualization bit.
    pub open spec fn value(self) -> u64 {
        match self {
            VirtualzationMode::Host => 0,
            VirtualzationMode::Guest => 1,
        }
    }

    pub fn bits(&self) -> (r: u64)
        ensures
            r == self.value(),
    {
        match self {
            VirtualzationMode::Host => 0,
            VirtualzationMode::Guest => 1,
        }
    }
}

#[allow(non_camel_case_types)]
#[derive(Clone, Copy, Debug, PartialEq, Eq, Structural)]
pub enum PreviousMode {
    U_mode,
    HS_mode,
    M_mode,
    VU_mode,
    VS_mode,
}

impl PreviousMode {
    /// How the mode is named in the trap reports.
    pub fn name(&self) -> (r: &'static str)
        ensures
            r@ == match self {
                PreviousMode::U_mode => "User mode (U)"@,
                PreviousMode::HS_mode => "Hypervisor mode (HS)"@,
                PreviousMode::M_mode => "Machine Mode (M)"@,
                PreviousMode::VU_mode => "Virtual User Mode (VU)"@,
                PreviousMode::VS_mode => "Virtual Supervisor Mode (VS)"@,
            },
    {
        match self {
            PreviousMode::U_mode => "User mode (U)",
            PreviousMode::HS_mode => "Hypervisor mode (HS)",
            PreviousMode::M_mode => "Machine Mode (M)",
            PreviousMode::VU_mode => "Virtual User Mode (VU)",
            PreviousMode::VS_mode => "Virtual Supervisor Mode (VS)",
        }
    }
}

/// Setting or clearing a single bit by first masking it out and then putting
/// the new bit in is the same as setting or clearing it directly; putting a
/// bit in commutes.
pub proof fn lemma_single_bit_updates(x: u64)
    by (bit_vector)
    ensures
        (x & !(0b1u64 << 7u64)) | (1u64 << 7u64) == x | (0b1u64 << 7u64),
        (x & !(0b1u64 << 7u64)) | (0u64 << 7u64) == x & !(0b1u64 << 7u64),
        (x & !(0b1u64 << 5u64)) | (1u64 << 5u64) == x | (0b1u64 << 5u64),
        (x & !(0b1u64 << 5u64)) | (0u64 << 5u64) == x & !(0b1u64 << 5u64),
        (0b1u64 << 5u64) == (1u64 << 5u64),
        (1u64 << 2u64) | x == x | (1u64 << 2u64),
        (1u64 << 6u64) | x == x | (1u64 << 6u64),
        (1u64 << 10u64) | x == x | (1u64 << 10u64),
{
}

/// The previous-mode fields hold a combination that names no mode.
#[derive(Clone, Copy, Debug, PartialEq, Eq, Structural)]
pub struct ModeError;

} // verus!
