//! Calls from the hypervisor to the M-mode layer, for the work that needs
//! M-mode privileges. Each function gives the arguments of its environment
//! call; the M-mode side decodes them with `decode`.
use vstd::prelude::*;

verus! {

pub const DISABLE_ALL_INTERRUPTS: usize = 0x01;
pub const ENABLE_ALL_INTERRUPTS: usize = 0x02;
pub const DISABLE_ALL_TIMERS: usize = 0x03;
pub const ENABLE_ALL_TIMERS: usize = 0x04;

pub fn disable_interrupts() -> (r: (usize, usize, usize, usize))
    ensures
        r == (DISABLE_ALL_INTERRUPTS, 0usize, 0usize, 0usize),
{
    (DISABLE_ALL_INTERRUPTS, 0x0, 0x0, 0x0)
}

pub fn enable_interrupts() -> (r: (usize, usize, usize, usize))
    ensures
        r == (ENABLE_ALL_INTERRUPTS, 0usize, 0usize, 0usize),
{
    (ENABLE_ALL_INTERRUPTS, 0x0, 0x0, 0x0)
}

pub fn disable_timers() -> (r: (usize, usize, usize, usize))
    ensures
        r == (DISABLE_ALL_TIMERS, 0usize, 0usize, 0usize),
{
    (DISABLE_ALL_TIMERS, 0x0, 0x0, 0x0)
}

pub fn enable_timers() -> (r: (usize, usize, usize, usize))
    ensures
        r == (ENABLE_ALL_TIMERS, 0usize, 0usize, 0usize),
{
    (ENABLE_ALL_TIMERS, 0x0, 0x0, 0x0)
}

/// A request that the hypervisor makes of the M-mode layer.
#[derive(Clone, Copy, Debug, PartialEq, Eq, Structural)]
pub enum MModeCall {
    EnableAllInterrupts,
    DisableAllInterrupts,
    EnableAllTimers,
    DisableAllTimers,
    Unknown(usize),
}

pub open spec fn decode_spec(a0: usize) -> MModeCall {
    if a0 == ENABLE_ALL_INTERRUPTS {
        MModeCall::EnableAllInterrupts
    } else if a0 == DISABLE_ALL_INTERRUPTS {
        MModeCall::DisableAllInterrupts
    } else if a0 == ENABLE_ALL_TIMERS {
        MModeCall::EnableAllTimers
    } else if a0 == DISABLE_ALL_TIMERS {
        MModeCall::DisableAllTimers
    } else {
        MModeCall::Unknown(a0)
    }
}

/// The request that the first argument register names.
pub fn decode(a0: usize) -> (r: MModeCall)
    ensures
        r == decode_spec(a0),
{
    match a0 {
        ENABLE_ALL_INTERRUPTS => MModeCall::EnableAllInterrupts,
        DISABLE_ALL_INTERRUPTS => MModeCall::DisableAllInterrupts,
        ENABLE_ALL_TIMERS => MModeCall::EnableAllTimers,
        DISABLE_ALL_TIMERS => MModeCall::DisableAllTimers,
        _ => MModeCall::Unknown(a0),
    }
}

/// Each call that the hypervisor makes is decoded as the request it names.
pub proof fn lemma_calls_decode()
    ensures
        decode_spec(DISABLE_ALL_INTERRUPTS) == MModeCall::DisableAllInterrupts,
        decode_spec(ENABLE_ALL_INTERRUPTS) == MModeCall::EnableAllInterrupts,
        decode_spec(DISABLE_ALL_TIMERS) == MModeCall::DisableAllTimers,
        decode_spec(ENABLE_ALL_TIMERS) == MModeCall::EnableAllTimers,
{
}

} // verus!
