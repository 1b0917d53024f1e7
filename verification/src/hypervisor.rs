//! Decisions of the HS-mode trap handler of the hypervisor.
use vstd::prelude::*;
use crate::mkernel::{is_interrupt, cause_code};

verus! {

#[derive(Clone, Copy)]
pub struct TrapFrame {
    pub regs: [usize; 32],
    pub fregs: [usize; 32],
    pub pc: usize,
}

/// What the HS-mode trap handler does.
#[derive(Clone, Copy, Debug, PartialEq, Eq, Structural)]
pub enum STrapAction {
    /// Claim the interrupt from the PLIC, serve it and complete it.
    ExternalInterrupt,
    /// An interrupt that the handler does not know.
    UnknownInterrupt(u64),
    /// An environment call from U-mode or VU-mode: report it and stop.
    EcallFromUser,
    /// An environment call from VS-mode: report it and stop.
    EcallFromGuest,
    /// A load guest-page fault: report the trap and stop.
    LoadGuestPageFault,
    /// A store or AMO guest-page fault: report the trap and stop.
    StoreGuestPageFault,
    /// An exception that the handler does not know: report the trap.
    UnknownException(u64),
}

/// The decision table of the HS-mode trap handler.
pub open spec fn strap_action(scause: u64) -> STrapAction {
    let code = cause_code(scause);
    if is_interrupt(scause) {
        if code == 9 {
            STrapAction::ExternalInterrupt
        } else {
            STrapAction::UnknownInterrupt(code)
        }
    } else if code == 8 {
        STrapAction::EcallFromUser
    } else if code == 10 {
        STrapAction::EcallFromGuest
    } else if code == 21 {
        STrapAction::LoadGuestPageFault
    } else if code == 23 {
        STrapAction::StoreGuestPageFault
    } else {
        STrapAction::UnknownException(code)
    }
}

/// How the HS-mode trap handler reads a cause: bit 63 tells an interrupt
/// from an exception and the low twelve bits give the code (`is_interrupt`,
/// `cause_code`). Interrupt 9 is
/// an external interrupt; exceptions 8 and 10 are environment calls from
/// U/VU-mode and VS-mode, 21 a load guest-page fault and 23 a store/AMO
/// guest-page fault; every other code is unknown and reported with it.
pub proof fn lemma_strap_causes(scause: u64)
    ensures
        (strap_action(scause) == STrapAction::ExternalInterrupt) == (is_interrupt(scause) && cause_code(
            scause,
        ) == 9),
        (strap_action(scause) == STrapAction::EcallFromUser) == (!is_interrupt(scause) && cause_code(
            scause,
        ) == 8),
        (strap_action(scause) == STrapAction::EcallFromGuest) == (!is_interrupt(scause) && cause_code(
            scause,
        ) == 10),
        (strap_action(scause) == STrapAction::LoadGuestPageFault) == (!is_interrupt(scause)
            && cause_code(scause) == 21),
        (strap_action(scause) == STrapAction::StoreGuestPageFault) == (!is_interrupt(scause)
            && cause_code(scause) == 23),
        is_interrupt(scause) && cause_code(scause) != 9 ==> strap_action(scause)
            == STrapAction::UnknownInterrupt(cause_code(scause)),
        !is_interrupt(scause) && cause_code(scause) != 8 && cause_code(scause) != 10 && cause_code(
            scause,
        ) != 21 && cause_code(scause) != 23 ==> strap_action(scause) == STrapAction::UnknownException(
            cause_code(scause),
        ),
{
}

/// Decides what to do on a trap into HS-mode with cause `scause`.
pub fn handle_strap(scause: u64) -> (r: STrapAction)
    ensures
        r == strap_action(scause),
{
    let is_async = scause >> 63 & 1 == 1;
    let code = scause & 0xfff;
    if is_async {
        match code {
            9 => STrapAction::ExternalInterrupt,
            _ => STrapAction::UnknownInterrupt(code),
        }
    } else {
        match code {
            8 => STrapAction::EcallFromUser,
            10 => STrapAction::EcallFromGuest,
            21 => STrapAction::LoadGuestPageFault,
            23 => STrapAction::StoreGuestPageFault,
            _ => STrapAction::UnknownException(code),
        }
    }
}

/// The device that raised an external interrupt.
#[derive(Clone, Copy, Debug, PartialEq, Eq, Structural)]
pub enum InterruptSource {
    Virtio(u32),
    Uart,
    Unknown(u32),
}

/// The device behind the interrupt number claimed from the PLIC: 1 to 8 are
/// the virtio devices, 10 the UART.
pub fn interrupt_source(interrupt: u32) -> (r: InterruptSource)
    ensures
        1 <= interrupt <= 8 ==> r == InterruptSource::Virtio(interrupt),
        interrupt == 10 ==> r == InterruptSource::Uart,
        !(1 <= interrupt <= 8) && interrupt != 10 ==> r == InterruptSource::Unknown(interrupt),
{
    if 1 <= interrupt && interrupt <= 8 {
        InterruptSource::Virtio(interrupt)
    } else if interrupt == 10 {
        InterruptSource::Uart
    } else {
        InterruptSource::Unknown(interrupt)
    }
}

} // verus!
