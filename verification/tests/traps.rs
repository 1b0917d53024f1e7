use rustyvisor::guest::{clear_timers, enable_timer_interrupts, handle_trap, GuestTrap};
use rustyvisor::hypervisor::{handle_strap, interrupt_source, InterruptSource, STrapAction};
use rustyvisor::m_mode_calls::{
    decode, disable_interrupts, disable_timers, enable_interrupts, enable_timers, MModeCall,
    DISABLE_ALL_INTERRUPTS, ENABLE_ALL_TIMERS,
};
use rustyvisor::mkernel::{handle_mtrap, setup_timer, MTrapAction, MachineCsrs, TrapFrame};
use rustyvisor::riscv::csr::{mstatus, CpuMode, VirtualzationMode};

const INTERRUPT: u64 = 1 << 63;

fn frame_with(a0: usize) -> TrapFrame {
    let mut f = TrapFrame { regs: [0; 32], fregs: [0; 32], pc: 0 };
    f.regs[10] = a0;
    f
}

fn hs_csrs() -> MachineCsrs {
    MachineCsrs { mstatus: mstatus::set_mpp(0, CpuMode::S), mie: 0, mip: 0 }
}

#[test]
fn m_mode_call_arguments() {
    assert_eq!(disable_interrupts(), (1, 0, 0, 0));
    assert_eq!(enable_interrupts(), (2, 0, 0, 0));
    assert_eq!(disable_timers(), (3, 0, 0, 0));
    assert_eq!(enable_timers(), (4, 0, 0, 0));
    assert_eq!(decode(DISABLE_ALL_INTERRUPTS), MModeCall::DisableAllInterrupts);
    assert_eq!(decode(9), MModeCall::Unknown(9));
}

#[test]
fn machine_timer_setup() {
    let s = setup_timer(5, 0x8);
    assert_eq!((s.hart, s.fire_at, s.mie), (0, 10_000_005, 0x88));
}

#[test]
fn machine_timer_interrupt() {
    let r = handle_mtrap(hs_csrs(), 0x8000_0000, 5, INTERRUPT | 7, &frame_with(0));
    assert_eq!(
        r,
        MTrapAction::Resume {
            csrs: MachineCsrs { mstatus: 0x800, mie: 0x20, mip: 0x20 },
            a0: None,
            rearm_at: Some(10_000_005),
            pc: 0x8000_0000
        }
    );
    let r = handle_mtrap(hs_csrs(), 0, 0, INTERRUPT | 3, &frame_with(0));
    assert_eq!(r, MTrapAction::UnknownInterrupt(3));
}

#[test]
fn hypervisor_calls() {
    let r = handle_mtrap(hs_csrs(), 0x100, 0, 9, &frame_with(ENABLE_ALL_TIMERS));
    assert_eq!(
        r,
        MTrapAction::Resume {
            csrs: MachineCsrs { mstatus: 0x800, mie: 0x80, mip: 0 },
            a0: Some(0),
            rearm_at: None,
            pc: 0x104
        }
    );
    let r = handle_mtrap(hs_csrs(), 0x100, 0, 9, &frame_with(2));
    assert!(matches!(r, MTrapAction::Resume { csrs: MachineCsrs { mstatus: 0x80a, .. }, .. }));
    let r = handle_mtrap(hs_csrs(), 0x100, 0, 9, &frame_with(77));
    assert!(matches!(r, MTrapAction::Resume { a0: Some(1), pc: 0x104, .. }));
    let r = handle_mtrap(hs_csrs(), 0x100, 0, 2, &frame_with(0));
    assert_eq!(r, MTrapAction::UnknownException(2));
}

#[test]
fn invalid_previous_mode() {
    let m = mstatus::set_mpv(mstatus::set_mpp(0, CpuMode::M), VirtualzationMode::Guest);
    let csrs = MachineCsrs { mstatus: m, mie: 0, mip: 0 };
    assert_eq!(handle_mtrap(csrs, 0, 0, 9, &frame_with(1)), MTrapAction::InvalidPreviousMode);
}

#[test]
fn supervisor_traps() {
    assert_eq!(handle_strap(INTERRUPT | 9), STrapAction::ExternalInterrupt);
    assert_eq!(handle_strap(INTERRUPT | 5), STrapAction::UnknownInterrupt(5));
    assert_eq!(handle_strap(8), STrapAction::EcallFromUser);
    assert_eq!(handle_strap(10), STrapAction::EcallFromGuest);
    assert_eq!(handle_strap(21), STrapAction::LoadGuestPageFault);
    assert_eq!(handle_strap(23), STrapAction::StoreGuestPageFault);
    assert_eq!(handle_strap(0x1002), STrapAction::UnknownException(2));
    assert_eq!(interrupt_source(3), InterruptSource::Virtio(3));
    assert_eq!(interrupt_source(10), InterruptSource::Uart);
    assert_eq!(interrupt_source(9), InterruptSource::Unknown(9));
    assert_eq!(interrupt_source(0), InterruptSource::Unknown(0));
}

#[test]
fn guest_traps_and_timers() {
    assert_eq!(handle_trap(INTERRUPT | 5), GuestTrap::TimerInterrupt);
    assert_eq!(handle_trap(INTERRUPT | 1), GuestTrap::UnknownInterrupt(1));
    assert_eq!(handle_trap(13), GuestTrap::UnknownException(13));
    assert_eq!(enable_timer_interrupts(0x100, 0x200), (0x102, 0x220));
    assert_eq!(clear_timers(0x220), 0x200);
}

#[test]
fn enable_then_disable_interrupt_calls() {
    let start = MachineCsrs { mstatus: mstatus::set_mpp(0x1234_0000, CpuMode::S), mie: 0, mip: 0 };
    let after_enable = match handle_mtrap(start, 0x100, 0, 9, &frame_with(2)) {
        MTrapAction::Resume { csrs, .. } => csrs,
        other => panic!("unexpected {:?}", other),
    };
    assert_eq!(after_enable.mstatus & 0b1010, 0b1010);
    let after_disable = match handle_mtrap(after_enable, 0x100, 0, 9, &frame_with(1)) {
        MTrapAction::Resume { csrs, .. } => csrs,
        other => panic!("unexpected {:?}", other),
    };
    let direct = match handle_mtrap(start, 0x100, 0, 9, &frame_with(1)) {
        MTrapAction::Resume { csrs, .. } => csrs,
        other => panic!("unexpected {:?}", other),
    };
    assert_eq!(after_disable, direct);
    assert_eq!(after_disable.mstatus, 0x1234_0800);
}
