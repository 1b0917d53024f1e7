use rustyvisor::riscv::csr::{hstatus, hvip, mie, mip, mstatus, sie, sip, vsip};
use rustyvisor::riscv::csr::{CpuMode, ModeError, PreviousMode, VirtualzationMode};
use rustyvisor::riscv::interrupt;

#[test]
fn spv_set_and_read() {
    let h = hstatus::set_spv(0xffff_ffff_ffff_ffff, VirtualzationMode::Host);
    assert_eq!(h, 0xffff_ffff_ffff_ff7f);
    assert_eq!(hstatus::read_spv(h), VirtualzationMode::Host);
    let h = hstatus::set_spv(0, VirtualzationMode::Guest);
    assert_eq!(h, 0x80);
    assert_eq!(hstatus::read_spv(h), VirtualzationMode::Guest);
}

#[test]
fn hstatus_previous_mode() {
    let guest = hstatus::set_spv(0x1234, VirtualzationMode::Guest);
    assert_eq!(hstatus::previous_mode(guest, CpuMode::S), Ok(PreviousMode::VS_mode));
    assert_eq!(hstatus::previous_mode(guest, CpuMode::U), Ok(PreviousMode::VU_mode));
    assert_eq!(hstatus::previous_mode(0, CpuMode::S), Ok(PreviousMode::HS_mode));
    assert_eq!(hstatus::previous_mode(0, CpuMode::U), Ok(PreviousMode::U_mode));
    assert_eq!(hstatus::previous_mode(0, CpuMode::M), Err(ModeError));
    assert_eq!(hstatus::previous_mode(guest, CpuMode::M), Err(ModeError));
}

#[test]
fn mpp_set_and_read() {
    for mode in [CpuMode::M, CpuMode::S, CpuMode::U] {
        let m = mstatus::set_mpp(0xdead_beef_dead_beef, mode);
        assert_eq!(mstatus::read_mpp(m), mode);
        assert_eq!(m & !(0b11 << 11), 0xdead_beef_dead_beef & !(0b11 << 11));
    }
    assert_eq!(mstatus::set_mpp(0, CpuMode::S), 0x800);
    // the reserved encoding reads as M
    assert_eq!(mstatus::read_mpp(0b10 << 11), CpuMode::M);
}

#[test]
fn mpv_set_and_read() {
    let m = mstatus::set_mpv(0, VirtualzationMode::Guest);
    assert_eq!(m, 1 << 39);
    assert_eq!(mstatus::read_mpv(m), VirtualzationMode::Guest);
    let m = mstatus::set_mpv(u64::MAX, VirtualzationMode::Host);
    assert_eq!(m, u64::MAX & !(1 << 39));
    assert_eq!(mstatus::read_mpv(m), VirtualzationMode::Host);
}

#[test]
fn mstatus_previous_mode() {
    let m = mstatus::set_mpv(mstatus::set_mpp(0xffff, CpuMode::S), VirtualzationMode::Host);
    assert_eq!(mstatus::previous_mode(m), Ok(PreviousMode::HS_mode));
    let m = mstatus::set_mpp(0, CpuMode::M);
    assert_eq!(mstatus::previous_mode(m), Ok(PreviousMode::M_mode));
    assert_eq!(mstatus::previous_mode(0), Ok(PreviousMode::U_mode));
    let g = mstatus::set_mpv(0, VirtualzationMode::Guest);
    assert_eq!(mstatus::previous_mode(mstatus::set_mpp(g, CpuMode::S)), Ok(PreviousMode::VS_mode));
    assert_eq!(mstatus::previous_mode(g), Ok(PreviousMode::VU_mode));
    assert_eq!(mstatus::previous_mode(mstatus::set_mpp(g, CpuMode::M)), Err(ModeError));
}

#[test]
fn mstatus_interrupt_bits() {
    assert!(!mstatus::is_mie_set(0));
    assert!(mstatus::is_mie_set(mstatus::set_mie(0)));
    assert_eq!(mstatus::set_mie(0), 0b1000);
    assert!(!mstatus::is_mie_set(mstatus::clear_mie(u64::MAX)));
    assert_eq!(mstatus::clear_mie(0xff), 0xf7);
    assert_eq!(mstatus::set_sie(0), 0b10);
    assert_eq!(mstatus::clear_sie(0xff), 0xfd);
    assert_eq!(interrupt::enable(0x100), 0x10a);
    assert_eq!(interrupt::disable(0xff), 0xf5);
}

#[test]
fn timer_enable_bits() {
    assert_eq!(mie::enable_m_mode_hardware_timer(0), 0x80);
    assert_eq!(mie::clear_m_mode_hardware_timer(0xff), 0x7f);
    assert_eq!(mie::enable_s_mode_hardware_timer(0x80), 0xa0);
    assert_eq!(mie::clear_s_mode_hardware_timer(0xff), 0xdf);
    assert_eq!(mip::set_stimer(0), 0x20);
    assert_eq!(mip::clear_stimer(0x21), 0x1);
    assert_eq!(sie::enable_hardware_timer(0x200), 0x220);
    assert_eq!(sie::clear_hardware_timer(0x220), 0x200);
    assert_eq!(sip::clear_stimer(0xff), 0xdf);
    assert_eq!(vsip::set_vstimer(0), 0x20);
    assert_eq!(vsip::clear_vstimer(0x20), 0);
}

#[test]
fn guest_interrupt_injection() {
    assert_eq!(hvip::trigger_software_interrupt(0), 1 << 2);
    assert_eq!(hvip::trigger_timing_interrupt(1 << 2), (1 << 2) | (1 << 6));
    assert_eq!(hvip::trigger_external_interrupt(0), 1 << 10);
}

#[test]
fn mode_encodings_and_names() {
    assert_eq!(CpuMode::M.bits(), 0b11);
    assert_eq!(CpuMode::S.bits(), 0b01);
    assert_eq!(CpuMode::U.bits(), 0);
    assert_eq!(VirtualzationMode::Guest.bits(), 1);
    assert_eq!(PreviousMode::VS_mode.name(), "Virtual Supervisor Mode (VS)");
    assert_eq!(PreviousMode::HS_mode.name(), "Hypervisor mode (HS)");
    assert_eq!(PreviousMode::U_mode.name(), "User mode (U)");
    assert_eq!(PreviousMode::M_mode.name(), "Machine Mode (M)");
    assert_eq!(PreviousMode::VU_mode.name(), "Virtual User Mode (VU)");
}
