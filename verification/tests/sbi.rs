use rustyvisor::sbi::ecall::{SbiRet, EXTENSION_TIMER};
use rustyvisor::sbi::timer::{handle_ecall_timer_32, handle_ecall_timer_64, set_timer_value, Timer};
use rustyvisor::timer::{VmTimer, VmTimers, MAX_NUMBER_OF_GUESTS};

#[test]
fn sbi_return_values() {
    let r = SbiRet::ok(42);
    assert_eq!((r.error, r.value), (0, 42));
    assert_eq!(SbiRet::failed().error, usize::MAX);
    assert_eq!(SbiRet::not_supported().error, (-2isize) as usize);
    assert_eq!(SbiRet::invalid_param().error, (-3isize) as usize);
    assert_eq!(SbiRet::invalid_address().error, (-5isize) as usize);
    assert_eq!(SbiRet::already_available().error, (-6isize) as usize);
    assert_eq!(SbiRet::already_started().error, (-7isize) as usize);
    assert_eq!(SbiRet::already_stopped().error, (-8isize) as usize);
    assert_eq!(SbiRet::already_stopped().value, 0);
    let l = SbiRet::legacy_ok(5);
    assert_eq!((l.error, l.value), (5, 0));
    let v = SbiRet::ok(1).legacy_void(3, 4);
    assert_eq!((v.error, v.value), (3, 4));
    let r = SbiRet::failed().legacy_return(9);
    assert_eq!((r.error, r.value), (usize::MAX, 9));
    assert_eq!(EXTENSION_TIMER, 0x54494D45);
}

#[test]
fn timer_call_sets_compare_value() {
    let mut timers = VmTimers::new();
    let r = handle_ecall_timer_64(0, 1000, 1, &mut timers);
    assert_eq!((r.error, r.value), (0, 0));
    // the timer of guest 1 is armed, but its time has not reached 1000
    assert_eq!(timers.check_timers(), [false; MAX_NUMBER_OF_GUESTS]);
    timers.tick_vm_timers(999);
    assert_eq!(timers.check_timers(), [false; MAX_NUMBER_OF_GUESTS]);
    timers.tick_vm_timers(1);
    assert_eq!(timers.check_timers(), [false, true, false, false]);
    let r = handle_ecall_timer_64(1, 1000, 1, &mut timers);
    assert_eq!(r.error, (-2isize) as usize);
    // a call other than set_timer is not supported, whatever the guest number
    let r = handle_ecall_timer_64(5, 0, 99, &mut timers);
    assert_eq!((r.error, r.value), ((-2isize) as usize, 0));
    assert_eq!(timers.check_timers(), [false, true, false, false]);
}

#[test]
fn timer_call_32_joins_halves() {
    let mut timers = VmTimers::new();
    let r = handle_ecall_timer_32(0, 0x1234, 0x5, 0, &mut timers);
    assert_eq!((r.error, r.value), (0, 0));
    let r = handle_ecall_timer_32(7, 0, 0, 0, &mut timers);
    assert_eq!((r.error, r.value), ((-2isize) as usize, 0));
    assert!(set_timer_value(0x5_0000_1234, 3, &mut timers));
}

#[test]
fn vm_timers_fire_once_set() {
    let mut timers = VmTimers::new();
    // disabled timers do not advance
    timers.tick_vm_timers(100);
    assert_eq!(timers.check_timers(), [false; MAX_NUMBER_OF_GUESTS]);
    // a timer set to fire at 0 on a clock at 0 fires at once
    timers.set_timer(0, 2);
    assert_eq!(timers.check_timers(), [false, false, true, false]);
    timers.set_timer(50, 0);
    assert_eq!(timers.check_timers(), [false, false, true, false]);
    timers.tick_vm_timers(50);
    assert_eq!(timers.check_timers(), [true, false, true, false]);
    let mut t = VmTimer::new();
    t.tick(5);
    t.set_timer(3);
}

#[test]
fn vm_timer_fires_after_several_ticks() {
    let mut timers = VmTimers::new();
    assert!(set_timer_value(300, 3, &mut timers));
    timers.tick_vm_timers(100);
    timers.tick_vm_timers(100);
    assert_eq!(timers.check_timers(), [false; MAX_NUMBER_OF_GUESTS]);
    timers.tick_vm_timers(100);
    assert_eq!(timers.check_timers(), [false, false, false, true]);
    // it keeps firing until it is programmed again
    timers.tick_vm_timers(5);
    assert_eq!(timers.check_timers(), [false, false, false, true]);
    assert!(set_timer_value(1000, 3, &mut timers));
    assert_eq!(timers.check_timers(), [false; MAX_NUMBER_OF_GUESTS]);
}
