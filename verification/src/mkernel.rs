//! Decisions of the M-mode layer: setting up the machine timer and handling
//! the traps into M-mode.
use vstd::prelude::*;
use crate::m_mode_calls::{MModeCall, decode, decode_spec};
use crate::riscv::csr::{mie, mip, mstatus};
use crate::riscv::interrupt;

verus! {

#[derive(Clone, Copy)]
pub struct TrapFrame {
    pub regs: [usize; 32],
    pub fregs: [usize; 32],
    pub pc: usize,
}

/// Time between two machine timer interrupts.
pub const M_MODE_TIMER_VALUE: u64 = 10_000_000;

/// Time from the start until the first machine timer interrupt.
pub const FIRST_TIMER_DELAY: u64 = 10_000_000;

/// Values that setting up the timer writes.
pub struct TimerSetup {
    /// Hart whose timer is programmed.
    pub hart: usize,
    /// Time at which the machine timer fires.
    pub fire_at: u64,
    /// New value of `mie`.
    pub mie: u64,
}

/// Programs the timer of hart 0 to fire `FIRST_TIMER_DELAY` after `mtime`
/// and enables the machine timer interrupt.
pub fn setup_timer(mtime: u64, mie: u64) -> (r: TimerSetup)
    requires
        mtime + FIRST_TIMER_DELAY <= u64::MAX,
    ensures
        r.hart == 0,
        r.fire_at == mtime + FIRST_TIMER_DELAY,
        r.mie == mie | mie::MTIE,
{
    TimerSetup {
        hart: 0,
        fire_at: mtime + FIRST_TIMER_DELAY,
        mie: mie::enable_m_mode_hardware_timer(mie),
    }
}

/// The machine registers that trap handling reads and changes.
#[derive(Clone, Copy, Debug, PartialEq, Eq, Structural)]
pub struct MachineCsrs {
    pub mstatus: u64,
    pub mie: u64,
    pub mip: u64,
}

/// What the M-mode trap handler does.
#[derive(Clone, Copy, Debug, PartialEq, Eq, Structural)]
pub enum MTrapAction {
    /// Write back the registers, store `a0` in the trap frame when it is
    /// given, program the machine timer of hart 0 to fire at `rearm_at` when
    /// it is given, and return to `pc`.
    Resume { csrs: MachineCsrs, a0: Option<usize>, rearm_at: Option<u64>, pc: usize },
    /// `mstatus` names no previous mode.
    InvalidPreviousMode,
    /// An interrupt that the handler does not know.
    UnknownInterrupt(u64),
    /// An exception that the handler does not know.
    UnknownException(u64),
}

/// The trap is an interrupt: the top bit of the cause is set.
pub open spec fn is_interrupt(cause: u64) -> bool {
    (cause >> 63u64) & 1 == 1
}

/// The code of a trap cause.
pub open spec fn cause_code(cause: u64) -> u64 {
    cause & 0xfff
}

/// Registers after serving a request of the hypervisor.
pub open spec fn serve_call(csrs: MachineCsrs, call: MModeCall) -> MachineCsrs {
    match call {
        MModeCall::EnableAllInterrupts => MachineCsrs {
            mstatus: csrs.mstatus | mstatus::MIE | mstatus::SIE,
            ..csrs
        },
        MModeCall::DisableAllInterrupts => MachineCsrs {
            mstatus: csrs.mstatus & !(mstatus::MIE | mstatus::SIE),
            ..csrs
        },
        MModeCall::EnableAllTimers => MachineCsrs { mie: csrs.mie | mie::MTIE, ..csrs },
        MModeCall::DisableAllTimers => MachineCsrs { mie: csrs.mie & !mie::MTIE, ..csrs },
        MModeCall::Unknown(_) => csrs,
    }
}

/// The value returned in `a0` for a request: 0 when served, 1 when unknown.
pub open spec fn call_result(call: MModeCall) -> usize {
    match call {
        MModeCall::Unknown(_) => 1,
        _ => 0,
    }
}

/// The decision table of the M-mode trap handler.
pub open spec fn mtrap_action(csrs: MachineCsrs, mepc: usize, mtime: u64, mcause: u64, a0: usize) -> MTrapAction {
    if mstatus::previous_mode_of(mstatus::mpv_of(csrs.mstatus), mstatus::mpp_of(csrs.mstatus))
        is Err {
        MTrapAction::InvalidPreviousMode
    } else if is_interrupt(mcause) {
        if cause_code(mcause) == 7 {
            MTrapAction::Resume {
                csrs: MachineCsrs { mie: csrs.mie | mie::STIE, mip: csrs.mip | mip::STIP, ..csrs },
                a0: None,
                rearm_at: Some((mtime + M_MODE_TIMER_VALUE) as u64),
                pc: mepc,
            }
        } else {
            MTrapAction::UnknownInterrupt(cause_code(mcause))
        }
    } else if cause_code(mcause) == 9 {
        MTrapAction::Resume {
            csrs: serve_call(csrs, decode_spec(a0)),
            a0: Some(call_result(decode_spec(a0))),
            rearm_at: None,
            pc: (mepc + 4) as usize,
        }
    } else {
        MTrapAction::UnknownException(cause_code(mcause))
    }
}

/// Decides what to do on a trap into M-mode with cause `mcause` at `mepc`;
/// `frame` holds the registers of the trapping code. A machine timer
/// interrupt raises the supervisor timer and reprograms the machine timer
/// to fire `M_MODE_TIMER_VALUE` after `mtime`; an environment call from HS-mode serves the request named
/// in `a0` and returns past the call.
pub fn handle_mtrap(csrs: MachineCsrs, mepc: usize, mtime: u64, mcause: u64, frame: &TrapFrame) -> (r:
    MTrapAction)
    requires
        !is_interrupt(mcause) && cause_code(mcause) == 9 ==> mepc + 4 <= usize::MAX,
        is_interrupt(mcause) && cause_code(mcause) == 7 ==> mtime + M_MODE_TIMER_VALUE <= u64::MAX,
    ensures
        r == mtrap_action(csrs, mepc, mtime, mcause, frame.regs[10]),
{
    let prev = mstatus::previous_mode(csrs.mstatus);
    if prev.is_err() {
        return MTrapAction::InvalidPreviousMode;
    }
    let is_async = mcause >> 63 & 1 == 1;
    let code = mcause & 0xfff;
    if is_async {
        if code == 7 {
            let new_mip = mip::set_stimer(csrs.mip);
            let new_mie = mie::enable_s_mode_hardware_timer(csrs.mie);
            MTrapAction::Resume {
                csrs: MachineCsrs { mstatus: csrs.mstatus, mie: new_mie, mip: new_mip },
                a0: None,
                rearm_at: Some(mtime + M_MODE_TIMER_VALUE),
                pc: mepc,
            }
        } else {
            MTrapAction::UnknownInterrupt(code)
        }
    } else {
        if code == 9 {
            let a0 = frame.regs[10];
            let mut result: usize = 0;
            let mut new_csrs = csrs;
            match decode(a0) {
                MModeCall::EnableAllInterrupts => {
                    new_csrs.mstatus = interrupt::enable(csrs.mstatus);
                },
                MModeCall::DisableAllInterrupts => {
                    new_csrs.mstatus = interrupt::disable(csrs.mstatus);
                },
                MModeCall::EnableAllTimers => {
                    new_csrs.mie = mie::enable_m_mode_hardware_timer(csrs.mie);
                },
                MModeCall::DisableAllTimers => {
                    new_csrs.mie = mie::clear_m_mode_hardware_timer(csrs.mie);
                },
                MModeCall::Unknown(_) => {
                    result = 1;
                },
            }
            MTrapAction::Resume { csrs: new_csrs, a0: Some(result), rearm_at: None, pc: mepc + 0x4 }
        } else {
            MTrapAction::UnknownException(code)
        }
    }
}

/// Requests about the machine timer change the machine timer interrupt
/// enable bit (bit 7 of `mie`) and nothing else: enabling sets it, disabling
/// clears it, and disabling after enabling is the same as disabling alone.
pub proof fn lemma_timer_calls(csrs: MachineCsrs)
    ensures
        serve_call(csrs, MModeCall::EnableAllTimers).mie & 0x80 == 0x80,
        serve_call(csrs, MModeCall::EnableAllTimers).mie & !0x80u64 == csrs.mie & !0x80u64,
        serve_call(csrs, MModeCall::DisableAllTimers).mie & 0x80 == 0,
        serve_call(csrs, MModeCall::DisableAllTimers).mie & !0x80u64 == csrs.mie & !0x80u64,
        serve_call(csrs, MModeCall::EnableAllTimers).mstatus == csrs.mstatus,
        serve_call(csrs, MModeCall::EnableAllTimers).mip == csrs.mip,
        serve_call(csrs, MModeCall::DisableAllTimers).mstatus == csrs.mstatus,
        serve_call(csrs, MModeCall::DisableAllTimers).mip == csrs.mip,
        serve_call(serve_call(csrs, MModeCall::EnableAllTimers), MModeCall::DisableAllTimers)
            == serve_call(csrs, MModeCall::DisableAllTimers),
{
    let v = csrs.mie;
    let on = serve_call(csrs, MModeCall::EnableAllTimers).mie;
    let off = serve_call(csrs, MModeCall::DisableAllTimers).mie;
    assert(on == v | mie::MTIE && off == v & !mie::MTIE);
    assert(mie::MTIE == 1u64 << 7u64);
    assert((v | (1u64 << 7u64)) & 0x80 == 0x80 && (v | (1u64 << 7u64)) & !0x80u64 == v & !0x80u64 && (v
        & !(1u64 << 7u64)) & 0x80 == 0 && (v & !(1u64 << 7u64)) & !0x80u64 == v & !0x80u64 && (v | (1u64
        << 7u64)) & !(1u64 << 7u64) == v & !(1u64 << 7u64)) by (bit_vector);
}

/// An environment call from HS-mode that asks to disable the timers returns
/// past the call with the machine timer interrupt disabled and every other
/// register bit as it was.
pub proof fn lemma_disable_timers_call(csrs: MachineCsrs, mepc: usize, mtime: u64, mcause: u64)
    requires
        mstatus::previous_mode_of(mstatus::mpv_of(csrs.mstatus), mstatus::mpp_of(csrs.mstatus)) is Ok,
        !is_interrupt(mcause),
        cause_code(mcause) == 9,
    ensures
        mtrap_action(csrs, mepc, mtime, mcause, 3) matches MTrapAction::Resume { csrs: new, a0, rearm_at, pc }
            && new.mie & 0x80 == 0 && new.mie & !0x80u64 == csrs.mie & !0x80u64
            && new.mstatus == csrs.mstatus && new.mip == csrs.mip && a0 == Some(0usize)
            && rearm_at is None && pc == (mepc + 4) as usize,
{
    lemma_timer_calls(csrs);
    assert(decode_spec(3) == MModeCall::DisableAllTimers);
}

/// A request to disable all interrupts after one to enable them leaves both
/// enable bits clear and the other bits of `mstatus` as they were.
pub proof fn lemma_enable_then_disable(csrs: MachineCsrs)
    ensures
        serve_call(serve_call(csrs, MModeCall::EnableAllInterrupts), MModeCall::DisableAllInterrupts)
            == serve_call(csrs, MModeCall::DisableAllInterrupts),
{
    let m = csrs.mstatus;
    assert((m | (0b1u64 << 3u64) | (0b1u64 << 1u64)) & !((0b1u64 << 3u64) | (0b1u64 << 1u64)) == m
        & !((0b1u64 << 3u64) | (0b1u64 << 1u64))) by (bit_vector);
}

} // verus!
