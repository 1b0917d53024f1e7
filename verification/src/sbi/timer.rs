//! The timer extension of the SBI.
use vstd::prelude::*;
use super::ecall::{SbiRet, sbi_error};
use crate::timer::{
    VmTimers, VmTimerView, MAX_NUMBER_OF_GUESTS, lemma_ticked_by, ticked, ticked_by, timer_fired, total,
};

verus! {

pub const FUNCTION_TIMER_SET_TIMER: usize = 0x0;

/// Timer programmer support
pub trait Timer {
    /// Programs the clock for next event after `stime_value` time.
    ///
    /// `stime_value` is in absolute time.
    fn set_timer(&mut self, stime_value: u64, guest_id: usize)
        requires
            guest_id < MAX_NUMBER_OF_GUESTS,
    ;
}

/// Timers after guest `guest_number` programmed its timer to fire at
/// `time_value`: the timer is enabled with that compare value.
pub open spec fn timers_after_set(timers: Seq<VmTimerView>, time_value: u64, guest_number: usize) -> Seq<VmTimerView> {
    timers.update(
        guest_number as int,
        VmTimerView { enabled: true, mtime_compare: time_value, ..timers[guest_number as int] },
    )
}

/// Handles a call of the timer extension on a machine whose registers are 64
/// bits wide.
pub fn handle_ecall_timer_64(function: usize, param0: usize, guest_number: usize, timers: &mut VmTimers) -> (r: SbiRet)
    requires
        function == FUNCTION_TIMER_SET_TIMER ==> guest_number < MAX_NUMBER_OF_GUESTS,
    ensures
        function == FUNCTION_TIMER_SET_TIMER ==> r.error == 0 && r.value == 0
            && final(timers)@ == timers_after_set(old(timers)@, param0 as u64, guest_number),
        function != FUNCTION_TIMER_SET_TIMER ==> r.error == sbi_error(2) && r.value == 0
            && final(timers)@ == old(timers)@,
{
    match function {
        FUNCTION_TIMER_SET_TIMER => set_timer_64(param0, guest_number, timers),
        _ => SbiRet::not_supported(),
    }
}

/// Handles a call of the timer extension on a machine whose registers are 32
/// bits wide: the time comes in two halves.
pub fn handle_ecall_timer_32(
    function: usize,
    param0: usize,
    param1: usize,
    guest_number: usize,
    timers: &mut VmTimers,
) -> (r: SbiRet)
    requires
        function == FUNCTION_TIMER_SET_TIMER ==> guest_number < MAX_NUMBER_OF_GUESTS,
        function == FUNCTION_TIMER_SET_TIMER ==> param0 <= u32::MAX && param1 <= u32::MAX,
    ensures
        function == FUNCTION_TIMER_SET_TIMER ==> r.error == 0 && r.value == 0
            && final(timers)@ == timers_after_set(
            old(timers)@,
            (param0 + param1 * 0x1_0000_0000) as u64,
            guest_number,
        ),
        function != FUNCTION_TIMER_SET_TIMER ==> r.error == sbi_error(2) && r.value == 0
            && final(timers)@ == old(timers)@,
{
    match function {
        FUNCTION_TIMER_SET_TIMER => set_timer_32(param0, param1, guest_number, timers),
        _ => SbiRet::not_supported(),
    }
}

fn set_timer_32(arg0: usize, arg1: usize, guest_number: usize, timers: &mut VmTimers) -> (r: SbiRet)
    requires
        guest_number < MAX_NUMBER_OF_GUESTS,
        arg0 <= u32::MAX,
        arg1 <= u32::MAX,
    ensures
        r.error == 0,
        r.value == 0,
        final(timers)@ == timers_after_set(
            old(timers)@,
            (arg0 + arg1 * 0x1_0000_0000) as u64,
            guest_number,
        ),
{
    let hi = arg1 as u64;
    assert(hi <= 0xffff_ffff ==> hi << 32u64 == hi * 0x1_0000_0000) by (bit_vector);
    let time_value = (arg0 as u64) + ((arg1 as u64) << 32);
    if set_timer_value(time_value, guest_number, timers) {
        SbiRet::ok(0)
    } else {
        SbiRet::not_supported()
    }
}

fn set_timer_64(arg0: usize, guest_number: usize, timers: &mut VmTimers) -> (r: SbiRet)
    requires
        guest_number < MAX_NUMBER_OF_GUESTS,
    ensures
        r.error == 0,
        r.value == 0,
        final(timers)@ == timers_after_set(old(timers)@, arg0 as u64, guest_number),
{
    let time_value = arg0 as u64;
    if set_timer_value(time_value, guest_number, timers) {
        SbiRet::ok(0)
    } else {
        SbiRet::not_supported()
    }
}

/// Sets the timer of guest `guest_number` to fire at `time_value`; always
/// succeeds.
pub fn set_timer_value(time_value: u64, guest_number: usize, timers: &mut VmTimers) -> (r: bool)
    requires
        guest_number < MAX_NUMBER_OF_GUESTS,
    ensures
        r,
        final(timers)@ == timers_after_set(old(timers)@, time_value, guest_number),
{
    timers.set_timer(time_value, guest_number);
    true
}

/// After a guest programs its timer, its timer fires exactly when its time
/// has reached the new value; the other timers are unchanged.
pub proof fn lemma_set_then_check(timers: Seq<VmTimerView>, time_value: u64, guest_number: usize)
    requires
        guest_number < timers.len(),
    ensures
        timer_fired(timers_after_set(timers, time_value, guest_number)[guest_number as int]) == (
        timers[guest_number as int].mtime >= time_value),
        forall|i: int|
            0 <= i < timers.len() && i != guest_number ==> #[trigger] timers_after_set(
                timers,
                time_value,
                guest_number,
            )[i] == timers[i],
{
}

/// Ticking never stops a timer that fired, and an enabled timer fires once
/// its time reaches its compare value.
pub proof fn lemma_tick_then_check(t: VmTimerView, amount: u64)
    requires
        t.enabled ==> t.mtime + amount <= u64::MAX,
    ensures
        timer_fired(t) ==> timer_fired(ticked(t, amount)),
        t.enabled && t.mtime + amount >= t.mtime_compare ==> timer_fired(ticked(t, amount)),
{
}

/// Once a guest has programmed its timer, the timer fires after ticks of
/// the given amounts exactly when the guest's time, advanced by their sum,
/// has reached the programmed value.
pub proof fn lemma_set_then_ticks(
    timers: Seq<VmTimerView>,
    time_value: u64,
    guest_number: usize,
    amounts: Seq<u64>,
)
    requires
        guest_number < timers.len(),
        timers[guest_number as int].mtime + total(amounts) <= u64::MAX,
    ensures
        timer_fired(ticked_by(timers_after_set(timers, time_value, guest_number)[guest_number as int], amounts))
            == (timers[guest_number as int].mtime + total(amounts) >= time_value),
{
    lemma_ticked_by(timers_after_set(timers, time_value, guest_number)[guest_number as int], amounts);
}

} // verus!
