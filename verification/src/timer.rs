//! Virtual timers, one for each guest.
use vstd::prelude::*;
use crate::sbi::timer::Timer;

verus! {

/// Number of guests that the hypervisor keeps a timer for.
pub const MAX_NUMBER_OF_GUESTS: usize = 4;

/// State of one virtual timer.
pub struct VmTimerView {
    pub enabled: bool,
    pub mtime: u64,
    pub mtime_compare: u64,
}

#[derive(Copy, Clone)]
pub struct VmTimer {
    enabled: bool,
    mtime: u64,
    mtime_compare: u64,
}

impl VmTimer {
    pub closed spec fn view(&self) -> VmTimerView {
        VmTimerView { enabled: self.enabled, mtime: self.mtime, mtime_compare: self.mtime_compare }
    }

    /// A disabled timer at time zero.
    pub fn new() -> (r: VmTimer)
        ensures
            r@ == (VmTimerView { enabled: false, mtime: 0, mtime_compare: 0 }),
    {
        VmTimer { enabled: false, mtime: 0, mtime_compare: 0 }
    }

    /// Advances the time of an enabled timer by `amount`.
    pub fn tick(&mut self, amount: u64)
        requires
            old(self)@.enabled ==> old(self)@.mtime + amount <= u64::MAX,
        ensures
            final(self)@ == ticked(old(self)@, amount),
    {
        if self.enabled {
            self.mtime += amount;
        }
    }

    /// Sets the time at which the timer fires.
    pub fn set_timer(&mut self, amount: u64)
        ensures
            final(self)@ == (VmTimerView { mtime_compare: amount, ..old(self)@ }),
    {
        self.mtime_compare = amount;
    }
}

/// The timer after `amount` ticks: an enabled timer advances its time.
pub open spec fn ticked(t: VmTimerView, amount: u64) -> VmTimerView {
    if t.enabled {
        VmTimerView { mtime: (t.mtime + amount) as u64, ..t }
    } else {
        t
    }
}

/// The timer after ticks of the given amounts, one after another.
pub open spec fn ticked_by(t: VmTimerView, amounts: Seq<u64>) -> VmTimerView
    decreases amounts.len(),
{
    if amounts.len() == 0 {
        t
    } else {
        ticked(ticked_by(t, amounts.drop_last()), amounts.last())
    }
}

/// The sum of the amounts.
pub open spec fn total(amounts: Seq<u64>) -> int
    decreases amounts.len(),
{
    if amounts.len() == 0 {
        0
    } else {
        total(amounts.drop_last()) + amounts.last()
    }
}

/// An enabled timer that ticks by several amounts advances by their sum.
pub proof fn lemma_ticked_by(t: VmTimerView, amounts: Seq<u64>)
    requires
        t.enabled,
        t.mtime + total(amounts) <= u64::MAX,
    ensures
        total(amounts) >= 0,
        ticked_by(t, amounts) == (VmTimerView { mtime: (t.mtime + total(amounts)) as u64, ..t }),
    decreases amounts.len(),
{
    lemma_total_nonneg(amounts);
    if amounts.len() > 0 {
        lemma_total_nonneg(amounts.drop_last());
        lemma_ticked_by(t, amounts.drop_last());
    }
}

proof fn lemma_total_nonneg(amounts: Seq<u64>)
    ensures
        total(amounts) >= 0,
    decreases amounts.len(),
{
    if amounts.len() > 0 {
        lemma_total_nonneg(amounts.drop_last());
    }
}

/// The timer has reached the time at which it fires.
pub open spec fn timer_fired(t: VmTimerView) -> bool {
    t.enabled && t.mtime >= t.mtime_compare
}

pub struct VmTimers {
    timers: [VmTimer; MAX_NUMBER_OF_GUESTS],
}

impl VmTimers {
    /// The timer of each guest.
    pub closed spec fn view(&self) -> Seq<VmTimerView> {
        self.timers@.map_values(|t: VmTimer| t@)
    }

    /// Disabled timers at time zero for all guests.
    pub fn new() -> (r: VmTimers)
        ensures
            r@.len() == MAX_NUMBER_OF_GUESTS,
            forall|i: int|
                0 <= i < MAX_NUMBER_OF_GUESTS ==> #[trigger] r@[i] == (VmTimerView {
                    enabled: false,
                    mtime: 0,
                    mtime_compare: 0,
                }),
    {
        let t = VmTimer::new();
        VmTimers { timers: [t, t, t, t] }
    }

    /// Advances the time of every enabled timer by `amount`.
    pub fn tick_vm_timers(&mut self, amount: usize)
        requires
            forall|i: int|
                0 <= i < old(self)@.len() ==> (#[trigger] old(self)@[i]).enabled ==> old(self)@[i].mtime
                    + amount <= u64::MAX,
        ensures
            final(self)@.len() == old(self)@.len(),
            forall|i: int|
                0 <= i < old(self)@.len() ==> #[trigger] final(self)@[i] == ticked(
                    old(self)@[i],
                    amount as u64,
                ),
    {
        let mut i: usize = 0;
        while i < MAX_NUMBER_OF_GUESTS
            invariant
                i <= MAX_NUMBER_OF_GUESTS,
                self@.len() == MAX_NUMBER_OF_GUESTS,
                old(self)@.len() == MAX_NUMBER_OF_GUESTS,
                forall|j: int|
                    0 <= j < old(self)@.len() ==> (#[trigger] old(self)@[j]).enabled ==> old(self)@[j].mtime
                        + amount <= u64::MAX,
                forall|j: int| 0 <= j < i ==> #[trigger] self@[j] == ticked(old(self)@[j], amount as u64),
                forall|j: int| i <= j < MAX_NUMBER_OF_GUESTS ==> #[trigger] self@[j] == old(self)@[j],
            decreases MAX_NUMBER_OF_GUESTS - i,
        {
            let ghost prev = self@;
            let mut timer = self.timers[i];
            assert(timer@ == prev[i as int]);
            timer.tick(amount as u64);
            self.timers[i] = timer;
            assert(self@ =~= prev.update(i as int, timer@));
            i += 1;
        }
    }

    /// A set of timers holds one timer for each guest.
    pub proof fn lemma_len(&self)
        ensures
            self@.len() == MAX_NUMBER_OF_GUESTS,
    {
    }

    /// For each guest, whether its timer has fired.
    pub fn check_timers(&self) -> (r: [bool; MAX_NUMBER_OF_GUESTS])
        ensures
            forall|i: int| 0 <= i < MAX_NUMBER_OF_GUESTS ==> #[trigger] r[i] == timer_fired(self@[i]),
    {
        let mut vm_timer_list = [false, false, false, false];
        let mut i: usize = 0;
        while i < MAX_NUMBER_OF_GUESTS
            invariant
                i <= MAX_NUMBER_OF_GUESTS,
                self@.len() == MAX_NUMBER_OF_GUESTS,
                forall|j: int| 0 <= j < i ==> #[trigger] vm_timer_list[j] == timer_fired(self@[j]),
                forall|j: int| i <= j < MAX_NUMBER_OF_GUESTS ==> #[trigger] vm_timer_list[j] == false,
            decreases MAX_NUMBER_OF_GUESTS - i,
        {
            let vmtimer = self.timers[i];
            assert(vmtimer@ == self@[i as int]);
            if vmtimer.enabled {
                if vmtimer.mtime >= vmtimer.mtime_compare {
                    vm_timer_list[i] = true;
                }
            }
            i += 1;
        }
        return vm_timer_list;
    }
}

impl Timer for VmTimers {
    /// Programs the timer of guest `guest_id` to fire once its time reaches
    /// `time_value`, and enables it.
    fn set_timer(&mut self, time_value: u64, guest_id: usize)
        ensures
            final(self)@ == old(self)@.update(
                guest_id as int,
                VmTimerView { enabled: true, mtime_compare: time_value, ..old(self)@[guest_id as int] },
            ),
    {
        let mut t = self.timers[guest_id];
        assert(t@ == old(self)@[guest_id as int]);
        t.set_timer(time_value);
        t.enabled = true;
        self.timers[guest_id] = t;
        assert(self@ =~= old(self)@.update(
            guest_id as int,
            VmTimerView { enabled: true, mtime_compare: time_value, ..old(self)@[guest_id as int] },
        ));
    }
}

} // verus!
