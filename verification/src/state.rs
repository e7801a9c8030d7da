//! The daily accounting state machine.
//!
//! Deliberately a wall clock: the budget drains at 1x whenever any device is undocked. Two
//! devices out does not cost double.
use crate::civil;
use crate::civil::LocalDateTime;
use crate::policy::Policy;
use vstd::prelude::*;

verus! {

/// Warn this long before the budget runs out.
pub const WARNING_SECS: u32 = 300;

/// Largest gap between ticks that is treated as elapsed time. A longer gap means a crash, a
/// long sleep, or a clock correction, and is not charged to the budget.
pub const MAX_TICK_GAP_SECS: i64 = 300;

/// Edge-triggered things the tasks around the ledger need to react to.
#[derive(Debug, Clone, Copy, PartialEq, Eq, Structural)]
pub enum Event {
    /// A new Medienzeit day began; the budget was reset.
    DayReset,
    /// Budget hit zero. Block the devices.
    Exhausted,
    /// Budget is positive again (new day, or a bonus grant). Unblock.
    Restored,
    /// Crossed below [`WARNING_SECS`] remaining.
    Warning,
    /// A tick gap larger than [`MAX_TICK_GAP_SECS`] was ignored.
    TimeJump { gap_secs: i64 },
}

pub const MAX_EVENTS: usize = 5;

pub type Events = heapless::Vec<Event, MAX_EVENTS>;

/// The events that a bounded vector holds, in order.
pub uninterp spec fn events_of(v: heapless::Vec<Event, 5>) -> Seq<Event>;

/// `heapless::Vec::new`: a vector that holds nothing.
#[verifier::external_body]
fn no_events() -> (v: heapless::Vec<Event, 5>)
    ensures
        events_of(v) == Seq::<Event>::empty(),
{
    heapless::Vec::new()
}

/// `heapless::Vec::push`: appends the event while fewer than five are held, and otherwise
/// hands it back and leaves the vector as it was.
#[verifier::external_body]
fn push_event(v: &mut heapless::Vec<Event, 5>, e: Event) -> (r: Result<(), Event>)
    ensures
        events_of(*old(v)).len() < 5 ==> r is Ok && events_of(*final(v))
            == events_of(*old(v)).push(e),
        events_of(*old(v)).len() >= 5 ==> r is Err && r->Err_0 == e && events_of(*final(v))
            == events_of(*old(v)),
{
    v.push(e)
}

/// `heapless::Vec::as_slice`: the events held, in order.
#[verifier::external_body]
pub(crate) fn event_slice(v: &heapless::Vec<Event, 5>) -> (r: &[Event])
    ensures
        r@ == events_of(*v),
{
    v.as_slice()
}

/// What the display and the web page need, and nothing more.
#[derive(Debug, Clone, Copy, PartialEq, Eq)]
pub struct Snapshot<const N: usize> {
    pub remaining_secs: u32,
    pub allowance_secs: u32,
    pub spent_secs: u32,
    pub docked: [bool; N],
    /// True when an away-window is suppressing the clock right now.
    pub away: bool,
    /// True when the budget is actually draining this instant.
    pub spending: bool,
    /// True when a device is off its cradle but still inside the grace period, so nothing is
    /// being billed yet.
    pub in_grace: bool,
    /// Seconds of grace left before the clock starts, and bills retroactively.
    pub grace_remaining_secs: u32,
    pub exhausted: bool,
    pub local: LocalDateTime,
}

/// The budget of the current day and what has been drawn from it.
#[derive(Debug, Clone, Copy, PartialEq, Eq)]
pub struct Ledger<const N: usize> {
    pub day: i64,
    pub spent_secs: u32,
    /// Time accrued inside the current grace period. Flushed into `spent_secs` if the grace
    /// expires, discarded if the device is put back first.
    pub pending_secs: u32,
    pub bonus_secs: u32,
    pub docked: [bool; N],
    pub last_tick: Option<i64>,
    /// When the current run of "would be spending" began, for grace accounting.
    pub spending_since: Option<i64>,
    pub was_exhausted: bool,
    pub warned: bool,
}

/// `n`, or the largest `u32` where it is larger.
pub open spec fn at_most_u32(n: int) -> u32 {
    if n > u32::MAX {
        u32::MAX
    } else {
        n as u32
    }
}

/// `n`, or zero where it is negative.
pub open spec fn at_least_zero(n: int) -> int {
    if n < 0 {
        0
    } else {
        n
    }
}

/// Whether a device is off its cradle.
pub open spec fn some_out(docked: Seq<bool>) -> bool {
    exists|i: int| 0 <= i < docked.len() && !#[trigger] docked[i]
}

/// Seconds of grace left at `utc` in a pickup that began at `since`.
pub open spec fn grace_left(since: Option<i64>, utc: int, grace_secs: u32) -> u32 {
    match since {
        None => 0,
        Some(s) => at_least_zero(grace_secs - at_least_zero(utc - s)) as u32,
    }
}

/// The event where the condition holds, nothing otherwise.
pub open spec fn event_if(condition: bool, e: Event) -> Seq<Event> {
    if condition {
        seq![e]
    } else {
        Seq::empty()
    }
}

impl<const N: usize> Default for Ledger<N> {
    fn default() -> (r: Self)
        ensures
            r.fresh(),
    {
        Ledger::new()
    }
}

impl<const N: usize> Ledger<N> {
    /// A ledger before its first tick.
    pub open spec fn fresh(self) -> bool {
        &&& self.day == i64::MIN
        &&& self.spent_secs == 0
        &&& self.pending_secs == 0
        &&& self.bonus_secs == 0
        &&& forall|i: int| 0 <= i < N ==> #[trigger] self.docked@[i]
        &&& self.last_tick is None
        &&& self.spending_since is None
        &&& !self.was_exhausted
        &&& !self.warned
    }

    /// The ledger as it enters a day: untouched within the day it is in, and otherwise with
    /// nothing spent, held back or granted.
    pub open spec fn on_day(self, day: int) -> Self {
        if day == self.day {
            self
        } else {
            Ledger {
                day: day as i64,
                spent_secs: 0,
                pending_secs: 0,
                bonus_secs: 0,
                warned: false,
                last_tick: None,
                spending_since: None,
                ..self
            }
        }
    }

    /// Seconds since the last tick, zero where there was none.
    pub open spec fn gap(self, utc: int) -> int {
        match self.last_tick {
            None => 0,
            Some(t) => utc - t,
        }
    }

    /// When the pickup that is under way at `utc` began.
    pub open spec fn since(self, utc: int, running: bool) -> Option<i64> {
        if !running {
            None
        } else if self.spending_since is Some {
            self.spending_since
        } else {
            Some(utc as i64)
        }
    }

    /// The ledger after extra time was granted.
    pub open spec fn granted(self, secs: u32) -> Self {
        Ledger { bonus_secs: at_most_u32(self.bonus_secs + secs), ..self }
    }

    /// Allowance of a day with its bonus.
    pub open spec fn allowance(self, policy: Policy) -> u32 {
        at_most_u32(policy.allowance(self.day as int) + self.bonus_secs)
    }

    /// What is left of the allowance.
    pub open spec fn remaining(self, policy: Policy) -> u32 {
        at_least_zero(self.allowance(policy) - self.spent_secs) as u32
    }

    /// Whether the clock runs: a device is out and no away-window holds.
    pub open spec fn running(docked: [bool; N], utc: int, policy: Policy) -> bool {
        some_out(docked@) && !policy.away_at(civil::local_of(utc))
    }

    /// Whether the clock runs but the pickup is still within its grace.
    pub open spec fn graced(self, utc: int, docked: [bool; N], policy: Policy) -> bool {
        let running = Self::running(docked, utc, policy);
        running && grace_left(self.since(utc, running), utc, policy.grace_secs) > 0
    }

    /// Whether the time since the last tick counts: the clock runs, time has passed, and no
    /// more than [`MAX_TICK_GAP_SECS`] of it.
    pub open spec fn counts(self, utc: int, docked: [bool; N], policy: Policy) -> bool {
        Self::running(docked, utc, policy) && 0 < self.gap(utc) <= MAX_TICK_GAP_SECS
    }

    /// What has been billed after a tick on the current day: once the grace is over, the time
    /// since the last tick and everything that had been held back.
    pub open spec fn spent_after(self, utc: int, docked: [bool; N], policy: Policy) -> u32 {
        if self.counts(utc, docked, policy) && !self.graced(utc, docked, policy) {
            at_most_u32(self.spent_secs + self.pending_secs + self.gap(utc))
        } else {
            self.spent_secs
        }
    }

    /// What is held back after a tick on the current day: nothing once the clock stops or
    /// billing begins, and more with each tick inside the grace.
    pub open spec fn pending_after(self, utc: int, docked: [bool; N], policy: Policy) -> u32 {
        if !Self::running(docked, utc, policy) {
            0
        } else if !self.counts(utc, docked, policy) {
            self.pending_secs
        } else if self.graced(utc, docked, policy) {
            at_most_u32(self.pending_secs + self.gap(utc))
        } else {
            0
        }
    }

    /// The ledger after a tick, but for its warning and exhaustion marks.
    pub open spec fn billed(self, utc: int, docked: [bool; N], policy: Policy) -> Self {
        let l = self.on_day(policy.day_of(utc));
        Ledger {
            spent_secs: l.spent_after(utc, docked, policy),
            pending_secs: l.pending_after(utc, docked, policy),
            docked,
            last_tick: Some(utc as i64),
            spending_since: l.since(utc, Self::running(docked, utc, policy)),
            ..l
        }
    }

    /// The ledger after a tick.
    pub open spec fn ticked(self, utc: int, docked: [bool; N], policy: Policy) -> Self {
        let b = self.billed(utc, docked, policy);
        let left = b.remaining(policy);
        Ledger {
            warned: left <= WARNING_SECS && (left > 0 || b.warned),
            was_exhausted: left == 0,
            ..b
        }
    }

    /// What happened at a tick, in the order in which it is reported.
    pub open spec fn tick_events(self, utc: int, docked: [bool; N], policy: Policy) -> Seq<Event> {
        let l = self.on_day(policy.day_of(utc));
        let left = self.billed(utc, docked, policy).remaining(policy);
        event_if(policy.day_of(utc) != self.day, Event::DayReset) + event_if(
            l.gap(utc) > MAX_TICK_GAP_SECS,
            Event::TimeJump { gap_secs: l.gap(utc) as i64 },
        ) + event_if(0 < left <= WARNING_SECS && !l.warned, Event::Warning) + event_if(
            left == 0 && !self.was_exhausted,
            Event::Exhausted,
        ) + event_if(left > 0 && self.was_exhausted, Event::Restored)
    }

    /// What there is to show after a tick.
    pub open spec fn tick_snapshot(self, utc: int, docked: [bool; N], policy: Policy) -> Snapshot<
        N,
    > {
        let l = self.on_day(policy.day_of(utc));
        let b = self.billed(utc, docked, policy);
        let running = Self::running(docked, utc, policy);
        Snapshot {
            remaining_secs: b.remaining(policy),
            allowance_secs: b.allowance(policy),
            spent_secs: b.spent_secs,
            docked,
            away: policy.away_at(civil::local_of(utc)),
            spending: running && !l.graced(utc, docked, policy),
            in_grace: l.graced(utc, docked, policy),
            grace_remaining_secs: grace_left(b.spending_since, utc, policy.grace_secs),
            exhausted: b.remaining(policy) == 0,
            local: civil::local_of(utc),
        }
    }

    /// A ledger that has seen nothing yet.
    ///
    /// It assumes docked until a reader says otherwise, so a reader that never comes up
    /// cannot silently burn the day.
    pub fn new() -> (r: Self)
        ensures
            r.fresh(),
    {
        Ledger {
            day: i64::MIN,
            spent_secs: 0,
            pending_secs: 0,
            bonus_secs: 0,
            docked: [true;N],
            last_tick: None,
            spending_since: None,
            was_exhausted: false,
            warned: false,
        }
    }

    /// Whether at least one device is away from its cradle. One boolean, never a per-device
    /// sum: this is what keeps it wall-clock.
    pub fn any_undocked(&self) -> (r: bool)
        ensures
            r == some_out(self.docked@),
    {
        let mut i: usize = 0;
        while i < N
            invariant
                i <= N,
                forall|j: int| 0 <= j < i ==> #[trigger] self.docked@[j],
            decreases N - i,
        {
            if !self.docked[i] {
                return true;
            }
            i += 1;
        }
        false
    }

    /// The allowance of the current day, bonus and all.
    pub fn allowance_secs(&self, policy: &Policy) -> (r: u32)
        requires
            self.day + 3 <= i64::MAX,
        ensures
            r == self.allowance(*policy),
    {
        policy.allowance_secs(self.day).saturating_add(self.bonus_secs)
    }

    /// What is left of the allowance.
    pub fn remaining_secs(&self, policy: &Policy) -> (r: u32)
        requires
            self.day + 3 <= i64::MAX,
        ensures
            r == self.remaining(*policy),
    {
        self.allowance_secs(policy).saturating_sub(self.spent_secs)
    }

    /// Whether nothing is left.
    pub fn exhausted(&self, policy: &Policy) -> (r: bool)
        requires
            self.day + 3 <= i64::MAX,
        ensures
            r == (self.remaining(*policy) == 0),
    {
        self.remaining_secs(policy) == 0
    }

    /// Seconds of grace left in the current pickup, 0 if not in one.
    pub fn grace_remaining_secs(&self, utc: i64, policy: &Policy) -> (r: u32)
        ensures
            r == grace_left(self.spending_since, utc as int, policy.grace_secs),
    {
        match self.spending_since {
            None => 0,
            Some(started) => {
                if utc <= started {
                    policy.grace_secs
                } else {
                    let elapsed: i128 = utc as i128 - started as i128;
                    if elapsed >= policy.grace_secs as i128 {
                        0
                    } else {
                        policy.grace_secs - elapsed as u32
                    }
                }
            },
        }
    }

    /// Grant extra time for today. Survives until the next day reset.
    pub fn grant_bonus(&mut self, secs: u32)
        ensures
            *final(self) == old(self).granted(secs),
    {
        self.bonus_secs = self.bonus_secs.saturating_add(secs);
    }

    /// Advance to `utc`, with the current dock state of each device.
    ///
    /// Call this at about 1 Hz. A day that differs from the ledger's, be it because the clock
    /// jumped backwards, resets the budget: it can hand back time, never steal it.
    pub fn tick(&mut self, utc: i64, docked: [bool; N], policy: &Policy) -> (r: (
        Snapshot<N>,
        Events,
    ))
        requires
            policy.has_day(utc as int),
            policy.day_of(utc as int) == old(self).day ==> i64::MIN <= old(self).gap(utc as int)
                <= i64::MAX,
        ensures
            *final(self) == old(self).ticked(utc as int, docked, *policy),
            r.0 == old(self).tick_snapshot(utc as int, docked, *policy),
            events_of(r.1) == old(self).tick_events(utc as int, docked, *policy),
    {
        let mut events = no_events();
        let local = civil::local(utc);
        let day: i64 = policy.day_key(utc);
        let ghost before = *self;
        let ghost opened = self.on_day(day as int);

        if day != self.day {
            self.day = day;
            self.spent_secs = 0;
            self.pending_secs = 0;
            self.bonus_secs = 0;
            self.warned = false;
            self.last_tick = None;
            self.spending_since = None;
            let _ = push_event(&mut events, Event::DayReset);
        }
        assert(*self == opened);

        self.docked = docked;
        let away: bool = policy.is_away(&local);
        let running: bool = self.any_undocked() && !away;

        // Grace tracks an unbroken run of "would be spending". Redocking, or an away-window
        // starting, ends the run and forgives whatever had accrued.
        if running {
            if self.spending_since.is_none() {
                self.spending_since = Some(utc);
            }
        } else {
            self.spending_since = None;
            self.pending_secs = 0;
        }

        let grace: u32 = self.grace_remaining_secs(utc, policy);
        let in_grace: bool = running && grace > 0;

        if let Some(last) = self.last_tick {
            let gap: i64 = utc - last;
            if gap > MAX_TICK_GAP_SECS {
                let _ = push_event(&mut events, Event::TimeJump { gap_secs: gap });
            } else if gap > 0 && running {
                if in_grace {
                    self.pending_secs = self.pending_secs.saturating_add(gap as u32);
                } else {
                    // Grace has lapsed: bill this tick and everything held back during the
                    // grace period.
                    self.spent_secs =
                    self.spent_secs.saturating_add(self.pending_secs).saturating_add(gap as u32);
                    self.pending_secs = 0;
                }
            }
        }
        self.last_tick = Some(utc);
        assert(*self == before.billed(utc as int, docked, *policy));

        let remaining: u32 = self.remaining_secs(policy);
        let exhausted: bool = remaining == 0;

        if remaining <= WARNING_SECS && remaining > 0 && !self.warned {
            self.warned = true;
            let _ = push_event(&mut events, Event::Warning);
        }
        if remaining > WARNING_SECS {
            self.warned = false;
        }
        if exhausted && !self.was_exhausted {
            let _ = push_event(&mut events, Event::Exhausted);
        }
        if !exhausted && self.was_exhausted {
            let _ = push_event(&mut events, Event::Restored);
        }
        self.was_exhausted = exhausted;
        assert(events_of(events) =~= before.tick_events(utc as int, docked, *policy));

        let snapshot = Snapshot {
            remaining_secs: remaining,
            allowance_secs: self.allowance_secs(policy),
            spent_secs: self.spent_secs,
            docked: self.docked,
            away,
            spending: running && !in_grace,
            in_grace,
            grace_remaining_secs: grace,
            exhausted,
            local,
        };
        (snapshot, events)
    }
}

/// With every device docked, or inside an away-window, a tick bills nothing and forgives what
/// was held back.
pub proof fn stopped_clock_bills_nothing<const N: usize>(
    l: Ledger<N>,
    utc: int,
    docked: [bool; N],
    policy: Policy,
)
    requires
        !some_out(docked@) || policy.away_at(civil::local_of(utc)),
    ensures
        l.ticked(utc, docked, policy).spent_secs == l.on_day(policy.day_of(utc)).spent_secs,
        l.ticked(utc, docked, policy).pending_secs == 0,
{
}

/// The budget drains at the same rate however many devices are out.
pub proof fn rate_does_not_depend_on_how_many_are_out<const N: usize>(
    l: Ledger<N>,
    utc: int,
    some: [bool; N],
    others: [bool; N],
    policy: Policy,
)
    requires
        some_out(some@),
        some_out(others@),
    ensures
        l.ticked(utc, some, policy) == (Ledger { docked: some, ..l.ticked(utc, others, policy) }),
{
}

/// Within a day a tick bills and holds back at most the time since the last tick, and none of
/// it when that was longer than [`MAX_TICK_GAP_SECS`].
pub proof fn long_gap_is_not_charged<const N: usize>(
    l: Ledger<N>,
    utc: int,
    docked: [bool; N],
    policy: Policy,
)
    requires
        policy.day_of(utc) == l.day,
    ensures
        ({
            let after = l.ticked(utc, docked, policy);
            &&& after.spent_secs + after.pending_secs <= l.spent_secs + l.pending_secs
                + at_least_zero(l.gap(utc))
            &&& l.gap(utc) > MAX_TICK_GAP_SECS ==> after.spent_secs == l.spent_secs
        }),
{
}

/// A second tick at the same instant changes nothing and reports nothing.
pub proof fn repeated_tick_changes_nothing<const N: usize>(
    l: Ledger<N>,
    utc: i64,
    docked: [bool; N],
    policy: Policy,
)
    requires
        i64::MIN <= policy.day_of(utc as int) <= i64::MAX,
    ensures
        ({
            let once = l.ticked(utc as int, docked, policy);
            &&& once.ticked(utc as int, docked, policy) == once
            &&& once.tick_events(utc as int, docked, policy) == Seq::<Event>::empty()
        }),
{
    let once = l.ticked(utc as int, docked, policy);
    assert(once.tick_events(utc as int, docked, policy) =~= Seq::<Event>::empty());
}

/// While the clock runs without a break, billed and held-back time together grow by exactly
/// the time that passes, so a pickup that outlasts its grace is billed in full, from its
/// first second.
pub proof fn a_pickup_is_billed_whole<const N: usize>(
    l: Ledger<N>,
    utc: int,
    docked: [bool; N],
    policy: Policy,
)
    requires
        policy.day_of(utc) == l.day,
        Ledger::running(docked, utc, policy),
        0 < l.gap(utc) <= MAX_TICK_GAP_SECS,
        l.spent_secs + l.pending_secs + l.gap(utc) <= u32::MAX,
    ensures
        ({
            let after = l.ticked(utc, docked, policy);
            &&& after.spent_secs + after.pending_secs == l.spent_secs + l.pending_secs + l.gap(utc)
            &&& grace_left(after.spending_since, utc, policy.grace_secs) == 0 ==> after.spent_secs
                == l.spent_secs + l.pending_secs + l.gap(utc)
            &&& grace_left(after.spending_since, utc, policy.grace_secs) > 0 ==> after.spent_secs
                == l.spent_secs
        }),
{
}

/// A new day starts with its plain allowance: nothing spent, nothing held back, no bonus, and
/// nothing carried over.
pub proof fn a_new_day_starts_clean<const N: usize>(
    l: Ledger<N>,
    utc: int,
    docked: [bool; N],
    policy: Policy,
)
    requires
        policy.day_of(utc) != l.day,
        i64::MIN <= policy.day_of(utc) <= i64::MAX,
    ensures
        ({
            let after = l.ticked(utc, docked, policy);
            &&& after.spent_secs == 0
            &&& after.pending_secs == 0
            &&& after.bonus_secs == 0
            &&& after.remaining(policy) == policy.allowance(policy.day_of(utc))
            &&& l.tick_events(utc, docked, policy).contains(Event::DayReset)
        }),
{
    assert(l.tick_events(utc, docked, policy)[0] == Event::DayReset);
}

/// Exhaustion and its end are reported once each, at the tick that sees the change.
pub proof fn exhaustion_is_an_edge<const N: usize>(
    l: Ledger<N>,
    utc: int,
    docked: [bool; N],
    policy: Policy,
)
    ensures
        ({
            let after = l.ticked(utc, docked, policy);
            let events = l.tick_events(utc, docked, policy);
            &&& events.contains(Event::Exhausted) <==> !l.was_exhausted && after.remaining(policy)
                == 0
            &&& events.contains(Event::Restored) <==> l.was_exhausted && after.remaining(policy) > 0
            &&& after.was_exhausted <==> after.remaining(policy) == 0
        }),
{
    let l2 = l.on_day(policy.day_of(utc));
    let left = l.billed(utc, docked, policy).remaining(policy);
    let a = event_if(policy.day_of(utc) != l.day, Event::DayReset);
    let b = event_if(
        l2.gap(utc) > MAX_TICK_GAP_SECS,
        Event::TimeJump { gap_secs: l2.gap(utc) as i64 },
    );
    let c = event_if(0 < left <= WARNING_SECS && !l2.warned, Event::Warning);
    let d = event_if(left == 0 && !l.was_exhausted, Event::Exhausted);
    let e = event_if(left > 0 && l.was_exhausted, Event::Restored);
    let events = l.tick_events(utc, docked, policy);
    if left == 0 && !l.was_exhausted {
        assert(events[(a + b + c).len() as int] == Event::Exhausted);
    }
    if left > 0 && l.was_exhausted {
        assert(events[(a + b + c + d).len() as int] == Event::Restored);
    }
    assert(events =~= a + b + c + d + e);
}

/// Granting time and ticking at the same instant restores an exhausted budget, provided the
/// grant outweighs what was overspent.
pub proof fn a_bonus_restores<const N: usize>(
    l: Ledger<N>,
    secs: u32,
    utc: i64,
    docked: [bool; N],
    policy: Policy,
)
    requires
        policy.day_of(utc as int) == l.day,
        l.last_tick == Some(utc),
        l.was_exhausted,
        policy.allowance(l.day as int) + l.bonus_secs + secs <= u32::MAX,
        policy.allowance(l.day as int) + l.bonus_secs + secs > l.spent_secs,
    ensures
        ({
            let granted = Ledger { bonus_secs: at_most_u32(l.bonus_secs + secs), ..l };
            &&& granted.tick_events(utc as int, docked, policy).contains(Event::Restored)
            &&& granted.ticked(utc as int, docked, policy).remaining(policy) == policy.allowance(
                l.day as int,
            ) + l.bonus_secs + secs - l.spent_secs
        }),
{
    let granted = Ledger { bonus_secs: at_most_u32(l.bonus_secs + secs), ..l };
    exhaustion_is_an_edge(granted, utc as int, docked, policy);
}

proof fn lemma_either_holds(a: Seq<Event>, b: Seq<Event>, e: Event)
    ensures
        (a + b).contains(e) <==> a.contains(e) || b.contains(e),
{
    if a.contains(e) {
        let i = choose|i: int| 0 <= i < a.len() && a[i] == e;
        assert((a + b)[i] == e);
    }
    if b.contains(e) {
        let i = choose|i: int| 0 <= i < b.len() && b[i] == e;
        assert((a + b)[a.len() + i] == e);
    }
    if (a + b).contains(e) {
        let i = choose|i: int| 0 <= i < (a + b).len() && (a + b)[i] == e;
        if i < a.len() {
            assert(a[i] == e);
        } else {
            assert(b[i - a.len()] == e);
        }
    }
}

proof fn lemma_one_event(condition: bool, x: Event, e: Event)
    ensures
        event_if(condition, x).contains(e) <==> condition && x == e,
{
    if condition {
        assert(event_if(condition, x)[0] == x);
    }
}

proof fn lemma_what_is_reported<const N: usize>(
    l: Ledger<N>,
    utc: int,
    docked: [bool; N],
    policy: Policy,
    x: Event,
)
    ensures
        ({
            let l2 = l.on_day(policy.day_of(utc));
            let left = l.billed(utc, docked, policy).remaining(policy);
            l.tick_events(utc, docked, policy).contains(x) <==> {
                ||| policy.day_of(utc) != l.day && x == Event::DayReset
                ||| l2.gap(utc) > MAX_TICK_GAP_SECS && x == (Event::TimeJump {
                    gap_secs: l2.gap(utc) as i64,
                })
                ||| 0 < left <= WARNING_SECS && !l2.warned && x == Event::Warning
                ||| left == 0 && !l.was_exhausted && x == Event::Exhausted
                ||| left > 0 && l.was_exhausted && x == Event::Restored
            }
        }),
{
    let l2 = l.on_day(policy.day_of(utc));
    let left = l.billed(utc, docked, policy).remaining(policy);
    let jump = Event::TimeJump { gap_secs: l2.gap(utc) as i64 };
    let a = event_if(policy.day_of(utc) != l.day, Event::DayReset);
    let b = event_if(l2.gap(utc) > MAX_TICK_GAP_SECS, jump);
    let c = event_if(0 < left <= WARNING_SECS && !l2.warned, Event::Warning);
    let d = event_if(left == 0 && !l.was_exhausted, Event::Exhausted);
    let e = event_if(left > 0 && l.was_exhausted, Event::Restored);
    lemma_either_holds(a, b, x);
    lemma_either_holds(a + b, c, x);
    lemma_either_holds(a + b + c, d, x);
    lemma_either_holds(a + b + c + d, e, x);
    lemma_one_event(policy.day_of(utc) != l.day, Event::DayReset, x);
    lemma_one_event(l2.gap(utc) > MAX_TICK_GAP_SECS, jump, x);
    lemma_one_event(0 < left <= WARNING_SECS && !l2.warned, Event::Warning, x);
    lemma_one_event(left == 0 && !l.was_exhausted, Event::Exhausted, x);
    lemma_one_event(left > 0 && l.was_exhausted, Event::Restored, x);
}

/// The clock runs while a single device is off its cradle. A pickup that has lasted as long as the
/// grace is billed for the time since the last tick and for all that had been held back; a shorter
/// one is held back. A pickup lasts from the first tick that saw it.
pub proof fn use_is_billed_once_the_grace_is_over<const N: usize>(
    l: Ledger<N>,
    last: i64,
    utc: i64,
    docked: [bool; N],
    out: int,
    policy: Policy,
)
    requires
        policy.day_of(utc as int) == l.day,
        l.last_tick == Some(last),
        0 < utc - last <= 300,
        0 <= out < N,
        !docked@[out],
        !policy.away_at(civil::local_of(utc as int)),
        l.spent_secs + l.pending_secs + (utc - last) <= u32::MAX,
    ensures
        ({
            let after = l.ticked(utc as int, docked, policy);
            let began = match l.spending_since {
                Some(t) => t,
                None => utc,
            };
            let lasted = if began <= utc {
                utc - began
            } else {
                0
            };
            &&& after.spending_since == Some(began)
            &&& lasted >= policy.grace_secs ==> after.spent_secs == l.spent_secs
                + l.pending_secs + (utc - last) && after.pending_secs == 0
            &&& lasted < policy.grace_secs ==> after.spent_secs == l.spent_secs
                && after.pending_secs == l.pending_secs + (utc - last)
            &&& after.last_tick == Some(utc)
            &&& after.docked == docked
            &&& after.bonus_secs == l.bonus_secs
            &&& after.day == l.day
        }),
{
    assert(some_out(docked@));
}

/// The clock stands still while every device is on its cradle, or inside an away-window, or where
/// no time has passed, or more than five minutes: nothing is billed. Putting everything back, or an
/// away-window, ends the pickup and forgives what was held back.
pub proof fn nothing_is_billed_while_the_clock_stands<const N: usize>(
    l: Ledger<N>,
    last: i64,
    utc: i64,
    docked: [bool; N],
    policy: Policy,
)
    requires
        policy.day_of(utc as int) == l.day,
        l.last_tick == Some(last),
    ensures
        ({
            let after = l.ticked(utc as int, docked, policy);
            let all_docked = forall|i: int| 0 <= i < N ==> #[trigger] docked@[i];
            let away = policy.away_at(civil::local_of(utc as int));
            &&& all_docked || away || utc <= last || utc - last > 300 ==> after.spent_secs
                == l.spent_secs
            &&& all_docked || away ==> after.pending_secs == 0 && after.spending_since is None
            &&& after.bonus_secs == l.bonus_secs
            &&& after.last_tick == Some(utc)
        }),
{
}

/// What is shown adds up: what is left and what is spent make up the allowance, which is that of
/// the weekday and the bonus; and nothing is left exactly where the budget counts as exhausted.
pub proof fn what_is_shown_adds_up<const N: usize>(
    l: Ledger<N>,
    utc: i64,
    docked: [bool; N],
    policy: Policy,
)
    requires
        i64::MIN <= policy.day_of(utc as int) <= i64::MAX,
    ensures
        ({
            let s = l.tick_snapshot(utc as int, docked, policy);
            let after = l.ticked(utc as int, docked, policy);
            let full = policy.allowance(policy.day_of(utc as int)) + after.bonus_secs;
            &&& s.spent_secs == after.spent_secs
            &&& full <= u32::MAX ==> s.allowance_secs == full
            &&& s.spent_secs <= s.allowance_secs ==> s.remaining_secs + s.spent_secs
                == s.allowance_secs
            &&& s.spent_secs > s.allowance_secs ==> s.remaining_secs == 0
            &&& s.exhausted <==> s.spent_secs >= s.allowance_secs
            &&& s.docked == docked
            &&& s.local == civil::local_of(utc as int)
            &&& s.away == policy.away_at(civil::local_of(utc as int))
        }),
{
}

/// The budget drains, or is within the grace, only while a device is out and no away-window holds;
/// then it is the one until the grace is over and the other from then on.
pub proof fn the_grace_runs_down<const N: usize>(
    l: Ledger<N>,
    utc: i64,
    docked: [bool; N],
    policy: Policy,
)
    ensures
        ({
            let s = l.tick_snapshot(utc as int, docked, policy);
            let after = l.ticked(utc as int, docked, policy);
            let out = exists|i: int| 0 <= i < N && !#[trigger] docked@[i];
            let runs = out && !policy.away_at(civil::local_of(utc as int));
            &&& s.spending || s.in_grace <==> runs
            &&& !(s.spending && s.in_grace)
            &&& runs <==> after.spending_since is Some
            &&& runs && after.spending_since->0 <= utc ==> {
                let lasted = utc - after.spending_since->0;
                &&& s.in_grace <==> lasted < policy.grace_secs
                &&& s.grace_remaining_secs == if lasted < policy.grace_secs {
                    policy.grace_secs - lasted
                } else {
                    0
                }
            }
            &&& !runs ==> s.grace_remaining_secs == 0
        }),
{
    if some_out(docked@) {
        let i = choose|i: int| 0 <= i < docked@.len() && !#[trigger] docked@[i];
        assert(!docked@[i]);
    }
}

/// The warning comes when five minutes or less are left, but not once nothing is, and it comes once:
/// not again on that day until more was left in between. Only a gap of more than five minutes within
/// a day is reported as a jump, with its length, and a new day is reported as one.
pub proof fn warnings_jumps_and_days_are_reported<const N: usize>(
    l: Ledger<N>,
    utc: i64,
    docked: [bool; N],
    policy: Policy,
    jump: i64,
)
    requires
        i64::MIN <= policy.day_of(utc as int) <= i64::MAX,
        policy.day_of(utc as int) == l.day && l.last_tick is Some ==> i64::MIN <= utc
            - l.last_tick->0 <= i64::MAX,
    ensures
        ({
            let events = l.tick_events(utc as int, docked, policy);
            let after = l.ticked(utc as int, docked, policy);
            let left = l.tick_snapshot(utc as int, docked, policy).remaining_secs;
            let same_day = policy.day_of(utc as int) == l.day;
            &&& events.contains(Event::Warning) <==> 0 < left <= 300 && !(same_day && l.warned)
            &&& 0 < left <= 300 ==> after.warned
            &&& left > 300 ==> !after.warned
            &&& left == 0 ==> after.warned == (same_day && l.warned)
            &&& events.contains(Event::DayReset) <==> !same_day
            &&& events.contains(Event::TimeJump { gap_secs: jump }) <==> same_day
                && l.last_tick is Some && utc - l.last_tick->0 > 300 && jump == utc
                - l.last_tick->0
        }),
{
    lemma_what_is_reported(l, utc as int, docked, policy, Event::Warning);
    lemma_what_is_reported(l, utc as int, docked, policy, Event::DayReset);
    lemma_what_is_reported(l, utc as int, docked, policy, Event::TimeJump { gap_secs: jump });
}

/// A grant is worth what it says: as much more is left, where the budget was not overspent, and
/// nothing else changes.
pub proof fn a_grant_is_worth_what_it_says<const N: usize>(l: Ledger<N>, secs: u32, policy: Policy)
    requires
        policy.allowance(l.day as int) + l.bonus_secs + secs <= u32::MAX,
        l.spent_secs <= policy.allowance(l.day as int) + l.bonus_secs,
    ensures
        l.granted(secs).remaining(policy) == l.remaining(policy) + secs,
        l.granted(secs) == (Ledger { bonus_secs: (l.bonus_secs + secs) as u32, ..l }),
{
}

/// A ledger begins with nothing spent and every device on its cradle.
pub proof fn a_ledger_begins_untouched<const N: usize>(l: Ledger<N>, i: int)
    requires
        l.fresh(),
        0 <= i < N,
    ensures
        l.docked@[i],
        l.spent_secs == 0,
        l.pending_secs == 0,
        l.bonus_secs == 0,
        l.last_tick is None,
        l.spending_since is None,
{
}

/// The place of an event among those of one tick.
pub open spec fn rank(e: Event) -> int {
    match e {
        Event::DayReset => 0,
        Event::TimeJump { .. } => 1,
        Event::Warning => 2,
        Event::Exhausted => 3,
        Event::Restored => 4,
    }
}

/// Whether events stand in their order, all of them before `bound`.
pub open spec fn in_order(events: Seq<Event>, bound: int) -> bool {
    &&& forall|i: int, j: int| 0 <= i < j < events.len() ==> rank(events[i]) < rank(events[j])
    &&& forall|i: int| 0 <= i < events.len() ==> rank(#[trigger] events[i]) < bound
}

proof fn lemma_one_more(events: Seq<Event>, condition: bool, e: Event)
    requires
        in_order(events, rank(e)),
    ensures
        in_order(events + event_if(condition, e), rank(e) + 1),
{
    let all = events + event_if(condition, e);
    assert forall|i: int| 0 <= i < all.len() implies rank(#[trigger] all[i]) < rank(e) + 1 by {
        if i < events.len() {
            assert(all[i] == events[i]);
        }
    }
    assert forall|i: int, j: int| 0 <= i < j < all.len() implies rank(all[i]) < rank(all[j]) by {
        assert(all[i] == events[i]);
        if j < events.len() {
            assert(all[j] == events[j]);
        }
    }
}

/// What a tick reports comes in a fixed order, nothing twice: a new day, a jump in time, the
/// warning, the end of the budget or its return.
pub proof fn events_come_in_order<const N: usize>(
    l: Ledger<N>,
    utc: int,
    docked: [bool; N],
    policy: Policy,
)
    ensures
        in_order(l.tick_events(utc, docked, policy), 5),
{
    let l2 = l.on_day(policy.day_of(utc));
    let left = l.billed(utc, docked, policy).remaining(policy);
    let jump = Event::TimeJump { gap_secs: l2.gap(utc) as i64 };
    let c1 = policy.day_of(utc) != l.day;
    let c2 = l2.gap(utc) > MAX_TICK_GAP_SECS;
    let c3 = 0 < left <= WARNING_SECS && !l2.warned;
    let c4 = left == 0 && !l.was_exhausted;
    let c5 = left > 0 && l.was_exhausted;
    let none = Seq::<Event>::empty();
    let e1 = event_if(c1, Event::DayReset);
    let e2 = e1 + event_if(c2, jump);
    let e3 = e2 + event_if(c3, Event::Warning);
    let e4 = e3 + event_if(c4, Event::Exhausted);
    assert(none + e1 =~= e1);
    lemma_one_more(none, c1, Event::DayReset);
    lemma_one_more(e1, c2, jump);
    lemma_one_more(e2, c3, Event::Warning);
    lemma_one_more(e3, c4, Event::Exhausted);
    lemma_one_more(e4, c5, Event::Restored);
}

} // verus!
