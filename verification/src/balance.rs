//! The balance ledger: a single bucket of seconds that fills while the devices are put back
//! or away from home, and drains while one of them is in use at home.
use crate::civil;
use crate::civil::LocalDateTime;
use crate::policy;
use crate::policy::AwayWindow;
use crate::state;
use vstd::prelude::*;

verus! {

/// Maximum number of night windows in a policy.
pub const MAX_WINDOWS: usize = 8;

/// A recurring stretch of local time.
pub type Window = AwayWindow;

/// Warn when no more than this is left.
pub const WARNING_SECS: i32 = 300;

/// Largest gap between ticks that is charged or credited.
pub const MAX_TICK_GAP_SECS: i64 = 300;

/// Which way the balance moves.
#[derive(Debug, Clone, Copy, PartialEq, Eq, Structural)]
pub enum Flow {
    Filling,
    Held,
    Draining,
}

/// Edge-triggered things the tasks around the ledger need to react to.
#[derive(Debug, Clone, Copy, PartialEq, Eq, Structural)]
pub enum Event {
    /// The balance reached zero.
    Exhausted,
    /// The balance is positive again.
    Restored,
    /// The balance drained to [`WARNING_SECS`] or less.
    Warning,
    /// The night began.
    NightBegan,
    /// The night ended.
    NightEnded,
    /// A device was taken, at home, during the night.
    UndockedAtNight { device: usize },
    /// A tick gap larger than [`MAX_TICK_GAP_SECS`] was ignored.
    TimeJump { gap_secs: i64 },
}

pub const MAX_EVENTS: usize = 8;

pub type Events = heapless::Vec<Event, MAX_EVENTS>;

/// The events that a bounded vector holds, in order.
pub uninterp spec fn balance_events_of(v: heapless::Vec<Event, 8>) -> Seq<Event>;

/// `heapless::Vec::new`: a vector that holds nothing.
#[verifier::external_body]
fn no_events() -> (v: heapless::Vec<Event, 8>)
    ensures
        balance_events_of(v) == Seq::<Event>::empty(),
{
    heapless::Vec::new()
}

/// `heapless::Vec::push`: appends the event while fewer than eight are held, and otherwise
/// hands it back and leaves the vector as it was.
#[verifier::external_body]
fn push_event(v: &mut heapless::Vec<Event, 8>, e: Event) -> (r: Result<(), Event>)
    ensures
        balance_events_of(*old(v)).len() < 8 ==> r is Ok && balance_events_of(*final(v))
            == balance_events_of(*old(v)).push(e),
        balance_events_of(*old(v)).len() >= 8 ==> r is Err && r->Err_0 == e && balance_events_of(
            *final(v),
        ) == balance_events_of(*old(v)),
{
    v.push(e)
}

/// `heapless::Vec::as_slice`: the events held, in order.
#[verifier::external_body]
pub(crate) fn event_slice(v: &heapless::Vec<Event, 8>) -> (r: &[Event])
    ensures
        r@ == balance_events_of(*v),
{
    v.as_slice()
}

/// The rules of the balance ledger.
#[derive(Debug, PartialEq, Eq)]
pub struct Policy {
    /// The refill is a ratio, not a rate: `refill_den` seconds of not using earn
    /// `refill_num` seconds of balance.
    pub refill_num: u32,
    pub refill_den: u32,
    /// The balance fills up to this.
    pub cap_secs: u32,
    /// The balance drains down to this much below zero.
    pub floor_secs: u32,
    /// What a ledger that was never stored starts with.
    pub prefill_secs: u32,
    /// How long a pickup may last before it is billed, from its first second.
    pub grace_secs: u32,
    /// When devices belong at the reader.
    pub night: heapless::Vec<Window, MAX_WINDOWS>,
}

impl Default for Policy {
    /// One minute earned for ten, up to three hours; half an hour of debt; half an hour to
    /// start with; three minutes of grace; night from 21:00 to 06:30.
    fn default() -> (r: Self)
        ensures
            r.standard(),
    {
        let mut night = policy::no_windows();
        let _ = policy::push_window(&mut night, Window::hm(Window::EVERY_DAY, 21, 0, 6, 30));
        Policy {
            refill_num: 1,
            refill_den: 10,
            cap_secs: 3 * 60 * 60,
            floor_secs: 30 * 60,
            prefill_secs: 30 * 60,
            grace_secs: 3 * 60,
            night,
        }
    }
}

impl Clone for Policy {
    fn clone(&self) -> (r: Self)
        ensures
            r.same_rules(*self),
    {
        Policy {
            refill_num: self.refill_num,
            refill_den: self.refill_den,
            cap_secs: self.cap_secs,
            floor_secs: self.floor_secs,
            prefill_secs: self.prefill_secs,
            grace_secs: self.grace_secs,
            night: policy::copy_windows(&self.night),
        }
    }
}

/// The lower of two numbers.
pub open spec fn lower(a: int, b: int) -> int {
    if a <= b {
        a
    } else {
        b
    }
}

/// The higher of two numbers.
pub open spec fn higher(a: int, b: int) -> int {
    if a >= b {
        a
    } else {
        b
    }
}

impl Policy {
    /// The rules that hold unless something else is stored.
    pub open spec fn standard(self) -> bool {
        &&& self.refill_num == 1
        &&& self.refill_den == 10
        &&& self.cap_secs == 10_800
        &&& self.floor_secs == 1_800
        &&& self.prefill_secs == 1_800
        &&& self.grace_secs == 180
        &&& policy::windows_of(self.night) == seq![
            Window { weekday_mask: 127, start_minute: 1_260, end_minute: 390 },
        ]
    }

    /// Whether two policies state the same rules.
    pub open spec fn same_rules(self, other: Policy) -> bool {
        &&& self.refill_num == other.refill_num
        &&& self.refill_den == other.refill_den
        &&& self.cap_secs == other.cap_secs
        &&& self.floor_secs == other.floor_secs
        &&& self.prefill_secs == other.prefill_secs
        &&& self.grace_secs == other.grace_secs
        &&& policy::windows_of(self.night) == policy::windows_of(other.night)
    }

    /// The highest balance that filling reaches.
    pub open spec fn ceiling(self) -> int {
        lower(self.cap_secs as int, i32::MAX as int)
    }

    /// The balance of a ledger that was never stored.
    pub open spec fn first_balance(self) -> int {
        lower(self.prefill_secs as int, self.ceiling())
    }

    /// The lowest balance that draining reaches.
    pub open spec fn bottom(self) -> int {
        higher(-(self.floor_secs as int), i32::MIN as int)
    }

    /// Whether it is night.
    pub open spec fn night_at(self, now: LocalDateTime) -> bool {
        policy::covered(policy::windows_of(self.night), now)
    }

    /// Whether a night window covers `now`.
    pub fn is_night(&self, now: &LocalDateTime) -> (r: bool)
        requires
            policy::windows_of(self.night).len() > 0 ==> now.weekday < 8 && now.minutes()
                <= u32::MAX,
        ensures
            r == self.night_at(*now),
    {
        policy::any_contains(policy::window_slice(&self.night), now)
    }
}

/// What the display and the web page need, and nothing more.
#[derive(Debug, Clone, Copy, PartialEq, Eq)]
pub struct Snapshot<const N: usize> {
    pub balance_secs: i32,
    pub cap_secs: u32,
    pub docked: [bool; N],
    /// Whether each device is on the home network.
    pub present: [bool; N],
    pub flow: Flow,
    pub night: bool,
    /// True when a device is in use but the pickup is not being billed yet.
    pub in_grace: bool,
    /// Seconds of grace left before the pickup is billed.
    pub grace_remaining_secs: u32,
    /// Which devices are to be cut off the internet.
    pub blocked: [bool; N],
    pub local: LocalDateTime,
}

impl<const N: usize> Snapshot<N> {
    /// Whether nothing is left.
    pub fn exhausted(&self) -> (r: bool)
        ensures
            r == (self.balance_secs <= 0),
    {
        self.balance_secs <= 0
    }
}

/// The balance and what moves it.
#[derive(Debug, Clone, Copy, PartialEq, Eq)]
pub struct Ledger<const N: usize> {
    pub balance_secs: i32,
    /// What has been earned of the next second, in units of `1 / refill_den`.
    pub earned_parts: u32,
    /// Time accrued inside the grace of the current pickup.
    pub pending_secs: u32,
    pub docked: [bool; N],
    pub present: [bool; N],
    pub last_tick: Option<i64>,
    /// When the current pickup began.
    pub pickup_since: Option<i64>,
    pub was_exhausted: bool,
    pub warned: bool,
    pub was_night: bool,
    /// Which devices were in use in the night at the last tick.
    pub out_at_night: [bool; N],
}

/// Whether a device is in use at home: away from the reader and on the home network.
pub open spec fn in_use(docked: Seq<bool>, present: Seq<bool>, i: int) -> bool {
    !docked[i] && present[i]
}

/// Whether any device is in use at home.
pub open spec fn any_in_use(docked: Seq<bool>, present: Seq<bool>) -> bool {
    exists|i: int| 0 <= i < docked.len() && #[trigger] in_use(docked, present, i)
}

/// The event where the condition holds, nothing otherwise.
pub open spec fn event_if(condition: bool, e: Event) -> Seq<Event> {
    if condition {
        seq![e]
    } else {
        Seq::empty()
    }
}

/// One alert for each of the first `n` devices that is in use in the night and was not before.
pub open spec fn night_alerts(
    docked: Seq<bool>,
    present: Seq<bool>,
    before: Seq<bool>,
    n: nat,
) -> Seq<Event>
    decreases n,
{
    if n == 0 {
        Seq::empty()
    } else {
        let i = n - 1;
        night_alerts(docked, present, before, i as nat) + event_if(
            in_use(docked, present, i) && !before[i],
            Event::UndockedAtNight { device: i as usize },
        )
    }
}

/// As many of the events as a bounded vector takes.
pub open spec fn as_many_as_fit(events: Seq<Event>) -> Seq<Event> {
    if events.len() <= MAX_EVENTS {
        events
    } else {
        events.take(MAX_EVENTS as int)
    }
}

/// The balance after earning `parts` parts of `den` each, up to the ceiling. A balance that
/// already lies above the ceiling stays.
pub open spec fn filled(balance: int, parts: int, den: int, ceiling: int) -> int {
    higher(balance, lower(balance + parts / den, ceiling))
}

/// The balance after `secs` seconds of use, down to the bottom. A balance that already lies
/// below the bottom stays.
pub open spec fn drained(balance: int, secs: int, bottom: int) -> int {
    lower(balance, higher(balance - secs, bottom))
}

/// What decides a tick: the instant, where the devices are, and the rules.
pub struct Moment<const N: usize> {
    pub utc: int,
    pub docked: [bool; N],
    pub present: [bool; N],
    pub policy: Policy,
}

impl<const N: usize> Moment<N> {
    pub open spec fn local(self) -> LocalDateTime {
        civil::local_of(self.utc)
    }

    pub open spec fn night(self) -> bool {
        self.policy.night_at(self.local())
    }

    /// Whether a device is in use at home.
    pub open spec fn used(self) -> bool {
        any_in_use(self.docked@, self.present@)
    }

    /// Whether a pickup is under way: a device is in use, and not at night.
    pub open spec fn pickup(self) -> bool {
        self.used() && !self.night()
    }
}

impl<const N: usize> Ledger<N> {
    /// A ledger before its first tick. It takes every device to be at the reader and away
    /// from home, so neither a dead reader nor an unreachable router drains the balance.
    pub open spec fn fresh(self, balance: int) -> bool {
        &&& self.balance_secs == balance
        &&& self.earned_parts == 0
        &&& self.pending_secs == 0
        &&& forall|i: int| 0 <= i < N ==> #[trigger] self.docked@[i]
        &&& forall|i: int| 0 <= i < N ==> !#[trigger] self.present@[i]
        &&& self.last_tick is None
        &&& self.pickup_since is None
        &&& !self.was_exhausted
        &&& !self.warned
        &&& !self.was_night
        &&& forall|i: int| 0 <= i < N ==> !#[trigger] self.out_at_night@[i]
    }

    /// Seconds since the last tick, zero where there was none.
    pub open spec fn gap(self, utc: int) -> int {
        match self.last_tick {
            None => 0,
            Some(t) => utc - t,
        }
    }

    /// The seconds that a tick charges or credits: those since the last tick, and none of
    /// them when the clock went backwards or jumped.
    pub open spec fn elapsed(self, utc: int) -> int {
        if 0 < self.gap(utc) <= MAX_TICK_GAP_SECS {
            self.gap(utc)
        } else {
            0
        }
    }

    /// When the pickup that is under way began.
    pub open spec fn since(self, m: Moment<N>) -> Option<i64> {
        if !m.pickup() {
            None
        } else if self.pickup_since is Some {
            self.pickup_since
        } else {
            Some(m.utc as i64)
        }
    }

    /// Seconds of grace left in the pickup that is under way.
    pub open spec fn grace(self, m: Moment<N>) -> u32 {
        state::grace_left(self.since(m), m.utc, m.policy.grace_secs)
    }

    /// Filling unless a device is in use; then held at night and inside the grace, draining
    /// otherwise.
    pub open spec fn flow(self, m: Moment<N>) -> Flow {
        if !m.used() {
            Flow::Filling
        } else if m.night() || self.grace(m) > 0 {
            Flow::Held
        } else {
            Flow::Draining
        }
    }

    /// What has been earned and not yet credited, in units of `1 / refill_den`.
    pub open spec fn parts(self, m: Moment<N>) -> int {
        self.earned_parts + self.elapsed(m.utc) * m.policy.refill_num
    }

    /// The balance after a tick.
    pub open spec fn balance_after(self, m: Moment<N>) -> int {
        if self.elapsed(m.utc) == 0 {
            self.balance_secs as int
        } else {
            match self.flow(m) {
                Flow::Filling => filled(
                    self.balance_secs as int,
                    self.parts(m),
                    m.policy.refill_den as int,
                    m.policy.ceiling(),
                ),
                Flow::Held => self.balance_secs as int,
                Flow::Draining => drained(
                    self.balance_secs as int,
                    self.pending_secs + self.elapsed(m.utc),
                    m.policy.bottom(),
                ),
            }
        }
    }

    /// What is earned of the next second after a tick: nothing once the ceiling is reached.
    pub open spec fn parts_after(self, m: Moment<N>) -> int {
        if self.flow(m) != Flow::Filling || self.elapsed(m.utc) == 0 {
            self.earned_parts as int
        } else if self.balance_secs + self.parts(m) / (m.policy.refill_den as int)
            >= m.policy.ceiling() {
            0
        } else {
            self.parts(m) % (m.policy.refill_den as int)
        }
    }

    /// What is held back after a tick.
    pub open spec fn pending_after(self, m: Moment<N>) -> u32 {
        if !m.pickup() {
            0
        } else if self.flow(m) == Flow::Held {
            state::at_most_u32(self.pending_secs + self.elapsed(m.utc))
        } else if self.elapsed(m.utc) > 0 {
            0
        } else {
            self.pending_secs
        }
    }

    /// Whether the balance drains at or under the warning level with something left.
    pub open spec fn warns(self, m: Moment<N>) -> bool {
        self.flow(m) == Flow::Draining && 0 < self.balance_after(m) <= WARNING_SECS
    }

    /// Whether this is the ledger that a tick leaves behind.
    pub open spec fn becomes(self, m: Moment<N>, after: Self) -> bool {
        &&& after.balance_secs == self.balance_after(m)
        &&& after.earned_parts == self.parts_after(m)
        &&& after.pending_secs == self.pending_after(m)
        &&& after.docked == m.docked
        &&& after.present == m.present
        &&& after.last_tick == Some(m.utc as i64)
        &&& after.pickup_since == self.since(m)
        &&& after.was_exhausted == (self.balance_after(m) <= 0)
        &&& after.warned == (self.balance_after(m) <= WARNING_SECS && (self.warns(m)
            || self.warned))
        &&& after.was_night == m.night()
        &&& forall|i: int|
            0 <= i < N ==> #[trigger] after.out_at_night@[i] == (m.night() && in_use(
                m.docked@,
                m.present@,
                i,
            ))
    }

    /// What happened at a tick, in the order in which it is reported.
    pub open spec fn tick_events(self, m: Moment<N>) -> Seq<Event> {
        let left = self.balance_after(m);
        event_if(
            self.gap(m.utc) > MAX_TICK_GAP_SECS,
            Event::TimeJump { gap_secs: self.gap(m.utc) as i64 },
        ) + event_if(m.night() && !self.was_night, Event::NightBegan) + event_if(
            !m.night() && self.was_night,
            Event::NightEnded,
        ) + event_if(self.warns(m) && !self.warned, Event::Warning) + event_if(
            left <= 0 && !self.was_exhausted,
            Event::Exhausted,
        ) + event_if(left > 0 && self.was_exhausted, Event::Restored) + if m.night() {
            night_alerts(m.docked@, m.present@, self.out_at_night@, N as nat)
        } else {
            Seq::empty()
        }
    }

    /// What there is to show after a tick.
    pub open spec fn shows(self, m: Moment<N>, s: Snapshot<N>) -> bool {
        &&& s.balance_secs == self.balance_after(m)
        &&& s.cap_secs == m.policy.cap_secs
        &&& s.docked == m.docked
        &&& s.present == m.present
        &&& s.flow == self.flow(m)
        &&& s.night == m.night()
        &&& s.in_grace == (m.pickup() && self.grace(m) > 0)
        &&& s.grace_remaining_secs == self.grace(m)
        &&& forall|i: int|
            0 <= i < N ==> #[trigger] s.blocked@[i] == (in_use(m.docked@, m.present@, i) && (
            m.night() || self.balance_after(m) <= 0))
        &&& s.local == m.local()
    }

    /// The ledger after extra time was granted.
    pub open spec fn granted(self, secs: u32, policy: Policy) -> Self {
        Ledger {
            balance_secs: higher(
                self.balance_secs as int,
                lower(self.balance_secs + secs, policy.ceiling()),
            ) as i32,
            ..self
        }
    }

    /// A ledger that was never stored: the prefill of the policy, as far as its cap allows.
    pub fn new(policy: &Policy) -> (r: Self)
        ensures
            r.fresh(policy.first_balance()),
    {
        let start: u32 = if policy.prefill_secs <= policy.cap_secs {
            policy.prefill_secs
        } else {
            policy.cap_secs
        };
        if start > 0x7fff_ffff {
            Ledger::with_balance(i32::MAX)
        } else {
            Ledger::with_balance(start as i32)
        }
    }

    /// A ledger that takes up a stored balance.
    pub fn with_balance(balance_secs: i32) -> (r: Self)
        ensures
            r.fresh(balance_secs as int),
    {
        Ledger {
            balance_secs,
            earned_parts: 0,
            pending_secs: 0,
            docked: [true;N],
            present: [false;N],
            last_tick: None,
            pickup_since: None,
            was_exhausted: false,
            warned: false,
            was_night: false,
            out_at_night: [false;N],
        }
    }

    /// Whether some device is in use at home.
    pub fn any_used(&self) -> (r: bool)
        ensures
            r == any_in_use(self.docked@, self.present@),
    {
        let mut i: usize = 0;
        while i < N
            invariant
                i <= N,
                forall|j: int| 0 <= j < i ==> !#[trigger] in_use(self.docked@, self.present@, j),
            decreases N - i,
        {
            if !self.docked[i] && self.present[i] {
                assert(in_use(self.docked@, self.present@, i as int));
                return true;
            }
            i += 1;
        }
        false
    }

    /// Seconds of grace left in the current pickup, 0 if not in one.
    pub fn grace_remaining_secs(&self, utc: i64, policy: &Policy) -> (r: u32)
        ensures
            r == state::grace_left(self.pickup_since, utc as int, policy.grace_secs),
    {
        match self.pickup_since {
            None => 0,
            Some(started) => {
                if utc <= started {
                    policy.grace_secs
                } else {
                    let elapsed: i128 = utc as i128 - started as i128;
                    if elapsed >= policy.grace_secs as i128 {
                        0
                    } else {
                        policy.grace_secs - elapsed as u32
                    }
                }
            },
        }
    }

    /// Grant extra time, as far as the cap allows.
    pub fn grant_bonus(&mut self, secs: u32, policy: &Policy)
        ensures
            *final(self) == old(self).granted(secs, *policy),
    {
        self.balance_secs = raise(self.balance_secs, secs as u64, policy);
    }

    /// Credit `elapsed` seconds of not using.
    fn fill(&mut self, elapsed: u32, policy: &Policy)
        requires
            policy.refill_den > 0,
            elapsed <= 300,
        ensures
            ({
                let parts = old(self).earned_parts + elapsed * policy.refill_num;
                let den = policy.refill_den as int;
                *final(self) == (Ledger {
                    balance_secs: filled(
                        old(self).balance_secs as int,
                        parts,
                        den,
                        policy.ceiling(),
                    ) as i32,
                    earned_parts: (if old(self).balance_secs + parts / den >= policy.ceiling() {
                        0
                    } else {
                        parts % den
                    }) as u32,
                    ..*old(self)
                })
            }),
    {
        proof {
            assert(0 <= elapsed * policy.refill_num <= 300 * 0xffff_ffff) by (nonlinear_arith)
                requires
                    0 <= elapsed <= 300,
                    0 <= policy.refill_num <= 0xffff_ffff,
            ;
        }
        let parts: u64 = self.earned_parts as u64 + elapsed as u64 * policy.refill_num as u64;
        let earned: u64 = parts / policy.refill_den as u64;
        let before: i32 = self.balance_secs;
        self.balance_secs = raise(before, earned, policy);
        let full: bool = if earned > 0xffff_ffff {
            true
        } else {
            before as i64 + earned as i64 >= cap_of(policy) as i64
        };
        self.earned_parts = if full {
            0
        } else {
            (parts % policy.refill_den as u64) as u32
        };
    }

    /// Move the balance to `utc`; says which way it flows and how much grace is left.
    fn settle(
        &mut self,
        utc: i64,
        docked: [bool; N],
        present: [bool; N],
        night: bool,
        policy: &Policy,
    ) -> (r: (Flow, u32))
        requires
            policy.refill_den > 0,
            i64::MIN <= old(self).gap(utc as int) <= i64::MAX,
            night == policy.night_at(civil::local_of(utc as int)),
        ensures
            ({
                let m = Moment { utc: utc as int, docked, present, policy: *policy };
                &&& r.0 == old(self).flow(m)
                &&& r.1 == old(self).grace(m)
                &&& *final(self) == (Ledger {
                    balance_secs: old(self).balance_after(m) as i32,
                    earned_parts: old(self).parts_after(m) as u32,
                    pending_secs: old(self).pending_after(m),
                    docked,
                    present,
                    last_tick: Some(utc),
                    pickup_since: old(self).since(m),
                    ..*old(self)
                })
                &&& final(self).balance_secs == old(self).balance_after(m)
                &&& final(self).earned_parts == old(self).parts_after(m)
            }),
    {
        let ghost m = Moment { utc: utc as int, docked, present, policy: *policy };
        let ghost before = *self;
        self.docked = docked;
        self.present = present;
        let used: bool = self.any_used();
        let pickup: bool = used && !night;

        // Grace tracks an unbroken pickup. Putting everything back, or the night, ends it and
        // forgives whatever had accrued.
        if pickup {
            if self.pickup_since.is_none() {
                self.pickup_since = Some(utc);
            }
        } else {
            self.pickup_since = None;
            self.pending_secs = 0;
        }
        let grace: u32 = self.grace_remaining_secs(utc, policy);
        assert(grace == before.grace(m));
        let flow: Flow = if !used {
            Flow::Filling
        } else if night || grace > 0 {
            Flow::Held
        } else {
            Flow::Draining
        };
        let mut elapsed: u32 = 0;
        if let Some(last) = self.last_tick {
            let gap: i64 = utc - last;
            if 0 < gap && gap <= MAX_TICK_GAP_SECS {
                elapsed = gap as u32;
            }
        }
        assert(elapsed == before.elapsed(utc as int));
        self.last_tick = Some(utc);
        if elapsed > 0 {
            match flow {
                Flow::Filling => {
                    self.fill(elapsed, policy);
                },
                Flow::Held => {
                    if pickup {
                        self.pending_secs = self.pending_secs.saturating_add(elapsed);
                    }
                },
                Flow::Draining => {
                    self.balance_secs = lower_by(
                        self.balance_secs,
                        self.pending_secs as u64 + elapsed as u64,
                        policy,
                    );
                    self.pending_secs = 0;
                },
            }
        }
        (flow, grace)
    }

    /// Note what changed with the balance that has just been settled.
    fn note(&mut self, gap: i64, night: bool, flow: Flow) -> (r: Events)
        ensures
            ({
                let o = *old(self);
                let warns = flow == Flow::Draining && 0 < o.balance_secs <= WARNING_SECS;
                &&& *final(self) == (Ledger {
                    was_night: night,
                    warned: o.balance_secs <= WARNING_SECS && (warns || o.warned),
                    was_exhausted: o.balance_secs <= 0,
                    ..o
                })
                &&& balance_events_of(r) == event_if(
                    gap > MAX_TICK_GAP_SECS,
                    Event::TimeJump { gap_secs: gap },
                ) + event_if(night && !o.was_night, Event::NightBegan) + event_if(
                    !night && o.was_night,
                    Event::NightEnded,
                ) + event_if(warns && !o.warned, Event::Warning) + event_if(
                    o.balance_secs <= 0 && !o.was_exhausted,
                    Event::Exhausted,
                ) + event_if(o.balance_secs > 0 && o.was_exhausted, Event::Restored)
            }),
            balance_events_of(r).len() <= 4,
    {
        let mut events = no_events();
        if gap > MAX_TICK_GAP_SECS {
            let _ = push_event(&mut events, Event::TimeJump { gap_secs: gap });
        }
        if night && !self.was_night {
            let _ = push_event(&mut events, Event::NightBegan);
        }
        if !night && self.was_night {
            let _ = push_event(&mut events, Event::NightEnded);
        }
        self.was_night = night;

        let left: i32 = self.balance_secs;
        if left > WARNING_SECS {
            self.warned = false;
        } else if left > 0 && flow == Flow::Draining && !self.warned {
            self.warned = true;
            let _ = push_event(&mut events, Event::Warning);
        }
        if left <= 0 && !self.was_exhausted {
            let _ = push_event(&mut events, Event::Exhausted);
        }
        if left > 0 && self.was_exhausted {
            let _ = push_event(&mut events, Event::Restored);
        }
        self.was_exhausted = left <= 0;
        events
    }

    /// Advance to `utc`, with where each device is: at the reader, and on the home network.
    ///
    /// Call this at about 1 Hz. Time jumps of more than [`MAX_TICK_GAP_SECS`] are neither
    /// charged nor credited.
    pub fn tick(
        &mut self,
        utc: i64,
        docked: [bool; N],
        present: [bool; N],
        policy: &Policy,
    ) -> (r: (Snapshot<N>, Events))
        requires
            civil::on_calendar(utc as int),
            policy.refill_den > 0,
            i64::MIN <= old(self).gap(utc as int) <= i64::MAX,
        ensures
            ({
                let m = Moment { utc: utc as int, docked, present, policy: *policy };
                &&& old(self).becomes(m, *final(self))
                &&& old(self).shows(m, r.0)
                &&& balance_events_of(r.1) == as_many_as_fit(old(self).tick_events(m))
            }),
    {
        let local = civil::local(utc);
        let night: bool = policy.is_night(&local);
        let gap: i64 = match self.last_tick {
            None => 0,
            Some(last) => utc - last,
        };
        let (flow, grace) = self.settle(utc, docked, present, night, policy);
        let left: i32 = self.balance_secs;
        let was_out: [bool; N] = self.out_at_night;
        let mut events = self.note(gap, night, flow);
        let ghost first = balance_events_of(events);

        let mut blocked: [bool; N] = [false;N];
        let mut out: [bool; N] = [false;N];
        let mut i: usize = 0;
        while i < N
            invariant
                i <= N,
                first.len() <= MAX_EVENTS,
                balance_events_of(events) == as_many_as_fit(
                    first + if night {
                        night_alerts(docked@, present@, was_out@, i as nat)
                    } else {
                        Seq::empty()
                    },
                ),
                forall|j: int|
                    0 <= j < i ==> #[trigger] out@[j] == (night && in_use(docked@, present@, j)),
                forall|j: int|
                    0 <= j < i ==> #[trigger] blocked@[j] == (in_use(docked@, present@, j) && (night
                        || left <= 0)),
            decreases N - i,
        {
            let using: bool = !docked[i] && present[i];
            assert(using == in_use(docked@, present@, i as int));
            out[i] = night && using;
            blocked[i] = using && (night || left <= 0);
            if night && using && !was_out[i] {
                let _ = push_event(&mut events, Event::UndockedAtNight { device: i });
            }
            proof {
                if night {
                    let so_far = first + night_alerts(docked@, present@, was_out@, i as nat);
                    let next = first + night_alerts(docked@, present@, was_out@, (i + 1) as nat);
                    let e = Event::UndockedAtNight { device: i };
                    assert(night_alerts(docked@, present@, was_out@, (i + 1) as nat)
                        == night_alerts(docked@, present@, was_out@, i as nat) + event_if(
                        using && !was_out@[i as int],
                        e,
                    ));
                    if using && !was_out@[i as int] {
                        assert(next =~= so_far.push(e));
                        assert(so_far.len() >= MAX_EVENTS ==> as_many_as_fit(next)
                            =~= as_many_as_fit(so_far));
                    } else {
                        assert(next =~= so_far);
                    }
                }
            }
            i += 1;
        }
        self.out_at_night = out;
        assert(first + Seq::empty() =~= first);

        let snapshot = Snapshot {
            balance_secs: left,
            cap_secs: policy.cap_secs,
            docked,
            present,
            flow,
            night,
            in_grace: grace > 0,
            grace_remaining_secs: grace,
            blocked,
            local,
        };
        (snapshot, events)
    }
}

/// The highest balance that filling reaches.
fn cap_of(policy: &Policy) -> (r: i32)
    ensures
        r == policy.ceiling(),
{
    if policy.cap_secs > 0x7fff_ffff {
        i32::MAX
    } else {
        policy.cap_secs as i32
    }
}

/// `balance` raised by `secs`, up to the cap.
fn raise(balance: i32, secs: u64, policy: &Policy) -> (r: i32)
    ensures
        r == higher(balance as int, lower(balance + secs, policy.ceiling())),
{
    let cap: i32 = cap_of(policy);
    if balance >= cap {
        balance
    } else if secs >= (cap as i64 - balance as i64) as u64 {
        cap
    } else {
        (balance as i64 + secs as i64) as i32
    }
}

/// `balance` lowered by `secs`, down to the floor.
fn lower_by(balance: i32, secs: u64, policy: &Policy) -> (r: i32)
    ensures
        r == drained(balance as int, secs as int, policy.bottom()),
{
    let bottom: i32 = if policy.floor_secs > 0x7fff_ffff {
        i32::MIN
    } else {
        -(policy.floor_secs as i32)
    };
    if balance <= bottom {
        balance
    } else if secs >= (balance as i64 - bottom as i64) as u64 {
        bottom
    } else {
        (balance as i64 - secs as i64) as i32
    }
}

proof fn lemma_alerts_name_devices(docked: Seq<bool>, present: Seq<bool>, before: Seq<bool>, n: nat)
    requires
        n <= usize::MAX,
    ensures
        forall|i: int|
            0 <= i < night_alerts(docked, present, before, n).len() ==> (#[trigger] night_alerts(
                docked,
                present,
                before,
                n,
            )[i] matches Event::UndockedAtNight { device } ==> device < n),
    decreases n,
{
    if n > 0 {
        lemma_alerts_name_devices(docked, present, before, (n - 1) as nat);
    }
}

/// The devices that the events of a tick name exist.
pub proof fn events_name_devices<const N: usize>(l: Ledger<N>, m: Moment<N>, i: int)
    requires
        0 <= i < as_many_as_fit(l.tick_events(m)).len(),
    ensures
        as_many_as_fit(l.tick_events(m))[i] matches Event::UndockedAtNight { device } ==> device
            < N,
{
    lemma_alerts_name_devices(m.docked@, m.present@, l.out_at_night@, N as nat);
    let all = l.tick_events(m);
    assert(as_many_as_fit(all)[i] == all[i]);
    if m.night() {
        let alerts = night_alerts(m.docked@, m.present@, l.out_at_night@, N as nat);
        let first = all.len() - alerts.len();
        if i >= first {
            assert(all[i] == alerts[i - first]);
        }
    }
}

proof fn lemma_alerts_are_alerts(docked: Seq<bool>, present: Seq<bool>, before: Seq<bool>, n: nat)
    ensures
        forall|i: int|
            0 <= i < night_alerts(docked, present, before, n).len() ==> (#[trigger] night_alerts(
                docked,
                present,
                before,
                n,
            )[i]) is UndockedAtNight,
    decreases n,
{
    if n > 0 {
        lemma_alerts_are_alerts(docked, present, before, (n - 1) as nat);
    }
}

/// The warning comes only while the balance drains with little left.
pub proof fn a_warning_means_little_is_left<const N: usize>(l: Ledger<N>, m: Moment<N>)
    requires
        as_many_as_fit(l.tick_events(m)).contains(Event::Warning),
    ensures
        l.flow(m) == Flow::Draining,
        0 < l.balance_after(m) <= WARNING_SECS,
{
    lemma_alerts_are_alerts(m.docked@, m.present@, l.out_at_night@, N as nat);
    let all = l.tick_events(m);
    let i = as_many_as_fit(all).index_of(Event::Warning);
    assert(all[i] == Event::Warning);
    let alerts = night_alerts(m.docked@, m.present@, l.out_at_night@, N as nat);
    if m.night() && i >= all.len() - alerts.len() {
        assert(all[i] == alerts[i - (all.len() - alerts.len())]);
    }
}

/// A device at the reader is never blocked, and neither is one away from home.
pub proof fn only_devices_in_use_are_blocked<const N: usize>(
    l: Ledger<N>,
    m: Moment<N>,
    s: Snapshot<N>,
    i: int,
)
    requires
        l.shows(m, s),
        0 <= i < N,
        s.blocked@[i],
    ensures
        !m.docked@[i],
        m.present@[i],
        m.night() || s.balance_secs <= 0,
{
    assert(in_use(m.docked@, m.present@, i));
}

/// Being out of the house earns exactly what being docked earns.
pub proof fn being_out_earns_what_docking_earns<const N: usize>(
    l: Ledger<N>,
    docked: Moment<N>,
    away: Moment<N>,
)
    requires
        forall|i: int| 0 <= i < N ==> #[trigger] docked.docked@[i],
        forall|i: int| 0 <= i < N ==> !#[trigger] away.present@[i],
        docked.utc == away.utc,
        docked.policy == away.policy,
    ensures
        l.flow(docked) == Flow::Filling,
        l.flow(away) == Flow::Filling,
        l.balance_after(docked) == l.balance_after(away),
        l.parts_after(docked) == l.parts_after(away),
{
    if docked.used() {
        let i = choose|i: int|
            0 <= i < docked.docked@.len() && #[trigger] in_use(docked.docked@, docked.present@, i);
        assert(docked.docked@[i]);
    }
    if away.used() {
        let i = choose|i: int|
            0 <= i < away.docked@.len() && #[trigger] in_use(away.docked@, away.present@, i);
        assert(!away.present@[i]);
    }
}

/// The balance stays between the floor and the cap once it is there.
pub proof fn balance_stays_in_range<const N: usize>(l: Ledger<N>, m: Moment<N>)
    requires
        m.policy.bottom() <= l.balance_secs <= m.policy.ceiling(),
        m.policy.refill_den > 0,
    ensures
        m.policy.bottom() <= l.balance_after(m) <= m.policy.ceiling(),
{
    assert(0 <= l.elapsed(m.utc) * m.policy.refill_num) by (nonlinear_arith)
        requires
            0 <= l.elapsed(m.utc),
            0 <= m.policy.refill_num,
    ;
    assert(0 <= l.parts(m) / (m.policy.refill_den as int)) by (nonlinear_arith)
        requires
            0 <= l.parts(m),
            0 < m.policy.refill_den,
    ;
}

/// A time jump moves neither the balance nor what is held back, except that a pickup which
/// ended is forgiven.
pub proof fn a_time_jump_moves_nothing<const N: usize>(l: Ledger<N>, m: Moment<N>)
    requires
        l.gap(m.utc) > MAX_TICK_GAP_SECS || l.gap(m.utc) <= 0,
    ensures
        l.balance_after(m) == l.balance_secs,
        l.parts_after(m) == l.earned_parts,
        m.pickup() ==> l.pending_after(m) == l.pending_secs,
{
}

/// Any device out drains at the same rate, however many there are.
pub proof fn rate_does_not_depend_on_how_many_are_used<const N: usize>(
    l: Ledger<N>,
    m: Moment<N>,
    other: Moment<N>,
)
    requires
        m.used(),
        other.used(),
        m.utc == other.utc,
        m.policy == other.policy,
    ensures
        l.flow(m) == l.flow(other),
        l.balance_after(m) == l.balance_after(other),
        l.pending_after(m) == l.pending_after(other),
{
}

/// A pickup that outlasts its grace is billed from its first second: while it goes on, the
/// balance less what is held back falls by exactly the time that passes, until the floor.
pub proof fn a_pickup_is_billed_whole<const N: usize>(l: Ledger<N>, m: Moment<N>)
    requires
        m.pickup(),
        l.pending_secs + l.elapsed(m.utc) <= u32::MAX,
        l.balance_secs - l.pending_secs - l.elapsed(m.utc) >= m.policy.bottom(),
    ensures
        l.balance_after(m) - l.pending_after(m) == l.balance_secs - l.pending_secs - l.elapsed(
            m.utc,
        ),
        l.grace(m) > 0 ==> l.balance_after(m) == l.balance_secs,
        l.grace(m) == 0 && l.elapsed(m.utc) > 0 ==> l.pending_after(m) == 0,
{
}

/// Refilling is exact: below the ceiling, what is credited and what remains in parts together
/// grow by the elapsed time times the ratio, so no fraction is lost.
pub proof fn refill_is_exact<const N: usize>(l: Ledger<N>, m: Moment<N>)
    requires
        m.policy.refill_den > 0,
        l.flow(m) == Flow::Filling,
        l.balance_secs + l.parts(m) / (m.policy.refill_den as int) < m.policy.ceiling(),
    ensures
        l.balance_after(m) * m.policy.refill_den + l.parts_after(m) == l.balance_secs
            * m.policy.refill_den + l.earned_parts + l.elapsed(m.utc) * m.policy.refill_num,
{
    let den = m.policy.refill_den as int;
    let parts = l.parts(m);
    assert(0 <= l.elapsed(m.utc) * m.policy.refill_num) by (nonlinear_arith)
        requires
            0 <= l.elapsed(m.utc),
            0 <= m.policy.refill_num,
    ;
    vstd::arithmetic::div_mod::lemma_fundamental_div_mod(parts, den);
    assert(0 <= parts / den) by (nonlinear_arith)
        requires
            0 <= parts,
            0 < den,
    ;
    assert((l.balance_secs + parts / den) * den == l.balance_secs * den + den * (parts / den))
        by (nonlinear_arith);
}

/// At night nothing drains: the balance fills with everything put back and is held otherwise.
pub proof fn the_night_costs_nothing<const N: usize>(l: Ledger<N>, m: Moment<N>)
    requires
        m.night(),
    ensures
        l.flow(m) == if m.used() { Flow::Held } else { Flow::Filling },
        m.used() ==> l.balance_after(m) == l.balance_secs,
        l.pending_after(m) == 0,
{
}

/// A ledger fails closed: the balance does not fall while every device counts as put back, as it
/// does where the reader never came up, or while every device counts as away from home, as it does
/// where the router cannot be reached.
pub proof fn silence_does_not_drain<const N: usize>(l: Ledger<N>, m: Moment<N>)
    requires
        m.policy.refill_den > 0,
        (forall|i: int| 0 <= i < N ==> #[trigger] m.docked@[i]) || (forall|i: int|
            0 <= i < N ==> !#[trigger] m.present@[i]),
    ensures
        l.flow(m) == Flow::Filling,
        l.balance_after(m) >= l.balance_secs,
{
    if m.used() {
        let i = choose|i: int|
            0 <= i < m.docked@.len() && #[trigger] in_use(m.docked@, m.present@, i);
        assert(m.docked@[i] || !m.present@[i]);
    }
}

/// Whether a ledger that was ticked once a second from `start` on was ticked for the `i`-th time.
pub open spec fn ticked_at<const N: usize>(
    history: Seq<Ledger<N>>,
    start: int,
    docked: [bool; N],
    present: [bool; N],
    policy: Policy,
    i: int,
) -> bool {
    history[i - 1].becomes(Moment { utc: start + i, docked, present, policy }, history[i])
}

/// Whether a ledger was ticked once a second from `start` on, with the devices left where they
/// are.
pub open spec fn second_by_second<const N: usize>(
    history: Seq<Ledger<N>>,
    start: int,
    docked: [bool; N],
    present: [bool; N],
    policy: Policy,
) -> bool {
    &&& history.len() > 0
    &&& history[0].last_tick == Some(start as i64)
    &&& i64::MIN <= start
    &&& start + history.len() <= i64::MAX
    &&& forall|i: int|
        0 < i < history.len() ==> #[trigger] ticked_at(
            history,
            start,
            docked,
            present,
            policy,
            i,
        )
}

/// A pickup that outlasts its grace is charged whole, from its first second, and one that does
/// not is charged nothing: over any number of seconds of one pickup, the balance less what is
/// held back falls by exactly that many, and nothing is held back once the grace is over.
pub proof fn a_pickup_costs_its_length<const N: usize>(
    history: Seq<Ledger<N>>,
    start: int,
    docked: [bool; N],
    present: [bool; N],
    policy: Policy,
    n: int,
)
    requires
        second_by_second(history, start, docked, present, policy),
        0 < n < history.len(),
        history[0].pickup_since is None,
        history[0].pending_secs == 0,
        forall|t: int|
            start < t <= start + n ==> #[trigger] (Moment { utc: t, docked, present, policy }).pickup(),
        history[0].balance_secs - n >= policy.bottom(),
    ensures
        history[n].last_tick == Some((start + n) as i64),
        history[n].pickup_since == Some((start + 1) as i64),
        n - 1 < policy.grace_secs ==> history[n].balance_secs == history[0].balance_secs
            && history[n].pending_secs == n,
        n - 1 >= policy.grace_secs ==> history[n].balance_secs == history[0].balance_secs - n
            && history[n].pending_secs == 0,
    decreases n,
{
    let m = Moment { utc: start + n, docked, present, policy };
    assert(m.pickup());
    assert(ticked_at(history, start, docked, present, policy, n));
    if n > 1 {
        a_pickup_costs_its_length(history, start, docked, present, policy, n - 1);
    }
}

/// The refill is a ratio: over any number of seconds of not using, below the ceiling, each
/// `refill_den` seconds earn exactly `refill_num`, and no fraction is lost.
pub proof fn the_refill_is_a_ratio<const N: usize>(
    history: Seq<Ledger<N>>,
    start: int,
    docked: [bool; N],
    present: [bool; N],
    policy: Policy,
    n: int,
)
    requires
        second_by_second(history, start, docked, present, policy),
        0 <= n < history.len(),
        policy.refill_den > 0,
        !any_in_use(docked@, present@),
        forall|i: int| 0 <= i <= n ==> (#[trigger] history[i]).balance_secs < policy.ceiling(),
    ensures
        history[n].last_tick == Some((start + n) as i64),
        history[n].balance_secs * policy.refill_den + history[n].earned_parts
            == history[0].balance_secs * policy.refill_den + history[0].earned_parts + n
            * policy.refill_num,
    decreases n,
{
    if n > 0 {
        the_refill_is_a_ratio(history, start, docked, present, policy, n - 1);
        let l = history[n - 1];
        let m = Moment { utc: start + n, docked, present, policy };
        assert(ticked_at(history, start, docked, present, policy, n));
        assert(history[n].balance_secs < policy.ceiling());
        refill_is_exact(l, m);
        assert(n * policy.refill_num == (n - 1) * policy.refill_num + 1 * policy.refill_num)
            by (nonlinear_arith);
    } else {
        assert(n * policy.refill_num == 0) by (nonlinear_arith)
            requires
                n == 0,
        ;
    }
}

/// A device is cut off the internet exactly while it is taken away at home and it is night or
/// nothing is left, whatever the other devices do.
pub proof fn every_device_taken_is_blocked<const N: usize>(
    l: Ledger<N>,
    m: Moment<N>,
    s: Snapshot<N>,
    i: int,
)
    requires
        l.shows(m, s),
        0 <= i < N,
    ensures
        s.blocked@[i] <==> !m.docked@[i] && m.present@[i] && (m.policy.night_at(
            civil::local_of(m.utc),
        ) || s.balance_secs <= 0),
{
}

/// A tick is noted where it was seen: what is shown and what is kept are the devices, the rules and
/// the instant of that tick.
pub proof fn a_tick_is_noted<const N: usize>(
    l: Ledger<N>,
    m: Moment<N>,
    s: Snapshot<N>,
    after: Ledger<N>,
)
    requires
        l.shows(m, s),
        l.becomes(m, after),
        i64::MIN <= m.utc <= i64::MAX,
    ensures
        s.docked == m.docked,
        s.present == m.present,
        after.docked == m.docked,
        after.present == m.present,
        after.last_tick is Some,
        after.last_tick->0 == m.utc,
        s.cap_secs == m.policy.cap_secs,
        s.local == civil::local_of(m.utc),
        s.night == m.policy.night_at(civil::local_of(m.utc)),
        after.was_night == s.night,
        s.balance_secs == after.balance_secs,
        after.was_exhausted == (s.balance_secs <= 0),
{
}

/// The balance fills while no device is taken away at home. While one is, it is held at night and
/// until the pickup has lasted as long as the grace, and drains from then on. A pickup lasts from
/// the first tick that saw it, and neither the night nor everything put back is part of one.
#[verifier::rlimit(60)]
pub proof fn which_way_the_balance_flows<const N: usize>(
    l: Ledger<N>,
    m: Moment<N>,
    s: Snapshot<N>,
    after: Ledger<N>,
)
    requires
        l.shows(m, s),
        l.becomes(m, after),
        i64::MIN <= m.utc <= i64::MAX,
        l.pickup_since is Some ==> l.pickup_since->0 <= m.utc,
    ensures
        ({
            let used = exists|i: int| 0 <= i < N && !#[trigger] m.docked@[i] && m.present@[i];
            let night = m.policy.night_at(civil::local_of(m.utc));
            let lasted = match l.pickup_since {
                Some(t) => m.utc - t,
                None => 0,
            };
            &&& s.flow == if !used {
                Flow::Filling
            } else if night || lasted < m.policy.grace_secs {
                Flow::Held
            } else {
                Flow::Draining
            }
            &&& s.in_grace == (used && !night && lasted < m.policy.grace_secs)
            &&& s.grace_remaining_secs == if s.in_grace {
                m.policy.grace_secs - lasted
            } else {
                0
            }
            &&& after.pickup_since is Some <==> used && !night
            &&& after.pickup_since is Some ==> m.utc - after.pickup_since->0 == lasted
        }),
{
    if m.used() {
        let i = choose|i: int|
            0 <= i < m.docked@.len() && #[trigger] in_use(m.docked@, m.present@, i);
        assert(!m.docked@[i] && m.present@[i]);
    }
    assert forall|i: int| 0 <= i < N && !#[trigger] m.docked@[i] && m.present@[i] implies m.used() by {
        assert(in_use(m.docked@, m.present@, i));
    }
}

/// While it drains, the balance falls by the time since the last tick and by what was held back of
/// the pickup, down to the floor. While it is held nothing is charged, and what passes in the grace
/// is held back.
pub proof fn use_is_charged_by_the_second<const N: usize>(
    l: Ledger<N>,
    m: Moment<N>,
    s: Snapshot<N>,
    after: Ledger<N>,
    last: i64,
)
    requires
        l.shows(m, s),
        l.becomes(m, after),
        l.last_tick == Some(last),
        0 < m.utc - last <= 300,
        m.policy.floor_secs <= i32::MAX,
        -(m.policy.floor_secs as int) <= l.balance_secs,
        l.pending_secs + 300 <= u32::MAX,
    ensures
        s.flow == Flow::Draining ==> {
            let cost = l.pending_secs + (m.utc - last);
            &&& after.balance_secs == if l.balance_secs - cost >= -(m.policy.floor_secs as int) {
                l.balance_secs - cost
            } else {
                -(m.policy.floor_secs as int)
            }
            &&& after.pending_secs == 0
        },
        s.flow == Flow::Held ==> after.balance_secs == l.balance_secs,
        s.in_grace ==> after.pending_secs == l.pending_secs + (m.utc - last),
        s.flow == Flow::Filling || s.night ==> after.pending_secs == 0,
        s.flow != Flow::Filling ==> after.earned_parts == l.earned_parts,
{
}

/// While it fills, the balance rises by `refill_num` seconds for every `refill_den` that pass, no
/// fraction lost, up to the cap, where fractions are dropped.
#[verifier::rlimit(60)]
pub proof fn rest_is_credited_by_the_ratio<const N: usize>(
    l: Ledger<N>,
    m: Moment<N>,
    after: Ledger<N>,
    last: i64,
)
    requires
        l.becomes(m, after),
        l.last_tick == Some(last),
        0 < m.utc - last <= 300,
        forall|i: int| 0 <= i < N ==> #[trigger] m.docked@[i] || !m.present@[i],
        m.policy.refill_den > 0,
        m.policy.cap_secs <= i32::MAX,
        l.balance_secs <= m.policy.cap_secs,
    ensures
        ({
            let (den, cap) = (m.policy.refill_den as int, m.policy.cap_secs as int);
            let worth = l.balance_secs * den + l.earned_parts + (m.utc - last)
                * m.policy.refill_num;
            &&& worth < cap * den ==> after.balance_secs * den + after.earned_parts == worth
                && after.earned_parts < den
            &&& worth >= cap * den ==> after.balance_secs == cap && after.earned_parts == 0
        }),
{
    if m.used() {
        let i = choose|i: int|
            0 <= i < m.docked@.len() && #[trigger] in_use(m.docked@, m.present@, i);
        assert(m.docked@[i] || !m.present@[i]);
    }
    let (den, cap) = (m.policy.refill_den as int, m.policy.cap_secs as int);
    let parts = l.parts(m);
    assert(parts == l.earned_parts + (m.utc - last) * m.policy.refill_num);
    assert(0 <= (m.utc - last) * m.policy.refill_num) by (nonlinear_arith)
        requires
            0 <= m.utc - last,
            0 <= m.policy.refill_num,
    ;
    let (q, r) = (parts / den, parts % den);
    vstd::arithmetic::div_mod::lemma_fundamental_div_mod(parts, den);
    assert(0 <= q) by (nonlinear_arith)
        requires
            0 <= parts,
            parts == den * q + r,
            r < den,
            0 < den,
    ;
    assert(0 <= r < den);
    let b = l.balance_secs as int;
    assert((b + q) * den + r == b * den + parts) by (nonlinear_arith)
        requires
            parts == den * q + r,
    ;
    if b + q >= cap {
        assert(b * den + parts >= cap * den) by (nonlinear_arith)
            requires
                (b + q) * den + r == b * den + parts,
                b + q >= cap,
                r >= 0,
                den > 0,
        ;
    } else {
        assert(b * den + parts < cap * den) by (nonlinear_arith)
            requires
                (b + q) * den + r == b * den + parts,
                b + q + 1 <= cap,
                r < den,
                den > 0,
        ;
    }
}

/// A gap of no time, backwards in time or of more than five minutes is neither charged nor
/// credited; nor is the first tick of all.
pub proof fn a_gap_is_neither_charged_nor_credited<const N: usize>(
    l: Ledger<N>,
    m: Moment<N>,
    after: Ledger<N>,
)
    requires
        l.becomes(m, after),
        l.last_tick is None || m.utc <= l.last_tick->0 || m.utc - l.last_tick->0 > 300,
    ensures
        after.balance_secs == l.balance_secs,
        after.earned_parts == l.earned_parts,
{
}

proof fn lemma_either_holds(a: Seq<Event>, b: Seq<Event>, e: Event)
    ensures
        (a + b).contains(e) <==> a.contains(e) || b.contains(e),
{
    if a.contains(e) {
        let i = choose|i: int| 0 <= i < a.len() && a[i] == e;
        assert((a + b)[i] == e);
    }
    if b.contains(e) {
        let i = choose|i: int| 0 <= i < b.len() && b[i] == e;
        assert((a + b)[a.len() + i] == e);
    }
    if (a + b).contains(e) {
        let i = choose|i: int| 0 <= i < (a + b).len() && (a + b)[i] == e;
        if i < a.len() {
            assert(a[i] == e);
        } else {
            assert(b[i - a.len()] == e);
        }
    }
}

proof fn lemma_one_event(condition: bool, x: Event, e: Event)
    ensures
        event_if(condition, x).contains(e) <==> condition && x == e,
{
    if condition {
        assert(event_if(condition, x)[0] == x);
    }
}

proof fn lemma_who_is_named(
    docked: Seq<bool>,
    present: Seq<bool>,
    before: Seq<bool>,
    n: nat,
    e: Event,
)
    requires
        n <= usize::MAX,
    ensures
        night_alerts(docked, present, before, n).len() <= n,
        night_alerts(docked, present, before, n).contains(e) <==> (e is UndockedAtNight && e->device
            < n && in_use(docked, present, e->device as int) && !before[e->device as int]),
    decreases n,
{
    if n > 0 {
        let i = n - 1;
        lemma_who_is_named(docked, present, before, i as nat, e);
        let here = Event::UndockedAtNight { device: i as usize };
        let new = in_use(docked, present, i) && !before[i];
        lemma_either_holds(
            night_alerts(docked, present, before, i as nat),
            event_if(new, here),
            e,
        );
        lemma_one_event(new, here, e);
    }
}

#[verifier::rlimit(60)]
proof fn lemma_what_is_reported<const N: usize>(l: Ledger<N>, m: Moment<N>, x: Event)
    ensures
        l.tick_events(m).len() <= 4 + N,
        l.tick_events(m).contains(x) <==> {
            let left = l.balance_after(m);
            ||| l.gap(m.utc) > MAX_TICK_GAP_SECS && x == (Event::TimeJump {
                gap_secs: l.gap(m.utc) as i64,
            })
            ||| m.night() && !l.was_night && x == Event::NightBegan
            ||| !m.night() && l.was_night && x == Event::NightEnded
            ||| l.warns(m) && !l.warned && x == Event::Warning
            ||| left <= 0 && !l.was_exhausted && x == Event::Exhausted
            ||| left > 0 && l.was_exhausted && x == Event::Restored
            ||| m.night() && x is UndockedAtNight && x->device < N && in_use(
                m.docked@,
                m.present@,
                x->device as int,
            ) && !l.out_at_night@[x->device as int]
        },
{
    let left = l.balance_after(m);
    let jump = Event::TimeJump { gap_secs: l.gap(m.utc) as i64 };
    let c1 = l.gap(m.utc) > MAX_TICK_GAP_SECS;
    let c2 = m.night() && !l.was_night;
    let c3 = !m.night() && l.was_night;
    let c4 = l.warns(m) && !l.warned;
    let c5 = left <= 0 && !l.was_exhausted;
    let c6 = left > 0 && l.was_exhausted;
    let e1 = event_if(c1, jump);
    let e2 = e1 + event_if(c2, Event::NightBegan);
    let e3 = e2 + event_if(c3, Event::NightEnded);
    let e4 = e3 + event_if(c4, Event::Warning);
    let e5 = e4 + event_if(c5, Event::Exhausted);
    let e6 = e5 + event_if(c6, Event::Restored);
    let alerts = if m.night() {
        night_alerts(m.docked@, m.present@, l.out_at_night@, N as nat)
    } else {
        Seq::empty()
    };
    lemma_who_is_named(m.docked@, m.present@, l.out_at_night@, N as nat, x);
    lemma_one_event(c1, jump, x);
    lemma_one_event(c2, Event::NightBegan, x);
    lemma_one_event(c3, Event::NightEnded, x);
    lemma_one_event(c4, Event::Warning, x);
    lemma_one_event(c5, Event::Exhausted, x);
    lemma_one_event(c6, Event::Restored, x);
    lemma_either_holds(e1, event_if(c2, Event::NightBegan), x);
    lemma_either_holds(e2, event_if(c3, Event::NightEnded), x);
    lemma_either_holds(e3, event_if(c4, Event::Warning), x);
    lemma_either_holds(e4, event_if(c5, Event::Exhausted), x);
    lemma_either_holds(e5, event_if(c6, Event::Restored), x);
    lemma_either_holds(e6, alerts, x);
}

/// What a tick reports, for up to four devices: a jump in time with its length, the night when it
/// begins and ends, the end of the balance and its return, each at the tick that sees the change; a
/// warning when it drains to five minutes or less, once until more was left in between; and every
/// device found taken away at home in the night that was not found so by the tick before.
#[verifier::rlimit(60)]
pub proof fn what_happened_is_reported<const N: usize>(
    l: Ledger<N>,
    m: Moment<N>,
    s: Snapshot<N>,
    after: Ledger<N>,
    jump: i64,
    device: usize,
)
    requires
        N <= 4,
        device < N,
        l.shows(m, s),
        l.becomes(m, after),
        l.last_tick is Some ==> i64::MIN <= m.utc - l.last_tick->0 <= i64::MAX,
    ensures
        ({
            let events = as_many_as_fit(l.tick_events(m));
            let taken = s.night && !m.docked@[device as int] && m.present@[device as int];
            &&& events.contains(Event::TimeJump { gap_secs: jump }) <==> l.last_tick is Some
                && m.utc - l.last_tick->0 > 300 && jump == m.utc - l.last_tick->0
            &&& events.contains(Event::NightBegan) <==> s.night && !l.was_night
            &&& events.contains(Event::NightEnded) <==> !s.night && l.was_night
            &&& events.contains(Event::Exhausted) <==> s.balance_secs <= 0 && !l.was_exhausted
            &&& events.contains(Event::Restored) <==> s.balance_secs > 0 && l.was_exhausted
            &&& events.contains(Event::Warning) <==> s.flow == Flow::Draining && 0
                < s.balance_secs <= 300 && !l.warned
            &&& events.contains(Event::UndockedAtNight { device }) <==> taken
                && !l.out_at_night@[device as int]
            &&& after.out_at_night@[device as int] == taken
            &&& events.contains(Event::Warning) ==> after.warned
            &&& s.balance_secs > 300 ==> !after.warned
            &&& s.balance_secs <= 300 && l.warned ==> after.warned
            &&& after.warned ==> l.warned || events.contains(Event::Warning)
        }),
{
    lemma_what_is_reported(l, m, Event::TimeJump { gap_secs: jump });
    lemma_what_is_reported(l, m, Event::NightBegan);
    lemma_what_is_reported(l, m, Event::NightEnded);
    lemma_what_is_reported(l, m, Event::Exhausted);
    lemma_what_is_reported(l, m, Event::Restored);
    lemma_what_is_reported(l, m, Event::Warning);
    lemma_what_is_reported(l, m, Event::UndockedAtNight { device });
}

/// A grant is worth what it says, as far as the cap allows, and takes nothing from a balance above
/// the cap. Nothing else changes.
pub proof fn a_grant_is_worth_what_it_says<const N: usize>(l: Ledger<N>, secs: u32, policy: Policy)
    requires
        policy.cap_secs <= i32::MAX,
    ensures
        l.balance_secs + secs <= policy.cap_secs ==> l.granted(secs, policy).balance_secs
            == l.balance_secs + secs,
        l.balance_secs <= policy.cap_secs < l.balance_secs + secs ==> l.granted(
            secs,
            policy,
        ).balance_secs == policy.cap_secs,
        l.balance_secs > policy.cap_secs ==> l.granted(secs, policy).balance_secs
            == l.balance_secs,
        l.granted(secs, policy) == (Ledger {
            balance_secs: l.granted(secs, policy).balance_secs,
            ..l
        }),
{
}

/// A ledger begins with the prefill, or with the cap where that is lower; every device counts as
/// put back and away from home.
pub proof fn a_ledger_begins_with_the_prefill<const N: usize>(l: Ledger<N>, policy: Policy, i: int)
    requires
        l.fresh(policy.first_balance()),
        policy.cap_secs <= i32::MAX,
        0 <= i < N,
    ensures
        policy.prefill_secs <= policy.cap_secs ==> l.balance_secs == policy.prefill_secs,
        policy.prefill_secs > policy.cap_secs ==> l.balance_secs == policy.cap_secs,
        l.docked@[i],
        !l.present@[i],
        l.earned_parts == 0,
        l.pending_secs == 0,
        l.last_tick is None,
        l.pickup_since is None,
        !l.was_exhausted,
        !l.warned,
        !l.was_night,
        !l.out_at_night@[i],
{
}

/// The standard rules: a minute earned for ten, up to three hours; half an hour of debt and half an
/// hour to start with; three minutes of grace; and on every day of the week, night from 21:00 to
/// 06:30.
pub proof fn the_standard_rules(p: Policy, now: LocalDateTime)
    requires
        p.standard(),
        now.weekday < 7,
    ensures
        10 * p.refill_num == p.refill_den,
        p.refill_num > 0,
        p.cap_secs == 3 * 60 * 60,
        p.floor_secs == 30 * 60,
        p.prefill_secs == 30 * 60,
        p.grace_secs == 3 * 60,
        p.night_at(now) <==> now.hour * 60 + now.minute >= 21 * 60 || now.hour * 60 + now.minute < 6
            * 60 + 30,
{
    let windows = policy::windows_of(p.night);
    policy::a_list_covers_what_its_windows_cover(windows, now);
    assert(windows.drop_last() =~= Seq::<Window>::empty());
    policy::a_list_covers_what_its_windows_cover(windows.drop_last(), now);
    policy::the_masks_name_their_days(1_260, 390, now.weekday);
    policy::the_masks_name_their_days(1_260, 390, ((now.weekday + 6) % 7) as u8);
}

/// The place of an event among those of one tick.
pub open spec fn rank(e: Event) -> int {
    match e {
        Event::TimeJump { .. } => 0,
        Event::NightBegan => 1,
        Event::NightEnded => 2,
        Event::Warning => 3,
        Event::Exhausted => 4,
        Event::Restored => 5,
        Event::UndockedAtNight { device } => 6 + device,
    }
}

/// Whether events stand in their order, all of them before `bound`.
pub open spec fn in_order(events: Seq<Event>, bound: int) -> bool {
    &&& forall|i: int, j: int| 0 <= i < j < events.len() ==> rank(events[i]) < rank(events[j])
    &&& forall|i: int| 0 <= i < events.len() ==> rank(#[trigger] events[i]) < bound
}

proof fn lemma_one_more(events: Seq<Event>, condition: bool, e: Event)
    requires
        in_order(events, rank(e)),
    ensures
        in_order(events + event_if(condition, e), rank(e) + 1),
{
    let all = events + event_if(condition, e);
    assert forall|i: int| 0 <= i < all.len() implies rank(#[trigger] all[i]) < rank(e) + 1 by {
        if i < events.len() {
            assert(all[i] == events[i]);
        }
    }
    assert forall|i: int, j: int| 0 <= i < j < all.len() implies rank(all[i]) < rank(all[j]) by {
        assert(all[i] == events[i]);
        if j < events.len() {
            assert(all[j] == events[j]);
        }
    }
}

proof fn lemma_alerts_in_order(
    first: Seq<Event>,
    docked: Seq<bool>,
    present: Seq<bool>,
    before: Seq<bool>,
    n: nat,
)
    requires
        in_order(first, 6),
        n <= usize::MAX,
    ensures
        in_order(first + night_alerts(docked, present, before, n), 6 + n as int),
    decreases n,
{
    let alerts = night_alerts(docked, present, before, n);
    if n == 0 {
        assert(first + alerts =~= first);
    } else {
        let i = n - 1;
        lemma_alerts_in_order(first, docked, present, before, i as nat);
        let e = Event::UndockedAtNight { device: i as usize };
        let new = in_use(docked, present, i) && !before[i];
        let rest = night_alerts(docked, present, before, i as nat);
        lemma_one_more(first + rest, new, e);
        assert(first + alerts =~= first + rest + event_if(new, e));
    }
}

/// What a tick reports comes in a fixed order, nothing twice: a jump in time, the night, the warning,
/// the end of the balance or its return, and the devices taken in the night one after the other.
pub proof fn events_come_in_order<const N: usize>(l: Ledger<N>, m: Moment<N>)
    ensures
        in_order(l.tick_events(m), 6 + N),
{
    let left = l.balance_after(m);
    let jump = Event::TimeJump { gap_secs: l.gap(m.utc) as i64 };
    let c1 = l.gap(m.utc) > MAX_TICK_GAP_SECS;
    let c2 = m.night() && !l.was_night;
    let c3 = !m.night() && l.was_night;
    let c4 = l.warns(m) && !l.warned;
    let c5 = left <= 0 && !l.was_exhausted;
    let c6 = left > 0 && l.was_exhausted;
    let none = Seq::<Event>::empty();
    let e1 = event_if(c1, jump);
    let e2 = e1 + event_if(c2, Event::NightBegan);
    let e3 = e2 + event_if(c3, Event::NightEnded);
    let e4 = e3 + event_if(c4, Event::Warning);
    let e5 = e4 + event_if(c5, Event::Exhausted);
    let e6 = e5 + event_if(c6, Event::Restored);
    assert(none + e1 =~= e1);
    lemma_one_more(none, c1, jump);
    lemma_one_more(e1, c2, Event::NightBegan);
    lemma_one_more(e2, c3, Event::NightEnded);
    lemma_one_more(e3, c4, Event::Warning);
    lemma_one_more(e4, c5, Event::Exhausted);
    lemma_one_more(e5, c6, Event::Restored);
    if m.night() {
        lemma_alerts_in_order(e6, m.docked@, m.present@, l.out_at_night@, N as nat);
    } else {
        assert(e6 + none =~= e6);
    }
}

} // verus!
