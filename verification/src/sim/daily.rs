//! The desk session of the daily budget.
use crate::civil;
use crate::civil::{EARLIEST, LATEST};
use crate::policy;
use crate::policy::{AwayWindow, Policy};
use crate::sim;
use crate::state;
use crate::state::{Event, Ledger, Snapshot};
use crate::text;
use vstd::prelude::*;

verus! {

/// What can be pressed.
#[derive(Debug, Clone, Copy, PartialEq, Eq, Structural)]
pub enum Key {
    /// Dock or undock a device.
    Device1,
    Device2,
    /// Pause the simulated clock.
    Pause,
    /// Grant 10 bonus minutes.
    Bonus,
    /// Jump to 04:00 tomorrow, the day reset.
    NextDay,
    /// Jump to Monday 09:00, inside the away window.
    AwayWindow,
    /// Save a screenshot.
    Shot,
    Quit,
}

/// What a key asks for.
pub struct Pressed {
    /// What to print.
    pub line: Option<String>,
    /// Where the clock is to jump.
    pub jump: Option<i64>,
    /// Where to save a screenshot.
    pub shot: Option<String>,
    pub quit: bool,
}

/// What is printed of an event.
pub open spec fn event_line(e: Event) -> Seq<char> {
    match e {
        Event::DayReset => "  [event] day reset — budget restored"@,
        Event::Exhausted => "  [event] EXHAUSTED — block both devices"@,
        Event::Restored => "  [event] restored — unblock both devices"@,
        Event::Warning => "  [event] 5 minutes left — chime"@,
        Event::TimeJump { gap_secs } => "  [event] time jump of "@ + text::signed(gap_secs as int)
            + "s ignored"@,
    }
}

/// What is printed of some events.
pub open spec fn event_lines(events: Seq<Event>) -> Seq<Seq<char>> {
    events.map_values(|e: Event| event_line(e))
}

fn describe(e: &Event) -> (r: String)
    ensures
        r@ == event_line(*e),
{
    match e {
        Event::DayReset => "  [event] day reset — budget restored".to_owned(),
        Event::Exhausted => "  [event] EXHAUSTED — block both devices".to_owned(),
        Event::Restored => "  [event] restored — unblock both devices".to_owned(),
        Event::Warning => "  [event] 5 minutes left — chime".to_owned(),
        Event::TimeJump { gap_secs } => {
            let mut line: String = "  [event] time jump of ".to_owned();
            text::push_signed(&mut line, *gap_secs);
            line.append("s ignored");
            line
        },
    }
}

/// One line for each event.
pub fn report(events: &[Event]) -> (r: Vec<String>)
    ensures
        text::texts(r@) == event_lines(events@),
{
    let mut lines: Vec<String> = Vec::new();
    let mut i: usize = 0;
    assert(text::texts(lines@) =~= event_lines(events@.take(0)));
    while i < events.len()
        invariant
            i <= events@.len(),
            text::texts(lines@) == event_lines(events@.take(i as int)),
        decreases events@.len() - i,
    {
        text::push_line(&mut lines, describe(&events[i]));
        assert(text::texts(lines@) =~= event_lines(events@.take(i + 1)));
        i += 1;
    }
    assert(events@.take(i as int) =~= events@);
    lines
}

/// The ledger once the clock has gone from `now` to `target` in slices.
pub open spec fn run_to(
    l: Ledger<2>,
    now: int,
    target: int,
    docked: [bool; 2],
    p: Policy,
) -> Ledger<2>
    decreases target - now,
{
    if now >= target {
        l
    } else {
        let t = sim::next_slice(now, target);
        run_to(l.ticked(t, docked, p), t, target, docked, p)
    }
}

/// What happens on the way from `now` to `target`.
pub open spec fn events_to(
    l: Ledger<2>,
    now: int,
    target: int,
    docked: [bool; 2],
    p: Policy,
) -> Seq<Event>
    decreases target - now,
{
    if now >= target {
        Seq::empty()
    } else {
        let t = sim::next_slice(now, target);
        l.tick_events(t, docked, p) + events_to(l.ticked(t, docked, p), t, target, docked, p)
    }
}

/// What there is to show at `target`: `s` where no slice lies before it.
pub open spec fn shown_at(
    l: Ledger<2>,
    now: int,
    target: int,
    docked: [bool; 2],
    p: Policy,
    s: Snapshot<2>,
) -> Snapshot<2>
    decreases target - now,
{
    if now >= target {
        s
    } else {
        let t = sim::next_slice(now, target);
        shown_at(
            l.ticked(t, docked, p),
            t,
            target,
            docked,
            p,
            l.tick_snapshot(t, docked, p),
        )
    }
}

/// The path of a screenshot.
pub open spec fn shot_path(index: nat) -> Seq<char> {
    "medienzeit-"@ + text::two_digits(index) + ".png"@
}

/// The path of a screenshot.
pub fn shot_name(index: usize) -> (r: String)
    ensures
        r@ == shot_path(index as nat),
{
    let mut path: String = "medienzeit-".to_owned();
    text::push_two_digits(&mut path, index as u64);
    path.append(".png");
    path
}

/// A session: the ledger, the simulated clock, and where the devices are.
pub struct Session {
    pub ledger: Ledger<2>,
    pub policy: Policy,
    pub now: i64,
    pub paused: bool,
    pub docked: [bool; 2],
    pub shots: usize,
    pub snapshot: Snapshot<2>,
}

impl Session {
    /// The ledger stands where the clock stands, and the clock on the calendar.
    pub open spec fn wf(self) -> bool {
        &&& self.ledger.last_tick == Some(self.now)
        &&& EARLIEST <= self.now <= LATEST
    }

    /// Monday 16:00: just after school, full weekday budget, nothing spent, both devices on
    /// their cradles.
    pub fn start() -> (r: Self)
        ensures
            r.wf(),
            r.now == sim::berlin_of(2026, 8, 3, 16, 0),
            !r.paused,
            r.docked@ == seq![true, true],
            r.shots == 0,
            exists|fresh: Ledger<2>| #[trigger]
                fresh.fresh() && r.ledger == fresh.ticked(r.now as int, r.docked, r.policy)
                    && r.snapshot == fresh.tick_snapshot(r.now as int, r.docked, r.policy),
            r.policy.weekday_secs == 3_600,
            r.policy.weekend_secs == 7_200,
            r.policy.reset_hour == 4,
            r.policy.grace_secs == 180,
            policy::windows_of(r.policy.away) == seq![
                AwayWindow { weekday_mask: 31, start_minute: 450, end_minute: 900 },
            ],
    {
        let policy = Policy::default();
        proof {
            civil::on_calendar_within(sim::wall(2026, 8, 3, 16, 0) - 3_600);
            reveal(sim::berlin_of);
            civil::on_calendar_within(sim::berlin_of(2026, 8, 3, 16, 0));
        }
        let now: i64 = sim::berlin(2026, 8, 3, 16, 0);
        let docked: [bool; 2] = [true, true];
        let mut ledger = Ledger::<2>::new();
        let ghost fresh = ledger;
        let (snapshot, _) = ledger.tick(now, docked, &policy);
        assert(fresh.fresh());
        assert(docked@ =~= seq![true, true]);
        Session { ledger, policy, now, paused: false, docked, shots: 0, snapshot }
    }

    /// The session with one device moved.
    pub open spec fn moved(self, i: int) -> Seq<bool> {
        self.docked@.update(i, !self.docked@[i])
    }

    /// React to a key.
    pub fn press(&mut self, key: Key) -> (r: Pressed)
        requires
            old(self).wf(),
            old(self).shots < usize::MAX,
        ensures
            final(self).wf(),
            r.quit == (key == Key::Quit),
            r.jump == match key {
                Key::NextDay => Some((sim::today_at(old(self).now as int, 4, 0) + 86_400) as i64),
                Key::AwayWindow => Some(sim::berlin_of(2026, 8, 3, 9, 0) as i64),
                _ => None,
            },
            r.jump is Some ==> old(self).now - 100_000 <= r.jump->0 <= old(self).now + 200_000 || 0
                <= r.jump->0 <= 2_000_000_000,
            r.shot is Some <==> key == Key::Shot,
            r.shot is Some ==> r.shot->0@ == shot_path(old(self).shots as nat),
            match key {
                Key::Device1 => final(self).docked@ == old(self).moved(0) && r.line is Some
                    && r.line->0@ == "device 1 "@ + if old(self).docked@[0] {
                    "UNDOCKED"@
                } else {
                    "docked"@
                },
                Key::Device2 => final(self).docked@ == old(self).moved(1) && r.line is Some
                    && r.line->0@ == "device 2 "@ + if old(self).docked@[1] {
                    "UNDOCKED"@
                } else {
                    "docked"@
                },
                Key::Pause => r.line is Some && r.line->0@ == "clock "@ + if old(self).paused {
                    "running"@
                } else {
                    "paused"@
                },
                Key::Bonus => r.line is Some && r.line->0@ == "granted 10 bonus minutes"@,
                Key::Shot => r.line is Some && r.line->0@ == "saved "@ + shot_path(
                    old(self).shots as nat,
                ),
                _ => r.line is None,
            },
            *final(self) == (Session {
                docked: final(self).docked,
                paused: old(self).paused != (key == Key::Pause),
                shots: if key == Key::Shot {
                    (old(self).shots + 1) as usize
                } else {
                    old(self).shots
                },
                ledger: if key == Key::Bonus {
                    Ledger {
                        bonus_secs: state::at_most_u32(old(self).ledger.bonus_secs + 600),
                        ..old(self).ledger
                    }
                } else {
                    old(self).ledger
                },
                ..*old(self)
            }),
            key != Key::Device1 && key != Key::Device2 ==> final(self).docked == old(self).docked,
    {
        let mut line: Option<String> = None;
        let mut jump: Option<i64> = None;
        let mut shot: Option<String> = None;
        let mut quit: bool = false;
        match key {
            Key::Device1 => {
                let put_back: bool = !self.docked[0];
                self.docked[0] = put_back;
                let mut text: String = "device 1 ".to_owned();
                text.append(
                    if put_back {
                        "docked"
                    } else {
                        "UNDOCKED"
                    },
                );
                line = Some(text);
            },
            Key::Device2 => {
                let put_back: bool = !self.docked[1];
                self.docked[1] = put_back;
                let mut text: String = "device 2 ".to_owned();
                text.append(
                    if put_back {
                        "docked"
                    } else {
                        "UNDOCKED"
                    },
                );
                line = Some(text);
            },
            Key::Pause => {
                self.paused = !self.paused;
                let mut text: String = "clock ".to_owned();
                text.append(
                    if self.paused {
                        "paused"
                    } else {
                        "running"
                    },
                );
                line = Some(text);
            },
            Key::Bonus => {
                self.ledger.grant_bonus(10 * 60);
                line = Some("granted 10 bonus minutes".to_owned());
            },
            Key::NextDay => {
                jump = Some(sim::today(self.now, 4, 0) + 86_400);
            },
            Key::AwayWindow => {
                proof {
                    civil::on_calendar_within(sim::wall(2026, 8, 3, 9, 0) - 3_600);
                    reveal(sim::berlin_of);
                }
                jump = Some(sim::berlin(2026, 8, 3, 9, 0));
            },
            Key::Shot => {
                let path: String = shot_name(self.shots);
                let mut text: String = "saved ".to_owned();
                text.append(path.as_str());
                line = Some(text);
                shot = Some(path);
                self.shots = self.shots + 1;
            },
            Key::Quit => {
                quit = true;
            },
        }
        Pressed { line, jump, shot, quit }
    }

    /// Tick once.
    fn tick_at(&mut self, t: i64) -> (r: Vec<String>)
        requires
            old(self).wf(),
            EARLIEST <= t <= LATEST,
        ensures
            final(self).wf(),
            *final(self) == (Session {
                now: t,
                ledger: old(self).ledger.ticked(t as int, old(self).docked, old(self).policy),
                snapshot: old(self).ledger.tick_snapshot(
                    t as int,
                    old(self).docked,
                    old(self).policy,
                ),
                ..*old(self)
            }),
            text::texts(r@) == event_lines(
                old(self).ledger.tick_events(t as int, old(self).docked, old(self).policy),
            ),
    {
        proof {
            civil::on_calendar_within(t as int);
        }
        self.now = t;
        let (snapshot, events) = self.ledger.tick(t, self.docked, &self.policy);
        self.snapshot = snapshot;
        report(state::event_slice(&events))
    }

    /// One frame: a jump where one was asked for, and otherwise `elapsed` simulated seconds in
    /// slices. A paused clock is ticked where it stands. Says what to print.
    pub fn advance(&mut self, jump: Option<i64>, elapsed: i64) -> (r: Vec<String>)
        requires
            old(self).wf(),
            match jump {
                Some(t) => EARLIEST <= t <= LATEST,
                None => elapsed >= 0 && old(self).now + elapsed <= LATEST,
            },
        ensures
            final(self).wf(),
            ({
                let o = *old(self);
                let once = if jump is Some {
                    jump->0 as int
                } else {
                    o.now as int
                };
                if jump is Some || o.paused {
                    &&& *final(self) == (Session {
                        now: once as i64,
                        ledger: o.ledger.ticked(once, o.docked, o.policy),
                        snapshot: o.ledger.tick_snapshot(once, o.docked, o.policy),
                        ..o
                    })
                    &&& text::texts(r@) == event_lines(
                        o.ledger.tick_events(once, o.docked, o.policy),
                    )
                } else {
                    let target = o.now + elapsed;
                    &&& *final(self) == (Session {
                        now: target as i64,
                        ledger: run_to(o.ledger, o.now as int, target, o.docked, o.policy),
                        snapshot: shown_at(
                            o.ledger,
                            o.now as int,
                            target,
                            o.docked,
                            o.policy,
                            o.snapshot,
                        ),
                        ..o
                    })
                    &&& text::texts(r@) == event_lines(
                        events_to(o.ledger, o.now as int, target, o.docked, o.policy),
                    )
                }
            }),
    {
        if let Some(t) = jump {
            return self.tick_at(t);
        }
        if self.paused {
            return self.tick_at(self.now);
        }
        let ghost o = *self;
        let target: i64 = self.now + elapsed;
        let mut lines: Vec<String> = Vec::new();
        let ghost mut told: Seq<Event> = Seq::empty();
        assert(text::texts(lines@) =~= event_lines(told));
        assert(told + events_to(o.ledger, o.now as int, target as int, o.docked, o.policy)
            =~= events_to(o.ledger, o.now as int, target as int, o.docked, o.policy));
        while self.now < target
            invariant
                self.wf(),
                self.now <= target <= LATEST,
                *self == (Session {
                    now: self.now,
                    ledger: self.ledger,
                    snapshot: self.snapshot,
                    ..o
                }),
                run_to(self.ledger, self.now as int, target as int, o.docked, o.policy) == run_to(
                    o.ledger,
                    o.now as int,
                    target as int,
                    o.docked,
                    o.policy,
                ),
                shown_at(
                    self.ledger,
                    self.now as int,
                    target as int,
                    o.docked,
                    o.policy,
                    self.snapshot,
                ) == shown_at(
                    o.ledger,
                    o.now as int,
                    target as int,
                    o.docked,
                    o.policy,
                    o.snapshot,
                ),
                told + events_to(
                    self.ledger,
                    self.now as int,
                    target as int,
                    o.docked,
                    o.policy,
                ) == events_to(o.ledger, o.now as int, target as int, o.docked, o.policy),
                text::texts(lines@) == event_lines(told),
            decreases target - self.now,
        {
            let ghost before = *self;
            let t: i64 = sim::slice_end(self.now, target);
            let mut more: Vec<String> = self.tick_at(t);
            let ghost was = lines@;
            let ghost new = more@;
            lines.append(&mut more);
            proof {
                let events = before.ledger.tick_events(t as int, o.docked, o.policy);
                let rest = events_to(
                    self.ledger,
                    self.now as int,
                    target as int,
                    o.docked,
                    o.policy,
                );
                assert(events_to(
                    before.ledger,
                    before.now as int,
                    target as int,
                    o.docked,
                    o.policy,
                ) == events + rest);
                assert(told + (events + rest) =~= (told + events) + rest);
                assert(lines@ =~= was + new);
                assert(text::texts(lines@) =~= text::texts(was) + text::texts(new));
                assert(event_lines(told + events) =~= event_lines(told) + event_lines(events));
                told = told + events;
            }
        }
        assert(told + Seq::<Event>::empty() =~= told);
        lines
    }
}

/// A fast clock bills what a slow one would: while a device is out, no away-window holds and the
/// day does not turn, slices bill and hold back together exactly the time that passes.
pub proof fn slices_bill_what_passes(
    l: Ledger<2>,
    now: int,
    target: int,
    docked: [bool; 2],
    p: Policy,
)
    requires
        i64::MIN <= now <= target <= i64::MAX,
        l.last_tick == Some(now as i64),
        forall|t: int|
            now < t <= target ==> #[trigger] p.day_of(t) == l.day && Ledger::<2>::running(
                docked,
                t,
                p,
            ),
        l.spent_secs + l.pending_secs + (target - now) <= u32::MAX,
    ensures
        ({
            let after = run_to(l, now, target, docked, p);
            after.spent_secs + after.pending_secs == l.spent_secs + l.pending_secs + (target - now)
        }),
    decreases target - now,
{
    if now < target {
        let t = sim::next_slice(now, target);
        assert(p.day_of(t) == l.day);
        let next = l.ticked(t, docked, p);
        assert(l.gap(t) == t - now);
        assert(next.spent_secs + next.pending_secs == l.spent_secs + l.pending_secs + (t - now));
        slices_bill_what_passes(next, t, target, docked, p);
    }
}

} // verus!
