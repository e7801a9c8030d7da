//! The desk session of the balance.
use crate::balance;
use crate::balance::{Event, Ledger, Policy, Snapshot};
use crate::civil;
use crate::civil::{EARLIEST, LATEST};
use crate::room;
use crate::sim;
use crate::sim::daily::{shot_name, Pressed};
use crate::sim::{daily, scenarios};
use crate::text;
use crate::ui::Chrome;
use vstd::prelude::*;

verus! {

/// What can be pressed.
#[derive(Debug, Clone, Copy, PartialEq, Eq, Structural)]
pub enum Key {
    /// Put a device back, or take it away.
    Device1,
    Device2,
    /// Bring a device onto the home network, or take it off: leaving the house.
    Home1,
    Home2,
    /// Pause the simulated clock.
    Pause,
    /// Grant 10 bonus minutes.
    Bonus,
    /// Jump forward one hour.
    Hour,
    /// Jump to 22:30, inside the night window.
    Night,
    /// Save a screenshot.
    Shot,
    Quit,
}

/// What decides the tick at an instant.
pub open spec fn moment(s: Session, t: int) -> balance::Moment<2> {
    scenarios::moment(t, s.docked, s.present, s.policy)
}

/// What a tick reports.
pub open spec fn events_at(l: Ledger<2>, m: balance::Moment<2>) -> Seq<Event> {
    balance::as_many_as_fit(l.tick_events(m))
}

/// A session: the ledger, the simulated clock, and where the devices are.
pub struct Session {
    pub ledger: Ledger<2>,
    pub policy: Policy,
    pub now: i64,
    pub paused: bool,
    pub docked: [bool; 2],
    pub present: [bool; 2],
    pub shots: usize,
    pub snapshot: Snapshot<2>,
}

/// The session after a tick at `t`.
pub open spec fn ticked(s: Session, t: int) -> Session {
    Session {
        now: t as i64,
        ledger: scenarios::ticked(s.ledger, moment(s, t)),
        snapshot: scenarios::shown(s.ledger, moment(s, t)),
        ..s
    }
}

/// The session once the clock has gone to `target` in slices.
pub open spec fn run_to(s: Session, target: int) -> Session
    decreases target - s.now,
    when i64::MIN <= target <= i64::MAX
{
    if s.now >= target {
        s
    } else {
        run_to(ticked(s, sim::next_slice(s.now as int, target)), target)
    }
}

/// What happens on the way to `target`.
pub open spec fn events_to(s: Session, target: int) -> Seq<Event>
    decreases target - s.now,
    when i64::MIN <= target <= i64::MAX
{
    if s.now >= target {
        Seq::empty()
    } else {
        let t = sim::next_slice(s.now as int, target);
        events_at(s.ledger, moment(s, t)) + events_to(ticked(s, t), target)
    }
}

/// What is printed of some events.
pub open spec fn lines_of(events: Seq<Event>) -> Seq<Seq<char>> {
    room::event_lines(events, seq!["Handy"@, "Tablet"@])
}

fn device_line(device: &str, on: bool, yes: &str, no: &str) -> (r: String)
    ensures
        r@ == device@ + if on {
            yes@
        } else {
            no@
        },
{
    let mut line: String = device.to_owned();
    line.append(
        if on {
            yes
        } else {
            no
        },
    );
    line
}

impl Session {
    /// The ledger stands where the clock stands, and the clock on the calendar.
    pub open spec fn wf(self) -> bool {
        &&& self.ledger.last_tick == Some(self.now)
        &&& EARLIEST <= self.now <= LATEST
        &&& self.policy.refill_den > 0
    }

    /// Monday 16:00: just after school, both devices put back and at home, the prefill saved up.
    pub fn start() -> (r: Self)
        ensures
            r.wf(),
            r.now == sim::berlin_of(2026, 8, 3, 16, 0),
            !r.paused,
            r.docked@ == seq![true, true],
            r.present@ == seq![true, true],
            r.shots == 0,
            r.policy.standard(),
            r.ledger == scenarios::ticked(
                scenarios::fresh_ledger(1_800),
                moment(r, r.now as int),
            ),
            r.snapshot == scenarios::shown(
                scenarios::fresh_ledger(1_800),
                moment(r, r.now as int),
            ),
    {
        let policy = Policy::default();
        proof {
            civil::on_calendar_within(sim::wall(2026, 8, 3, 16, 0) - 3_600);
            reveal(sim::berlin_of);
            civil::on_calendar_within(sim::berlin_of(2026, 8, 3, 16, 0));
        }
        let now: i64 = sim::berlin(2026, 8, 3, 16, 0);
        let docked: [bool; 2] = [true, true];
        let present: [bool; 2] = [true, true];
        let mut ledger = Ledger::<2>::new(&policy);
        let ghost fresh = ledger;
        let (snapshot, _) = ledger.tick(now, docked, present, &policy);
        let r = Session { ledger, policy, now, paused: false, docked, present, shots: 0, snapshot };
        proof {
            let m = moment(r, now as int);
            scenarios::a_fresh_ledger_is_determined(fresh, 1_800);
            scenarios::a_tick_is_determined(fresh, m, ledger);
            scenarios::a_snapshot_is_determined(fresh, m, snapshot);
            assert(docked@ =~= seq![true, true]);
            assert(present@ =~= seq![true, true]);
        }
        r
    }

    /// What is printed for a key.
    pub open spec fn key_line(self, key: Key) -> Option<Seq<char>> {
        match key {
            Key::Device1 => Some(
                "device 1 "@ + if self.docked@[0] {
                    "UNDOCKED"@
                } else {
                    "docked"@
                },
            ),
            Key::Device2 => Some(
                "device 2 "@ + if self.docked@[1] {
                    "UNDOCKED"@
                } else {
                    "docked"@
                },
            ),
            Key::Home1 => Some(
                "device 1 "@ + if self.present@[0] {
                    "AWAY"@
                } else {
                    "at home"@
                },
            ),
            Key::Home2 => Some(
                "device 2 "@ + if self.present@[1] {
                    "AWAY"@
                } else {
                    "at home"@
                },
            ),
            Key::Pause => Some(
                "clock "@ + if self.paused {
                    "running"@
                } else {
                    "paused"@
                },
            ),
            Key::Bonus => Some("granted 10 bonus minutes"@),
            Key::Shot => Some("saved "@ + daily::shot_path(self.shots as nat)),
            _ => None,
        }
    }

    /// Whether this is the session after a key.
    pub open spec fn pressed(self, key: Key, after: Session) -> bool {
        &&& after.docked@ == match key {
            Key::Device1 => self.docked@.update(0, !self.docked@[0]),
            Key::Device2 => self.docked@.update(1, !self.docked@[1]),
            _ => self.docked@,
        }
        &&& after.present@ == match key {
            Key::Home1 => self.present@.update(0, !self.present@[0]),
            Key::Home2 => self.present@.update(1, !self.present@[1]),
            _ => self.present@,
        }
        &&& after == (Session {
            docked: after.docked,
            present: after.present,
            paused: self.paused != (key == Key::Pause),
            shots: if key == Key::Shot {
                (self.shots + 1) as usize
            } else {
                self.shots
            },
            ledger: if key == Key::Bonus {
                room::granted(self.ledger, Some(600), self.policy)
            } else {
                self.ledger
            },
            ..self
        })
    }

    /// React to a key.
    pub fn press(&mut self, key: Key) -> (r: Pressed)
        requires
            old(self).wf(),
            old(self).shots < usize::MAX,
        ensures
            final(self).wf(),
            old(self).pressed(key, *final(self)),
            r.quit == (key == Key::Quit),
            r.jump == match key {
                Key::Hour => Some((old(self).now + 3_600) as i64),
                Key::Night => Some(sim::today_at(old(self).now as int, 22, 30) as i64),
                _ => None,
            },
            r.jump is Some ==> old(self).now - 100_000 <= r.jump->0 <= old(self).now + 100_000,
            r.shot is Some <==> key == Key::Shot,
            r.shot is Some ==> r.shot->0@ == daily::shot_path(old(self).shots as nat),
            match old(self).key_line(key) {
                None => r.line is None,
                Some(line) => r.line is Some && r.line->0@ == line,
            },
    {
        let mut line: Option<String> = None;
        let mut jump: Option<i64> = None;
        let mut shot: Option<String> = None;
        let mut quit: bool = false;
        match key {
            Key::Device1 => {
                self.docked[0] = !self.docked[0];
                line = Some(device_line("device 1 ", self.docked[0], "docked", "UNDOCKED"));
            },
            Key::Device2 => {
                self.docked[1] = !self.docked[1];
                line = Some(device_line("device 2 ", self.docked[1], "docked", "UNDOCKED"));
            },
            Key::Home1 => {
                self.present[0] = !self.present[0];
                line = Some(device_line("device 1 ", self.present[0], "at home", "AWAY"));
            },
            Key::Home2 => {
                self.present[1] = !self.present[1];
                line = Some(device_line("device 2 ", self.present[1], "at home", "AWAY"));
            },
            Key::Pause => {
                self.paused = !self.paused;
                line = Some(device_line("clock ", self.paused, "paused", "running"));
            },
            Key::Bonus => {
                self.ledger.grant_bonus(10 * 60, &self.policy);
                line = Some("granted 10 bonus minutes".to_owned());
            },
            Key::Hour => {
                jump = Some(self.now + 3_600);
            },
            Key::Night => {
                jump = Some(sim::today(self.now, 22, 30));
            },
            Key::Shot => {
                let path: String = shot_name(self.shots);
                line = Some(device_line("saved ", true, path.as_str(), ""));
                shot = Some(path);
                self.shots = self.shots + 1;
            },
            Key::Quit => {
                quit = true;
            },
        }
        Pressed { line, jump, shot, quit }
    }

    /// Tick once.
    fn tick_at(&mut self, t: i64) -> (r: Vec<String>)
        requires
            old(self).wf(),
            EARLIEST <= t <= LATEST,
        ensures
            final(self).wf(),
            *final(self) == ticked(*old(self), t as int),
            text::texts(r@) == lines_of(events_at(old(self).ledger, moment(*old(self), t as int))),
    {
        let ghost m = moment(*self, t as int);
        let ghost l = self.ledger;
        proof {
            civil::on_calendar_within(t as int);
        }
        self.now = t;
        let (snapshot, events) = self.ledger.tick(t, self.docked, self.present, &self.policy);
        self.snapshot = snapshot;
        proof {
            scenarios::a_tick_is_determined(l, m, self.ledger);
            scenarios::a_snapshot_is_determined(l, m, snapshot);
            assert forall|i: int| 0 <= i < events_at(l, m).len() implies (#[trigger] events_at(
                l,
                m,
            )[i] matches Event::UndockedAtNight { device } ==> device < 2) by {
                balance::events_name_devices(l, m, i);
            }
        }
        let chrome = Chrome::default();
        let mut lines: Vec<String> = Vec::new();
        assert(room::names_of(chrome.device_names) =~= seq!["Handy"@, "Tablet"@]);
        let _ = room::report_all(balance::event_slice(&events), &chrome.device_names, &mut lines);
        assert(text::texts(lines@) =~= lines_of(events_at(l, m)));
        lines
    }

    /// One frame: a jump where one was asked for, and otherwise `elapsed` simulated seconds in
    /// slices. A paused clock is ticked where it stands. Says what to print.
    pub fn advance(&mut self, jump: Option<i64>, elapsed: i64) -> (r: Vec<String>)
        requires
            old(self).wf(),
            match jump {
                Some(t) => EARLIEST <= t <= LATEST,
                None => elapsed >= 0 && old(self).now + elapsed <= LATEST,
            },
        ensures
            final(self).wf(),
            ({
                let o = *old(self);
                if jump is Some || o.paused {
                    let t = if jump is Some {
                        jump->0 as int
                    } else {
                        o.now as int
                    };
                    &&& *final(self) == ticked(o, t)
                    &&& text::texts(r@) == lines_of(events_at(o.ledger, moment(o, t)))
                } else {
                    &&& *final(self) == run_to(o, o.now + elapsed)
                    &&& text::texts(r@) == lines_of(events_to(o, o.now + elapsed))
                }
            }),
    {
        if let Some(t) = jump {
            return self.tick_at(t);
        }
        if self.paused {
            return self.tick_at(self.now);
        }
        let ghost o = *self;
        let target: i64 = self.now + elapsed;
        let mut lines: Vec<String> = Vec::new();
        let ghost mut told: Seq<Event> = Seq::empty();
        assert(text::texts(lines@) =~= lines_of(told));
        assert(told + events_to(o, target as int) =~= events_to(o, target as int));
        while self.now < target
            invariant
                self.wf(),
                self.now <= target <= LATEST,
                run_to(*self, target as int) == run_to(o, target as int),
                told + events_to(*self, target as int) == events_to(o, target as int),
                text::texts(lines@) == lines_of(told),
            decreases target - self.now,
        {
            let ghost before = *self;
            let t: i64 = sim::slice_end(self.now, target);
            let mut more: Vec<String> = self.tick_at(t);
            let ghost was = lines@;
            let ghost new = more@;
            lines.append(&mut more);
            proof {
                let events = events_at(before.ledger, moment(before, t as int));
                let rest = events_to(*self, target as int);
                assert(events_to(before, target as int) == events + rest);
                assert(told + (events + rest) =~= (told + events) + rest);
                assert(lines@ =~= was + new);
                assert(text::texts(lines@) =~= text::texts(was) + text::texts(new));
                assert(lines_of(told + events) =~= lines_of(told) + lines_of(events));
                told = told + events;
            }
        }
        assert(told + Seq::<Event>::empty() =~= told);
        lines
    }
}

/// A key moves its own device and nothing else, and pressed again moves it back; only the bonus
/// touches the ledger.
pub proof fn a_key_moves_its_own_device(s: Session, key: Key, once: Session, twice: Session)
    requires
        s.pressed(key, once),
        once.pressed(key, twice),
        key == Key::Device1 || key == Key::Device2 || key == Key::Home1 || key == Key::Home2,
    ensures
        key == Key::Device1 <==> once.docked@[0] != s.docked@[0],
        key == Key::Device2 <==> once.docked@[1] != s.docked@[1],
        key == Key::Home1 <==> once.present@[0] != s.present@[0],
        key == Key::Home2 <==> once.present@[1] != s.present@[1],
        twice.docked@ == s.docked@,
        twice.present@ == s.present@,
        once.ledger == s.ledger,
        once.paused == s.paused,
        once.now == s.now,
{
    assert(twice.docked@ =~= s.docked@);
    assert(twice.present@ =~= s.present@);
}

/// The clock goes to its target and nothing but the accounts change on the way.
pub proof fn a_session_goes_to_its_target(s: Session, target: int)
    requires
        i64::MIN <= target <= i64::MAX,
    ensures
        s.now <= target ==> run_to(s, target).now == target,
        s.now > target ==> run_to(s, target) == s,
        run_to(s, target).docked == s.docked,
        run_to(s, target).present == s.present,
        run_to(s, target).policy == s.policy,
        run_to(s, target).paused == s.paused,
        run_to(s, target).shots == s.shots,
    decreases target - s.now,
{
    if s.now < target {
        let t = sim::next_slice(s.now as int, target);
        sim::slices_are_short(s.now as int, target);
        a_session_goes_to_its_target(ticked(s, t), target);
    }
}

} // verus!
