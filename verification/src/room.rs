//! The half of the box that acts in the room: reader, panel, chime and clock, and the ledger
//! that they drive.
//!
//! Everything here decides; whoever owns the hardware reads it, hands the readings in, and does
//! what comes back.
use crate::balance;
use crate::balance::{Event, Flow, Ledger, Moment, Policy, Snapshot};
use crate::clock;
use crate::civil;
use crate::docking::{Docked, Docking};
use crate::fixed;
use crate::notify::{Message, MAX_MSG};
use crate::pn5180::Uid;
use crate::scan;
use crate::screen::{Fingerprint, Refresh, Screen};
use crate::text;
use crate::timing::Ms;
use vstd::prelude::*;

verus! {

/// How often to journal the balance, in seconds. A power cut costs at most this much.
pub const JOURNAL_PERIOD: u64 = 30;

/// The names of the devices, as texts.
pub open spec fn names_of(names: [&str; 2]) -> Seq<Seq<char>> {
    seq![names@[0]@, names@[1]@]
}

/// A text that holds one line for a condition, or nothing.
pub open spec fn line_if(condition: bool, line: Seq<char>) -> Seq<Seq<char>> {
    if condition {
        seq![line]
    } else {
        Seq::empty()
    }
}

/// What is logged of an event.
pub open spec fn event_line(e: Event, names: Seq<Seq<char>>) -> Seq<char> {
    match e {
        Event::Exhausted => "  [event] EXHAUSTED"@,
        Event::UndockedAtNight { device } => "  [event] "@ + names[device as int]
            + " TAKEN AWAY AT NIGHT"@,
        Event::Restored => "  [event] restored"@,
        Event::Warning => "  [event] 5 minutes left"@,
        Event::NightBegan => "  [event] night began"@,
        Event::NightEnded => "  [event] night ended"@,
        Event::TimeJump { gap_secs } => "  [event] time jump "@ + text::signed(gap_secs as int)
            + "s ignored"@,
    }
}

/// The alert that a device was taken in the night. An alert holds no more than [`MAX_MSG`]
/// bytes: what no longer fits is left out.
pub open spec fn night_alert(name: Seq<char>) -> Seq<char> {
    fixed::written(Seq::empty(), seq![name, " nachts weggenommen"@], MAX_MSG as nat)
}

/// What is pushed to the parent of an event: only what they would want to know about away from
/// the house.
pub open spec fn event_alert(e: Event, names: Seq<Seq<char>>) -> Seq<Seq<char>> {
    match e {
        Event::Exhausted => seq!["Zeit ist aufgebraucht"@],
        Event::UndockedAtNight { device } => line_if(
            night_alert(names[device as int]).len() > 0,
            night_alert(names[device as int]),
        ),
        _ => Seq::empty(),
    }
}

/// What is logged of some events.
pub open spec fn event_lines(events: Seq<Event>, names: Seq<Seq<char>>) -> Seq<Seq<char>> {
    events.map_values(|e: Event| event_line(e, names))
}

/// What is pushed to the parent of some events.
pub open spec fn event_alerts(events: Seq<Event>, names: Seq<Seq<char>>) -> Seq<Seq<char>>
    decreases events.len(),
{
    if events.len() == 0 {
        Seq::empty()
    } else {
        event_alerts(events.drop_last(), names) + event_alert(events.last(), names)
    }
}

/// Log every event; push only the ones a parent would want to know about away from the house.
pub fn report(e: &Event, names: &[&str; 2]) -> (r: (String, Option<String>))
    requires
        *e matches Event::UndockedAtNight { device } ==> device < 2,
    ensures
        r.0@ == event_line(*e, names_of(*names)),
        match r.1 {
            None => event_alert(*e, names_of(*names)) == Seq::<Seq<char>>::empty(),
            Some(a) => event_alert(*e, names_of(*names)) == seq![a@],
        },
{
    match e {
        Event::Exhausted => {
            ("  [event] EXHAUSTED".to_owned(), Some("Zeit ist aufgebraucht".to_owned()))
        },
        Event::UndockedAtNight { device } => {
            let name: &str = names[*device];
            let mut line: String = "  [event] ".to_owned();
            line.append(name);
            line.append(" TAKEN AWAY AT NIGHT");
            let mut alert: Message = fixed::empty();
            let pieces: [&str; 2] = [name, " nachts weggenommen"];
            assert(text::slices(pieces@) =~= seq![name@, " nachts weggenommen"@]);
            fixed::write(&mut alert, pieces.as_slice());
            let push: &str = fixed::read(&alert);
            proof {
                fixed::holds_one_text(alert, push, night_alert(name@));
            }
            if push.unicode_len() == 0 {
                (line, None)
            } else {
                (line, Some(push.to_owned()))
            }
        },
        Event::Restored => ("  [event] restored".to_owned(), None),
        Event::Warning => ("  [event] 5 minutes left".to_owned(), None),
        Event::NightBegan => ("  [event] night began".to_owned(), None),
        Event::NightEnded => ("  [event] night ended".to_owned(), None),
        Event::TimeJump { gap_secs } => {
            let mut line: String = "  [event] time jump ".to_owned();
            text::push_signed(&mut line, *gap_secs);
            line.append("s ignored");
            (line, None)
        },
    }
}

/// What to log, what to push, and whether to chime: the chime exists for exactly one event.
pub(crate) fn report_all(events: &[Event], names: &[&str; 2], lines: &mut Vec<String>) -> (r: (
    Vec<String>,
    bool,
))
    requires
        forall|i: int|
            0 <= i < events@.len() ==> (#[trigger] events@[i] matches Event::UndockedAtNight {
                device,
            } ==> device < 2),
    ensures
        text::texts(final(lines)@) == text::texts(old(lines)@) + event_lines(
            events@,
            names_of(*names),
        ),
        text::texts(r.0@) == event_alerts(events@, names_of(*names)),
        r.1 == events@.contains(Event::Warning),
{
    let ghost before = text::texts(lines@);
    let ghost ns = names_of(*names);
    let mut alerts: Vec<String> = Vec::new();
    let mut chime: bool = false;
    let mut i: usize = 0;
    assert(events@.take(0) =~= Seq::<Event>::empty());
    assert(text::texts(alerts@) =~= event_alerts(events@.take(0), ns));
    assert(text::texts(lines@) =~= before + event_lines(events@.take(0), ns));
    while i < events.len()
        invariant
            i <= events@.len(),
            ns == names_of(*names),
            forall|j: int|
                0 <= j < events@.len() ==> (#[trigger] events@[j] matches Event::UndockedAtNight {
                    device,
                } ==> device < 2),
            text::texts(lines@) == before + event_lines(events@.take(i as int), ns),
            text::texts(alerts@) == event_alerts(events@.take(i as int), ns),
            chime == exists|j: int| 0 <= j < i && #[trigger] events@[j] == Event::Warning,
        decreases events@.len() - i,
    {
        let (line, alert) = report(&events[i], names);
        text::push_line(lines, line);
        if let Some(a) = alert {
            text::push_line(&mut alerts, a);
        }
        if let Event::Warning = events[i] {
            chime = true;
        }
        proof {
            let upto = events@.take(i + 1);
            assert(upto.drop_last() =~= events@.take(i as int));
            assert(upto.last() == events@[i as int]);
            assert(event_alerts(upto, ns) == event_alerts(upto.drop_last(), ns) + event_alert(
                upto.last(),
                ns,
            ));
            assert(text::texts(alerts@) =~= event_alerts(upto, ns));
            assert(event_lines(upto, ns) =~= event_lines(events@.take(i as int), ns).push(
                event_line(events@[i as int], ns),
            ));
            assert(text::texts(lines@) =~= before + event_lines(upto, ns));
        }
        i += 1;
    }
    assert(events@.take(i as int) =~= events@);
    assert(chime == events@.contains(Event::Warning));
    (alerts, chime)
}

/// What is logged of the devices whose place changed, among the first `n`.
pub open spec fn move_lines(
    now: Seq<bool>,
    before: Seq<bool>,
    names: Seq<Seq<char>>,
    n: nat,
) -> Seq<Seq<char>>
    decreases n,
{
    if n == 0 {
        Seq::empty()
    } else {
        let i = n - 1;
        move_lines(now, before, names, i as nat) + line_if(
            now[i] != before[i],
            "reader: "@ + names[i] + " "@ + if now[i] {
                "zurückgelegt"@
            } else {
                "genommen"@
            },
        )
    }
}

/// The beat after one that was due at `next`.
pub open spec fn beat_after(next: int, now: int, period: int) -> int {
    if next > now {
        next + period
    } else {
        now + period
    }
}

/// When the next pass is due, in whatever unit the clock counts. A late pass gives up the beat
/// it missed instead of running twice to catch up.
pub fn next_beat(next: u64, now: u64, period: u64) -> (r: u64)
    requires
        next + period <= u64::MAX,
        now + period <= u64::MAX,
    ensures
        r == beat_after(next as int, now as int, period as int),
        period > 0 ==> r > now,
{
    if next > now {
        next + period
    } else {
        now + period
    }
}

/// What a round of the reader concluded, what to log of it and what to push.
pub struct Round {
    pub found: Docked<Uid, 2>,
    pub lines: Vec<String>,
    pub alerts: Vec<String>,
}

/// What there is to do after a pass.
pub struct Step {
    pub snapshot: Snapshot<2>,
    pub lines: Vec<String>,
    pub alerts: Vec<String>,
    /// Whether the chime is to sound.
    pub chime: bool,
    /// How to draw the snapshot, if it needs drawing. Call [`Room::redrawn`] once it is drawn.
    pub redraw: Option<Refresh>,
    /// The balance to journal, and when it stood so.
    pub persist: Option<(i32, i64)>,
}

/// The room between two passes.
pub struct Room {
    pub screen: Screen,
    pub docking: Docking<Uid, 2>,
    pub ledger: Ledger<2>,
    pub policy: Policy,
    /// `None` until the clock is trustworthy. The ledger is never ticked before that.
    pub last_tick: Option<i64>,
    /// Uptime in seconds at the last journal write that was asked for.
    pub last_journal: u64,
    pub last_persisted_flow: Option<Flow>,
    pub last_docked: [bool; 2],
    pub last_recoveries: u32,
}

/// The ledger after a grant.
pub open spec fn granted(l: Ledger<2>, bonus: Option<u32>, policy: Policy) -> Ledger<2> {
    match bonus {
        None => l,
        Some(secs) => l.granted(secs, policy),
    }
}

impl Room {
    pub fn new(docking: Docking<Uid, 2>, ledger: Ledger<2>, policy: Policy, uptime: u64) -> (r: Self)
        ensures
            r.screen == (Screen { last: None, quick_since_full: 0, quick_per_full: 30 }),
            r.docking == docking,
            r.ledger == ledger,
            r.policy == policy,
            r.last_tick is None,
            r.last_journal == uptime,
            r.last_persisted_flow is None,
            r.last_docked@ == seq![true, true],
            r.last_recoveries == 0,
    {
        let r = Room {
            screen: Screen::default(),
            docking,
            ledger,
            policy,
            last_tick: None,
            last_journal: uptime,
            last_persisted_flow: None,
            // Matches the starting assumption of the docking, so the first real reading logs a
            // transition only if it actually differs.
            last_docked: [true, true],
            last_recoveries: 0,
        };
        assert(r.last_docked@ =~= seq![true, true]);
        r
    }

    /// What can be known before the network is up, given the time that the clock is trusted to
    /// show. Says what to log where it is not trusted, and what to draw where it is.
    pub fn show_startup(&mut self, t: Option<i64>) -> (r: Result<
        (Snapshot<2>, Option<Refresh>),
        String,
    >)
        requires
            t is Some ==> civil::on_calendar(t->0 as int) && old(self).policy.refill_den > 0
                && i64::MIN <= old(self).ledger.gap(t->0 as int) <= i64::MAX,
        ensures
            match t {
                None => {
                    &&& r is Err
                    &&& r->Err_0@ == "room: no trustworthy clock yet, holding accounting"@
                    &&& *final(self) == *old(self)
                },
                Some(t) => {
                    &&& r is Ok
                    &&& ({
                        let m = Moment {
                            utc: t as int,
                            docked: [true, true],
                            present: [false, false],
                            policy: old(self).policy,
                        };
                        &&& old(self).ledger.becomes(m, final(self).ledger)
                        &&& old(self).ledger.shows(m, (r->Ok_0).0)
                    })
                    &&& (r->Ok_0).1 == old(self).screen.decision(Fingerprint::shown((r->Ok_0).0))
                    &&& *final(self) == (Room {
                        ledger: final(self).ledger,
                        last_tick: Some(t),
                        ..*old(self)
                    })
                },
            },
    {
        match t {
            None => Err("room: no trustworthy clock yet, holding accounting".to_owned()),
            Some(t) => {
                self.last_tick = Some(t);
                let (snapshot, _) = self.ledger.tick(t, [true, true], [false, false], &self.policy);
                let redraw: Option<Refresh> = self.screen.decide(Fingerprint::of(&snapshot));
                Ok((snapshot, redraw))
            },
        }
    }

    /// Take over a clock that the network validated, given what the onboard clock showed before
    /// and whether it could be set. This is also what releases accounting when the onboard clock
    /// alone was not trustworthy enough to start on. Says what to log.
    pub fn take_clock_correction(
        &mut self,
        t: i64,
        before: Result<i64, clock::Error>,
        set: Result<(), clock::Error>,
    ) -> (r: Vec<String>)
        requires
            before is Ok ==> i64::MIN <= t - before->Ok_0 <= i64::MAX,
        ensures
            *final(self) == (Room { last_tick: Some(t), ..*old(self) }),
            text::texts(r@) == line_if(
                before is Ok,
                "rtc: drift vs sntp "@ + text::signed(t - before->Ok_0) + "s"@,
            ) + seq![
                match set {
                    Ok(_) => "rtc: set from sntp"@,
                    Err(e) => "rtc: set failed ("@ + clock::error_word(e) + ")"@,
                },
            ] + line_if(old(self).last_tick is None, "room: clock trusted, accounting starts"@),
    {
        let mut lines: Vec<String> = Vec::new();
        assert(text::texts(lines@) =~= Seq::<Seq<char>>::empty());
        if let Ok(b) = before {
            let mut line: String = "rtc: drift vs sntp ".to_owned();
            text::push_signed(&mut line, t - b);
            line.append("s");
            text::push_line(&mut lines, line);
        }
        match set {
            Ok(_) => {
                text::push_line(&mut lines, "rtc: set from sntp".to_owned());
            },
            Err(e) => {
                let mut line: String = "rtc: set failed (".to_owned();
                line.append(clock::error_name(&e));
                line.append(")");
                text::push_line(&mut lines, line);
            },
        }
        if self.last_tick.is_none() {
            text::push_line(&mut lines, "room: clock trusted, accounting starts".to_owned());
        }
        self.last_tick = Some(t);
        assert(text::texts(lines@) =~= line_if(
            before is Ok,
            "rtc: drift vs sntp "@ + text::signed(t - before->Ok_0) + "s"@,
        ) + seq![
            match set {
                Ok(_) => "rtc: set from sntp"@,
                Err(e) => "rtc: set failed ("@ + clock::error_word(e) + ")"@,
            },
        ] + line_if(old(self).last_tick is None, "room: clock trusted, accounting starts"@));
        lines
    }

    /// Follow new rules.
    pub fn take_policy_change(&mut self, p: Policy)
        ensures
            *final(self) == (Room { policy: p, ..*old(self) }),
    {
        self.policy = p;
    }

    /// What is logged of a round.
    pub open spec fn round_lines(
        self,
        d: Docked<Uid, 2>,
        recoveries: u32,
        names: Seq<Seq<char>>,
    ) -> Seq<Seq<char>> {
        line_if(
            recoveries != self.last_recoveries,
            "reader: rf recoveries "@ + text::decimal(recoveries as nat),
        ) + move_lines(d.docked@, self.last_docked@, names, 2) + line_if(
            d.unknown is Some,
            "  [alert] unknown tag "@ + scan::uid_text(d.unknown->0),
        ) + line_if(d.reader_fault, "  [alert] reader not responding"@)
    }

    /// What is pushed of a round.
    pub open spec fn round_alerts(d: Docked<Uid, 2>) -> Seq<Seq<char>> {
        line_if(
            d.unknown is Some,
            "Unbekannter Tag "@ + scan::uid_text(d.unknown->0) + " am Leser"@,
        ) + line_if(d.reader_fault, "Leser antwortet nicht"@)
    }

    /// Log the transitions of a round, not its state: at the balance cap, filling and held look
    /// identical in the numbers, so this is what shows identity driving the ledger.
    fn log_round(&self, d: &Docked<Uid, 2>, recoveries: u32, names: &[&str; 2]) -> (r: Vec<String>)
        ensures
            text::texts(r@) == self.round_lines(*d, recoveries, names_of(*names)),
    {
        let ghost ns = names_of(*names);
        let mut lines: Vec<String> = Vec::new();
        assert(text::texts(lines@) =~= Seq::<Seq<char>>::empty());
        if recoveries != self.last_recoveries {
            let mut line: String = "reader: rf recoveries ".to_owned();
            text::push_decimal(&mut line, recoveries as u64);
            text::push_line(&mut lines, line);
        }
        let ghost first = text::texts(lines@);
        assert(first + move_lines(d.docked@, self.last_docked@, ns, 0) =~= first);
        let mut i: usize = 0;
        while i < 2
            invariant
                i <= 2,
                ns == names_of(*names),
                text::texts(lines@) == first + move_lines(
                    d.docked@,
                    self.last_docked@,
                    ns,
                    i as nat,
                ),
            decreases 2 - i,
        {
            if d.docked[i] != self.last_docked[i] {
                let mut line: String = "reader: ".to_owned();
                line.append(names[i]);
                line.append(" ");
                if d.docked[i] {
                    line.append("zurückgelegt");
                } else {
                    line.append("genommen");
                }
                text::push_line(&mut lines, line);
            }
            assert(text::texts(lines@) =~= first + move_lines(
                d.docked@,
                self.last_docked@,
                ns,
                (i + 1) as nat,
            ));
            i += 1;
        }
        if let Some(uid) = d.unknown {
            let hex = scan::uid_hex(&uid);
            let printed: &str = fixed::read(&hex);
            proof {
                fixed::holds_one_text(hex, printed, scan::uid_text(uid));
            }
            let mut line: String = "  [alert] unknown tag ".to_owned();
            line.append(printed);
            text::push_line(&mut lines, line);
        }
        if d.reader_fault {
            text::push_line(&mut lines, "  [alert] reader not responding".to_owned());
        }
        assert(text::texts(lines@) =~= self.round_lines(*d, recoveries, ns));
        lines
    }

    /// The alerts of a round.
    fn alert_round(d: &Docked<Uid, 2>) -> (r: Vec<String>)
        ensures
            text::texts(r@) == Self::round_alerts(*d),
    {
        let mut alerts: Vec<String> = Vec::new();
        assert(text::texts(alerts@) =~= Seq::<Seq<char>>::empty());
        if let Some(uid) = d.unknown {
            let hex = scan::uid_hex(&uid);
            let printed: &str = fixed::read(&hex);
            proof {
                fixed::holds_one_text(hex, printed, scan::uid_text(uid));
            }
            let mut m: String = "Unbekannter Tag ".to_owned();
            m.append(printed);
            m.append(" am Leser");
            text::push_line(&mut alerts, m);
        }
        if d.reader_fault {
            text::push_line(&mut alerts, "Leser antwortet nicht".to_owned());
        }
        assert(text::texts(alerts@) =~= Self::round_alerts(*d));
        alerts
    }

    /// Fold in what the reader saw, `None` where it failed, with the button that stands in for
    /// the first device and how often the field had to be recovered so far.
    pub fn poll_reader(
        &mut self,
        seen: Option<&[Uid]>,
        button: bool,
        recoveries: u32,
        names: &[&str; 2],
    ) -> (r: Round)
        requires
            seen is None ==> old(self).docking.consecutive_failures < u32::MAX,
        ensures
            match seen {
                None => old(self).docking.failed(final(self).docking, r.found),
                Some(s) => old(self).docking.read(
                    s@,
                    [button, true],
                    final(self).docking,
                    r.found,
                ),
            },
            text::texts(r.lines@) == old(self).round_lines(r.found, recoveries, names_of(*names)),
            text::texts(r.alerts@) == Self::round_alerts(r.found),
            *final(self) == (Room {
                docking: final(self).docking,
                last_docked: r.found.docked,
                last_recoveries: recoveries,
                ..*old(self)
            }),
    {
        let found: Docked<Uid, 2> = self.docking.update(seen, [button, true]);
        let lines: Vec<String> = self.log_round(&found, recoveries, names);
        let alerts: Vec<String> = Self::alert_round(&found);
        self.last_recoveries = recoveries;
        self.last_docked = found.docked;
        Round { found, lines, alerts }
    }

    /// Whether a journal write is due: on a timer, and immediately whenever the flow changes,
    /// for the moment spending starts or stops is exactly when a stale record would be wrong by
    /// the largest amount.
    pub open spec fn journal_due(self, flow: Flow, uptime: u64) -> bool {
        self.last_persisted_flow != Some(flow) || uptime - self.last_journal >= JOURNAL_PERIOD
    }

    fn maybe_persist(&mut self, s: &Snapshot<2>, t: i64, uptime: u64) -> (r: Option<(i32, i64)>)
        ensures
            old(self).journal_due(s.flow, uptime) ==> r == Some((s.balance_secs, t)) && *final(self)
                == (Room {
                last_journal: uptime,
                last_persisted_flow: Some(s.flow),
                ..*old(self)
            }),
            !old(self).journal_due(s.flow, uptime) ==> r is None && *final(self) == *old(self),
    {
        let changed: bool = match self.last_persisted_flow {
            None => true,
            Some(flow) => flow != s.flow,
        };
        let due: bool = uptime >= self.last_journal && uptime - self.last_journal >= JOURNAL_PERIOD;
        if changed || due {
            self.last_journal = uptime;
            self.last_persisted_flow = Some(s.flow);
            Some((s.balance_secs, t))
        } else {
            None
        }
    }

    /// The time of a pass: what the clock shows, and a second after the last one where it cannot
    /// be read.
    pub open spec fn pass_time(self, now: Result<i64, clock::Error>) -> int {
        match now {
            Ok(t) => t as int,
            Err(_) => self.last_tick->0 + 1,
        }
    }

    /// What a pass does and leaves to do. The clock is authoritative between corrections, so a
    /// missed pass or a slow network call cannot make the ledger lose time; a grant is applied
    /// before the tick, so the new balance is what gets journalled and displayed this second.
    pub open spec fn passes(
        self,
        t: int,
        bonus: Option<u32>,
        docked: [bool; 2],
        present: [bool; 2],
        uptime: u64,
        names: Seq<Seq<char>>,
        after: Room,
        r: Step,
    ) -> bool {
        let m = Moment { utc: t, docked, present, policy: self.policy };
        let l = granted(self.ledger, bonus, self.policy);
        let events = balance::as_many_as_fit(l.tick_events(m));
        let due = self.journal_due(r.snapshot.flow, uptime);
        &&& l.becomes(m, after.ledger)
        &&& l.shows(m, r.snapshot)
        &&& text::texts(r.lines@) == line_if(
            bonus is Some,
            "room: +"@ + text::decimal(bonus->0 as nat) + "s granted"@,
        ) + event_lines(events, names)
        &&& text::texts(r.alerts@) == event_alerts(events, names)
        &&& r.chime == events.contains(Event::Warning)
        &&& r.redraw == self.screen.decision(Fingerprint::shown(r.snapshot))
        &&& r.persist == if due {
            Some((r.snapshot.balance_secs, t as i64))
        } else {
            None
        }
        &&& after == (Room {
            ledger: after.ledger,
            last_tick: Some(t as i64),
            last_journal: if due {
                uptime
            } else {
                self.last_journal
            },
            last_persisted_flow: if due {
                Some(r.snapshot.flow)
            } else {
                self.last_persisted_flow
            },
            ..self
        })
    }

    /// One pass, once the reader has been polled: fold the world into the ledger and say what to
    /// do about it. Nothing happens before the clock is trustworthy.
    pub fn step(
        &mut self,
        now: Result<i64, clock::Error>,
        bonus: Option<u32>,
        docked: [bool; 2],
        present: [bool; 2],
        uptime: u64,
        names: &[&str; 2],
    ) -> (r: Option<Step>)
        requires
            old(self).last_tick is Some ==> {
                &&& old(self).policy.refill_den > 0
                &&& civil::on_calendar(old(self).pass_time(now))
                &&& i64::MIN <= old(self).pass_time(now) <= i64::MAX
                &&& i64::MIN <= old(self).ledger.gap(old(self).pass_time(now)) <= i64::MAX
            },
        ensures
            old(self).last_tick is None ==> r is None && *final(self) == *old(self),
            old(self).last_tick is Some ==> r is Some && old(self).passes(
                old(self).pass_time(now),
                bonus,
                docked,
                present,
                uptime,
                names_of(*names),
                *final(self),
                r->0,
            ),
    {
        let previous: i64 = match self.last_tick {
            None => {
                return None;
            },
            Some(p) => p,
        };
        let t: i64 = match now {
            Ok(t) => t,
            Err(_) => previous + 1,
        };
        let mut lines: Vec<String> = Vec::new();
        assert(text::texts(lines@) =~= Seq::<Seq<char>>::empty());
        if let Some(secs) = bonus {
            self.ledger.grant_bonus(secs, &self.policy);
            let mut line: String = "room: +".to_owned();
            text::push_decimal(&mut line, secs as u64);
            line.append("s granted");
            text::push_line(&mut lines, line);
        }
        let ghost l = granted(old(self).ledger, bonus, old(self).policy);
        let ghost m = Moment { utc: t as int, docked, present, policy: old(self).policy };
        assert(self.ledger == l);
        assert(text::texts(lines@) =~= line_if(
            bonus is Some,
            "room: +"@ + text::decimal(bonus->0 as nat) + "s granted"@,
        ));
        let (snapshot, events) = self.ledger.tick(t, docked, present, &self.policy);
        self.last_tick = Some(t);
        proof {
            assert forall|i: int|
                0 <= i < balance::as_many_as_fit(l.tick_events(m)).len() implies (
            #[trigger] balance::as_many_as_fit(l.tick_events(m))[i] matches Event::UndockedAtNight {
                device,
            } ==> device < 2) by {
                balance::events_name_devices(l, m, i);
            }
        }
        let (alerts, chime) = report_all(balance::event_slice(&events), names, &mut lines);
        let redraw: Option<Refresh> = self.screen.decide(Fingerprint::of(&snapshot));
        let persist: Option<(i32, i64)> = self.maybe_persist(&snapshot, t, uptime);
        Some(Step { snapshot, lines, alerts, chime, redraw, persist })
    }

    /// Record that the panel now shows a snapshot, and how long drawing it took, in
    /// microseconds. Called after the refresh and not before, so a refresh that failed to happen
    /// is not recorded as having. Says what to log.
    pub fn redrawn(&mut self, s: &Snapshot<2>, mode: Refresh, took_us: u64) -> (r: String)
        requires
            mode == Refresh::Quick ==> old(self).screen.quick_since_full < u32::MAX,
        ensures
            *final(self) == (Room {
                screen: old(self).screen.after(Fingerprint::shown(*s), mode),
                ..*old(self)
            }),
            r@ == "screen: "@ + (match mode {
                Refresh::Full => "Full"@,
                Refresh::Quick => "Quick"@,
            }) + " redraw at "@ + text::two_digits(s.local.hour as nat) + ":"@ + text::two_digits(
                s.local.minute as nat,
            ) + ", balance "@ + text::signed(s.balance_secs as int) + "s, took "@ + Ms(
                took_us,
            ).shown(),
    {
        self.screen.drawn(Fingerprint::of(s), mode);
        let mut line: String = "screen: ".to_owned();
        match mode {
            Refresh::Full => {
                line.append("Full");
            },
            Refresh::Quick => {
                line.append("Quick");
            },
        }
        line.append(" redraw at ");
        text::push_two_digits(&mut line, s.local.hour as u64);
        line.append(":");
        text::push_two_digits(&mut line, s.local.minute as u64);
        line.append(", balance ");
        text::push_signed(&mut line, s.balance_secs as i64);
        line.append("s, took ");
        line.append(Ms(took_us).text().as_str());
        line
    }
}

/// The chime sounds only while the balance drains and little of it is left.
pub proof fn the_chime_is_for_the_warning(
    room: Room,
    t: int,
    bonus: Option<u32>,
    docked: [bool; 2],
    present: [bool; 2],
    uptime: u64,
    names: Seq<Seq<char>>,
    after: Room,
    r: Step,
)
    requires
        room.passes(t, bonus, docked, present, uptime, names, after, r),
        r.chime,
    ensures
        r.snapshot.flow == Flow::Draining,
        0 < r.snapshot.balance_secs <= balance::WARNING_SECS,
{
    let m = Moment { utc: t, docked, present, policy: room.policy };
    let l = granted(room.ledger, bonus, room.policy);
    balance::a_warning_means_little_is_left(l, m);
}

/// A pass that changed which way the balance flows is journalled.
pub proof fn a_change_of_flow_is_journalled(
    room: Room,
    t: int,
    bonus: Option<u32>,
    docked: [bool; 2],
    present: [bool; 2],
    uptime: u64,
    names: Seq<Seq<char>>,
    after: Room,
    r: Step,
)
    requires
        room.passes(t, bonus, docked, present, uptime, names, after, r),
    ensures
        after.last_persisted_flow == Some(r.snapshot.flow),
        room.last_persisted_flow != Some(r.snapshot.flow) ==> r.persist is Some,
{
}

/// A pass sees the world as it is: every device that is taken away at home is cut off at night and
/// while nothing is left, and no other; and what is shown is what the ledger keeps.
pub proof fn a_pass_cuts_off_what_was_taken(
    room: Room,
    t: int,
    bonus: Option<u32>,
    docked: [bool; 2],
    present: [bool; 2],
    uptime: u64,
    names: Seq<Seq<char>>,
    after: Room,
    r: Step,
    i: int,
)
    requires
        room.passes(t, bonus, docked, present, uptime, names, after, r),
        0 <= i < 2,
    ensures
        r.snapshot.blocked@[i] <==> !docked@[i] && present@[i] && (room.policy.night_at(
            civil::local_of(t),
        ) || r.snapshot.balance_secs <= 0),
        r.snapshot.docked == docked,
        r.snapshot.present == present,
        r.snapshot.balance_secs == after.ledger.balance_secs,
        after.policy == room.policy,
        after.docking == room.docking,
        after.screen == room.screen,
{
    let m = Moment { utc: t, docked, present, policy: room.policy };
    let l = granted(room.ledger, bonus, room.policy);
    balance::every_device_taken_is_blocked(l, m, r.snapshot, i);
}

/// A grant counts before the pass is accounted for: where no time has passed since the last one, the
/// balance shown is higher by what was granted, as far as the cap allows.
pub proof fn a_grant_counts_at_once(
    room: Room,
    t: int,
    bonus: Option<u32>,
    docked: [bool; 2],
    present: [bool; 2],
    uptime: u64,
    names: Seq<Seq<char>>,
    after: Room,
    r: Step,
)
    requires
        room.passes(t, bonus, docked, present, uptime, names, after, r),
        room.ledger.last_tick is Some,
        room.ledger.last_tick->0 == t,
        room.policy.cap_secs <= i32::MAX,
        room.ledger.balance_secs <= room.policy.cap_secs,
    ensures
        bonus is None ==> r.snapshot.balance_secs == room.ledger.balance_secs,
        bonus is Some ==> r.snapshot.balance_secs == if room.ledger.balance_secs + bonus->0
            <= room.policy.cap_secs {
            room.ledger.balance_secs + bonus->0
        } else {
            room.policy.cap_secs as int
        },
{
    let m = Moment { utc: t, docked, present, policy: room.policy };
    let l = granted(room.ledger, bonus, room.policy);
    balance::a_gap_is_neither_charged_nor_credited(l, m, after.ledger);
    if let Some(secs) = bonus {
        balance::a_grant_is_worth_what_it_says(room.ledger, secs, room.policy);
    }
}

/// The balance is journalled with its instant when the flow differs from the one journalled last,
/// and when thirty seconds have passed since; and not otherwise.
pub proof fn the_journal_is_kept_up(
    room: Room,
    t: int,
    bonus: Option<u32>,
    docked: [bool; 2],
    present: [bool; 2],
    uptime: u64,
    names: Seq<Seq<char>>,
    after: Room,
    r: Step,
)
    requires
        room.passes(t, bonus, docked, present, uptime, names, after, r),
        i64::MIN <= t <= i64::MAX,
    ensures
        r.persist is Some <==> room.last_persisted_flow != Some(r.snapshot.flow) || uptime
            - room.last_journal >= 30,
        r.persist is Some ==> (r.persist->0).0 == r.snapshot.balance_secs && (r.persist->0).1 == t
            && after.last_journal == uptime,
        r.persist is None ==> after.last_journal == room.last_journal,
        after.last_tick is Some,
        after.last_tick->0 == t,
{
}

/// Of what happens, the parent is told when nothing is left and when a device is taken in the
/// night, by its name, and of nothing else.
pub proof fn the_parent_is_told_what_matters(e: Event, names: Seq<Seq<char>>)
    requires
        e matches Event::UndockedAtNight { device } ==> names[device as int].len() > 0
            && fixed::byte_len(names[device as int] + " nachts weggenommen"@) <= 160,
    ensures
        event_alert(e, names) == match e {
            Event::Exhausted => seq!["Zeit ist aufgebraucht"@],
            Event::UndockedAtNight { device } => seq![
                names[device as int] + " nachts weggenommen"@,
            ],
            _ => Seq::empty(),
        },
{
    if let Event::UndockedAtNight { device } = e {
        let name = names[device as int];
        let tail = " nachts weggenommen"@;
        let pieces = seq![name, tail];
        reveal_with_fuel(fixed::flat, 3);
        assert(pieces.drop_last() =~= seq![name]);
        assert(seq![name].drop_last() =~= Seq::<Seq<char>>::empty());
        assert(fixed::flat(pieces) =~= name + tail);
        assert(fixed::byte_len(Seq::<char>::empty()) == 0);
        fixed::what_fits_is_written(Seq::empty(), pieces, 160);
        assert(Seq::<char>::empty() + (name + tail) =~= name + tail);
    }
}

/// The parent is told of each event in turn, and each is logged.
pub proof fn events_are_told_in_turn(events: Seq<Event>, e: Event, names: Seq<Seq<char>>)
    ensures
        event_alerts(Seq::empty(), names) == Seq::<Seq<char>>::empty(),
        event_alerts(events.push(e), names) == event_alerts(events, names) + event_alert(e, names),
        event_lines(events, names).len() == events.len(),
        event_lines(events.push(e), names) == event_lines(events, names).push(event_line(e, names)),
{
    assert(events.push(e).drop_last() =~= events);
    assert(event_lines(events.push(e), names) =~= event_lines(events, names).push(
        event_line(e, names),
    ));
}

/// The parent is told of a strange tag at the reader, as it is printed, and of a reader that does
/// not answer.
pub proof fn the_parent_is_told_of_the_reader(d: Docked<Uid, 2>)
    ensures
        d.unknown is Some ==> Room::round_alerts(d).contains(
            "Unbekannter Tag "@ + scan::uid_text(d.unknown->0) + " am Leser"@,
        ),
        d.reader_fault ==> Room::round_alerts(d).contains("Leser antwortet nicht"@),
        d.unknown is None && !d.reader_fault ==> Room::round_alerts(d).len() == 0,
        d.unknown is Some && d.reader_fault ==> Room::round_alerts(d).len() == 2,
        d.unknown is Some != d.reader_fault ==> Room::round_alerts(d).len() == 1,
{
    let all = Room::round_alerts(d);
    if d.unknown is Some {
        assert(all[0] == "Unbekannter Tag "@ + scan::uid_text(d.unknown->0) + " am Leser"@);
    }
    if d.reader_fault {
        assert(all[all.len() - 1] == "Leser antwortet nicht"@);
    }
}

/// Passes keep their beat: one that is on time is followed a period after it was due, and one that
/// is late a period from now, so that none is run twice to catch up.
pub proof fn passes_keep_their_beat(next: int, now: int, period: int)
    requires
        period > 0,
    ensures
        now < next ==> beat_after(next, now, period) - next == period,
        now >= next ==> beat_after(next, now, period) - now == period,
        beat_after(next, now, period) > now,
{
}

/// The time of a pass is what the clock shows, or a second after the last pass where it cannot be
/// read.
pub proof fn a_pass_without_a_clock_is_a_second_later(room: Room, now: Result<i64, clock::Error>)
    requires
        room.last_tick is Some,
    ensures
        now is Ok ==> room.pass_time(now) == now->Ok_0,
        now is Err ==> room.pass_time(now) - room.last_tick->0 == 1,
{
}

/// The button stands in for the first device where it has no tag, and for no other: the second counts
/// as put back then.
pub proof fn the_button_stands_in_for_the_first_device(
    room: Room,
    seen: Seq<Uid>,
    button: bool,
    after: Docking<Uid, 2>,
    found: Docked<Uid, 2>,
)
    requires
        room.docking.read(seen, [button, true], after, found),
    ensures
        room.docking.known@[0] is None ==> found.docked@[0] == button,
        room.docking.known@[1] is None ==> found.docked@[1],
        room.docking.known@[0] is Some ==> (found.docked@[0] <==> seen.contains(
            room.docking.known@[0]->0,
        )),
        room.docking.known@[1] is Some ==> (found.docked@[1] <==> seen.contains(
            room.docking.known@[1]->0,
        )),
{
    crate::docking::a_device_is_docked_while_its_tag_is_seen(
        room.docking,
        seen,
        [button, true],
        after,
        found,
        0,
    );
    crate::docking::a_device_is_docked_while_its_tag_is_seen(
        room.docking,
        seen,
        [button, true],
        after,
        found,
        1,
    );
}

} // verus!
