//! The passes of the room.
use medienzeit::balance::{Event, Flow, Ledger, Policy};
use medienzeit::clock::Error;
use medienzeit::docking::Docking;
use medienzeit::pn5180::Uid;
use medienzeit::room::{next_beat, report, Room};
use medienzeit::rtc;
use medienzeit::screen::Refresh;
use medienzeit::sim::berlin;

const NAMES: [&str; 2] = ["Handy", "Tablet"];

fn tag(n: u8) -> Uid {
    Uid([n, 0, 0, 0, 0, 0, 0x04, 0xe0])
}

fn room(balance: i32) -> Room {
    Room::new(
        Docking::new([Some(tag(1)), Some(tag(2))]),
        Ledger::with_balance(balance),
        Policy::default(),
        0,
    )
}

fn four() -> i64 {
    berlin(2026, 8, 3, 16, 0)
}

#[test]
fn nothing_is_accounted_before_the_clock_is_trusted() {
    let mut r = room(600);
    match r.show_startup(None) {
        Err(line) => assert_eq!(line, "room: no trustworthy clock yet, holding accounting"),
        Ok(_) => panic!("there is no clock"),
    }
    assert!(r.step(Ok(four()), Some(600), [true; 2], [true; 2], 1, &NAMES).is_none());
    assert_eq!(r.ledger.balance_secs, 600);

    let lines = r.take_clock_correction(four(), Ok(four() - 3), Ok(()));
    assert_eq!(
        lines,
        vec![
            "rtc: drift vs sntp 3s",
            "rtc: set from sntp",
            "room: clock trusted, accounting starts",
        ]
    );
    assert!(r.step(Ok(four()), None, [true; 2], [true; 2], 1, &NAMES).is_some());
}

#[test]
fn a_clock_that_cannot_be_set_is_told() {
    let mut r = room(600);
    r.take_clock_correction(four(), Err(Error::Bus), Ok(()));
    let lines = r.take_clock_correction(four() + 5, Err(Error::Bus), Err(Error::Bus));
    assert_eq!(lines, vec!["rtc: set failed (Bus)"]);
    let lines =
        r.take_clock_correction(0, Err(Error::Bus), Err(Error::Codec(rtc::Error::OutOfRange)));
    assert_eq!(lines, vec!["rtc: set failed (Codec(OutOfRange))"]);
    assert_eq!(r.last_tick, Some(0));
}

#[test]
fn startup_draws_what_the_clock_knows() {
    let mut r = room(600);
    let Ok((s, redraw)) = r.show_startup(Some(four())) else {
        panic!("the clock is trusted");
    };
    assert_eq!(redraw, Some(Refresh::Full));
    assert_eq!(s.balance_secs, 600);
    assert_eq!(
        r.redrawn(&s, Refresh::Full, 1_234_567),
        "screen: Full redraw at 16:00, balance 600s, took 1234.5ms"
    );
    let step = r.step(Ok(four() + 1), None, [true; 2], [false; 2], 1, &NAMES).unwrap();
    assert_eq!(step.redraw, None);
}

#[test]
fn the_reader_reports_edges_once() {
    let mut r = room(600);
    let round = r.poll_reader(Some(&[tag(1), tag(2)]), true, 0, &NAMES);
    assert_eq!(round.found.docked, [true, true]);
    assert!(round.lines.is_empty() && round.alerts.is_empty());

    let round = r.poll_reader(Some(&[tag(2), tag(9)]), true, 3, &NAMES);
    assert_eq!(
        round.lines,
        vec![
            "reader: rf recoveries 3",
            "reader: Handy genommen",
            "  [alert] unknown tag e004000000000009",
        ]
    );
    assert_eq!(round.alerts, vec!["Unbekannter Tag e004000000000009 am Leser"]);

    let round = r.poll_reader(Some(&[tag(1), tag(2), tag(9)]), true, 3, &NAMES);
    assert_eq!(round.lines, vec!["reader: Handy zurückgelegt"]);

    for _ in 0..4 {
        assert!(r.poll_reader(None, true, 3, &NAMES).alerts.is_empty());
    }
    let round = r.poll_reader(None, true, 3, &NAMES);
    assert_eq!(round.found.docked, [true, true]);
    assert_eq!(round.lines, vec!["  [alert] reader not responding"]);
    assert_eq!(round.alerts, vec!["Leser antwortet nicht"]);
}

#[test]
fn the_button_stands_in_for_a_missing_tag() {
    let mut r = Room::new(Docking::new([None, None]), Ledger::with_balance(1), Policy::default(), 0);
    assert_eq!(r.poll_reader(Some(&[]), true, 0, &NAMES).found.docked, [true, true]);
    assert_eq!(r.poll_reader(Some(&[]), false, 0, &NAMES).found.docked, [false, true]);
}

#[test]
fn a_pass_grants_ticks_chimes_and_journals() {
    let mut r = room(400);
    r.take_clock_correction(four(), Err(Error::Bus), Ok(()));
    let step = r.step(Ok(four()), Some(60), [false, true], [true; 2], 10, &NAMES).unwrap();
    assert_eq!(step.lines, vec!["room: +60s granted"]);
    assert_eq!(step.snapshot.balance_secs, 460);
    assert_eq!(step.persist, Some((460, four())));
    assert_eq!(step.redraw, Some(Refresh::Full));
    assert!(!step.chime);

    // The flow stands and the period has not passed.
    let step = r.step(Ok(four() + 1), None, [false, true], [true; 2], 11, &NAMES).unwrap();
    assert_eq!(step.persist, None);

    let mut chimes = 0;
    let mut last = None;
    for t in 2..=180 {
        let step = r
            .step(Ok(four() + t), None, [false, true], [true; 2], 10 + t as u64, &NAMES)
            .unwrap();
        if step.chime {
            chimes += 1;
            assert_eq!(step.lines, vec!["  [event] 5 minutes left"]);
        }
        last = Some(step);
    }
    assert_eq!(chimes, 1);
    let last = last.unwrap();
    assert_eq!(last.snapshot.flow, Flow::Draining);
    assert_eq!(last.snapshot.balance_secs, 280);
    assert_eq!(last.persist, Some((280, four() + 180)));
}

#[test]
fn an_unreadable_clock_counts_on() {
    let mut r = room(600);
    r.take_clock_correction(four(), Err(Error::Bus), Ok(()));
    r.step(Ok(four()), None, [true; 2], [true; 2], 0, &NAMES);
    r.step(Err(Error::Bus), None, [true; 2], [true; 2], 1, &NAMES);
    assert_eq!(r.last_tick, Some(four() + 1));
}

#[test]
fn the_journal_is_due_every_half_minute() {
    let mut r = room(600);
    r.take_clock_correction(four(), Err(Error::Bus), Ok(()));
    let first = r.step(Ok(four()), None, [true; 2], [true; 2], 100, &NAMES).unwrap();
    assert!(first.persist.is_some());
    let s = r.step(Ok(four() + 29), None, [true; 2], [true; 2], 129, &NAMES).unwrap();
    assert_eq!(s.persist, None);
    let s = r.step(Ok(four() + 30), None, [true; 2], [true; 2], 130, &NAMES).unwrap();
    assert_eq!(s.persist, Some((s.snapshot.balance_secs, four() + 30)));
}

#[test]
fn new_rules_take_effect() {
    let mut r = room(600);
    let mut p = Policy::default();
    p.cap_secs = 60;
    r.take_policy_change(p);
    r.take_clock_correction(four(), Err(Error::Bus), Ok(()));
    let s = r.step(Ok(four()), None, [true; 2], [true; 2], 0, &NAMES).unwrap();
    assert_eq!(s.snapshot.cap_secs, 60);
}

#[test]
fn only_what_a_parent_wants_to_know_is_pushed() {
    let say = |e: Event| report(&e, &NAMES);
    assert_eq!(
        say(Event::Exhausted),
        ("  [event] EXHAUSTED".to_string(), Some("Zeit ist aufgebraucht".to_string()))
    );
    assert_eq!(
        say(Event::UndockedAtNight { device: 1 }),
        (
            "  [event] Tablet TAKEN AWAY AT NIGHT".to_string(),
            Some("Tablet nachts weggenommen".to_string())
        )
    );
    for (e, line) in [
        (Event::Restored, "  [event] restored"),
        (Event::Warning, "  [event] 5 minutes left"),
        (Event::NightBegan, "  [event] night began"),
        (Event::NightEnded, "  [event] night ended"),
        (Event::TimeJump { gap_secs: 301 }, "  [event] time jump 301s ignored"),
    ] {
        assert_eq!(say(e), (line.to_string(), None));
    }
}

#[test]
fn an_alert_leaves_out_what_does_not_fit() {
    let long = "x".repeat(150);
    let longer = "x".repeat(161);
    let e = Event::UndockedAtNight { device: 0 };
    assert_eq!(report(&e, &[long.as_str(), "b"]).1, Some(long.clone()));
    assert_eq!(report(&e, &[longer.as_str(), "b"]).1, None);
    let name = "ü".repeat(70);
    assert_eq!(report(&e, &[name.as_str(), "b"]).1, Some(format!("{name} nachts weggenommen")));
}

#[test]
fn a_late_pass_gives_up_its_beat() {
    assert_eq!(next_beat(100, 90, 10), 110);
    assert_eq!(next_beat(100, 100, 10), 110);
    assert_eq!(next_beat(100, 137, 10), 147);
}
