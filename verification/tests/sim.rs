//! The box on a desk.
use medienzeit::balance::Flow;
use medienzeit::civil;
use medienzeit::sim::{berlin, daily, parse_args, scenarios, session, slice_end, today, Mode};

/// The first frames of a session, before anything is pressed.
#[test]
fn windowed_loop_survives_its_first_frames_headless() {
    let mut s = daily::Session::start();
    for _ in 0..3 {
        let lines = s.advance(None, 0);
        assert!(lines.is_empty());
    }

    // Startup state: Monday 16:00, both devices on their cradles, full weekday
    // budget, clock deliberately still.
    assert_eq!(s.snapshot.docked, [true, true]);
    assert!(!s.snapshot.spending);
    assert!(!s.snapshot.exhausted);
    assert_eq!(s.snapshot.allowance_secs, 60 * 60);
}

#[test]
fn wall_clock_times_lead_to_instants_that_show_them() {
    for (m, d, h, mi) in [(1, 15, 12, 0), (7, 15, 23, 59), (8, 3, 16, 0), (12, 31, 0, 0)] {
        let l = civil::local(berlin(2026, m, d, h, mi));
        assert_eq!((l.year, l.month, l.day, l.hour, l.minute, l.second), (2026, m, d, h, mi, 0));
    }
    assert_eq!(berlin(2026, 8, 3, 16, 0), 1_785_765_600);
    // Half an hour before the clocks go forward, half an hour after, and in between.
    assert_eq!(berlin(2027, 3, 28, 1, 30), 1_806_193_800);
    assert_eq!(berlin(2027, 3, 28, 3, 30), 1_806_197_400);
    assert_eq!(berlin(2027, 3, 28, 2, 30), 1_806_193_800);
    // Before the clocks go back, the second of the two hours, and after.
    assert_eq!(berlin(2027, 10, 31, 1, 30), 1_824_939_000);
    assert_eq!(berlin(2027, 10, 31, 2, 30), 1_824_946_200);
    assert_eq!(berlin(2027, 10, 31, 3, 30), 1_824_949_800);
    let l = civil::local(today(berlin(2026, 8, 3, 16, 0), 22, 30));
    assert_eq!((l.day, l.hour, l.minute), (3, 22, 30));
}

#[test]
fn slices_are_a_minute_at_most() {
    assert_eq!(slice_end(100, 1_000), 160);
    assert_eq!(slice_end(100, 150), 150);
    assert_eq!(slice_end(100, 160), 160);
}

fn named(name: &str) -> scenarios::Scenario {
    scenarios::all().into_iter().find(|s| s.name == name).expect("a scenario of that name")
}

#[test]
fn the_scenarios_show_what_they_say() {
    assert_eq!(scenarios::all().len(), 10);

    let s = named("01-docked-filling").snapshot;
    assert_eq!((s.balance_secs, s.flow), (2_460, Flow::Filling));
    let s = named("02-draining").snapshot;
    assert_eq!((s.balance_secs, s.flow), (3_600, Flow::Draining));
    let s = named("03-grace").snapshot;
    assert_eq!((s.balance_secs, s.flow, s.in_grace), (3_000, Flow::Held, true));
    let s = named("04-out-and-about").snapshot;
    assert_eq!((s.balance_secs, s.flow), (1_980, Flow::Filling));
    let s = named("05-warning").snapshot;
    assert_eq!((s.balance_secs, s.flow), (240, Flow::Draining));
    let s = named("06-exhausted").snapshot;
    assert_eq!((s.balance_secs, s.blocked), (0, [true, false]));
    let s = named("07-in-debt").snapshot;
    assert_eq!((s.balance_secs, s.blocked), (-540, [true, false]));
    let s = named("08-night-docked").snapshot;
    assert_eq!((s.balance_secs, s.night, s.blocked), (2_880, true, [false, false]));
    let s = named("09-night-undocked").snapshot;
    assert_eq!((s.balance_secs, s.flow, s.blocked), (2_700, Flow::Held, [true, false]));
    let s = named("10-near-cap").snapshot;
    assert_eq!((s.balance_secs, s.cap_secs), (10_320, 10_800));
    assert_eq!(named("10-near-cap").description, "Saved up close to the cap");
}

#[test]
fn the_daily_session_runs_in_slices() {
    let mut s = daily::Session::start();
    let p = s.press(daily::Key::Device1);
    assert_eq!(p.line.as_deref(), Some("device 1 UNDOCKED"));
    // The first slice begins the pickup; from its end on, time is billed.
    s.advance(None, 60);
    s.advance(None, 600);
    assert_eq!(s.snapshot.spent_secs + s.ledger.pending_secs, 660);
    assert!(s.snapshot.spending);
    let p = s.press(daily::Key::Device1);
    assert_eq!(p.line.as_deref(), Some("device 1 docked"));
    let p = s.press(daily::Key::Device2);
    assert_eq!(p.line.as_deref(), Some("device 2 UNDOCKED"));
}

#[test]
fn the_daily_session_reports_its_events() {
    let mut s = daily::Session::start();
    s.press(daily::Key::Device1);
    let lines = s.advance(None, 4_000);
    assert_eq!(
        lines,
        vec![
            "  [event] 5 minutes left — chime",
            "  [event] EXHAUSTED — block both devices",
        ]
    );
    let p = s.press(daily::Key::Bonus);
    assert_eq!(p.line.as_deref(), Some("granted 10 bonus minutes"));
    assert_eq!(s.advance(None, 1), vec!["  [event] restored — unblock both devices"]);

    let p = s.press(daily::Key::NextDay);
    assert_eq!(p.jump, Some(berlin(2026, 8, 4, 4, 0)));
    assert_eq!(s.advance(p.jump, 0), vec!["  [event] day reset — budget restored"]);
    assert_eq!(s.snapshot.spent_secs, 0);

    let p = s.press(daily::Key::AwayWindow);
    assert_eq!(p.jump, Some(berlin(2026, 8, 3, 9, 0)));
    s.advance(p.jump, 0);
    assert!(s.snapshot.away);
    assert_eq!(s.advance(Some(s.now + 400), 0), vec!["  [event] time jump of 400s ignored"]);
}

#[test]
fn a_paused_clock_stands_still() {
    let mut s = daily::Session::start();
    let before = s.now;
    assert_eq!(s.press(daily::Key::Pause).line.as_deref(), Some("clock paused"));
    s.advance(None, 600);
    assert_eq!(s.now, before);
    assert_eq!(s.press(daily::Key::Pause).line.as_deref(), Some("clock running"));
    s.advance(None, 600);
    assert_eq!(s.now, before + 600);
}

#[test]
fn screenshots_are_numbered() {
    let mut s = daily::Session::start();
    let p = s.press(daily::Key::Shot);
    assert_eq!(p.shot.as_deref(), Some("medienzeit-00.png"));
    assert_eq!(p.line.as_deref(), Some("saved medienzeit-00.png"));
    assert_eq!(s.press(daily::Key::Shot).shot.as_deref(), Some("medienzeit-01.png"));
    assert_eq!(daily::shot_name(123), "medienzeit-123.png");
    let p = s.press(daily::Key::Quit);
    assert!(p.quit);
    assert!(p.line.is_none() && p.jump.is_none() && p.shot.is_none());
}

#[test]
fn the_balance_session_follows_its_keys() {
    let mut s = session::Session::start();
    assert_eq!(s.snapshot.balance_secs, 1_800);
    assert_eq!(s.press(session::Key::Device1).line.as_deref(), Some("device 1 UNDOCKED"));
    s.advance(None, 600);
    assert_eq!(s.snapshot.flow, Flow::Draining);
    assert_eq!(s.snapshot.balance_secs, 1_200);

    assert_eq!(s.press(session::Key::Home1).line.as_deref(), Some("device 1 AWAY"));
    s.advance(None, 100);
    assert_eq!(s.snapshot.flow, Flow::Filling);
    assert_eq!(s.snapshot.balance_secs, 1_210);
    assert_eq!(s.press(session::Key::Home1).line.as_deref(), Some("device 1 at home"));
    assert_eq!(s.press(session::Key::Home2).line.as_deref(), Some("device 2 AWAY"));

    assert_eq!(s.press(session::Key::Bonus).line.as_deref(), Some("granted 10 bonus minutes"));
    assert_eq!(s.ledger.balance_secs, 1_810);

    let p = s.press(session::Key::Hour);
    assert_eq!(p.jump, Some(s.now + 3_600));
    assert_eq!(s.advance(p.jump, 0), vec!["  [event] time jump 3600s ignored"]);

    let p = s.press(session::Key::Night);
    assert_eq!(p.jump, Some(berlin(2026, 8, 3, 22, 30)));
    let lines = s.advance(p.jump, 0);
    assert!(lines.contains(&"  [event] night began".to_string()));
    assert!(lines.contains(&"  [event] Handy TAKEN AWAY AT NIGHT".to_string()));
    assert_eq!(s.press(session::Key::Device2).line.as_deref(), Some("device 2 UNDOCKED"));
    assert_eq!(s.press(session::Key::Pause).line.as_deref(), Some("clock paused"));
    assert_eq!(s.press(session::Key::Shot).shot.as_deref(), Some("medienzeit-00.png"));
    assert!(s.press(session::Key::Quit).quit);
}

#[test]
fn arguments_choose_the_mode() {
    fn args(a: &[&str]) -> Vec<String> {
        a.iter().map(|s| s.to_string()).collect()
    }
    assert!(matches!(parse_args(&args(&[])), Mode::Interactive));
    assert!(matches!(parse_args(&args(&["--shots", "x", "-h"])), Mode::Help));
    assert!(matches!(parse_args(&args(&["--help"])), Mode::Help));
    assert!(matches!(parse_args(&args(&["--shots", "dir"])), Mode::Shots(d) if d == "dir"));
    assert!(matches!(parse_args(&args(&["--shots", "--x"])), Mode::Shots(d) if d == "shots"));
    assert!(matches!(parse_args(&args(&["--shots"])), Mode::Shots(d) if d == "shots"));
}
