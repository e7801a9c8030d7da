//! The daily ledger.
use medienzeit::civil::{self, days_from_civil, SECS_PER_DAY};
use medienzeit::policy::{AwayWindow, Policy};
use medienzeit::state::{Event, Ledger, Snapshot, WARNING_SECS};

fn berlin(y: i32, m: u32, d: u32, h: u32, mi: u32) -> i64 {
    let naive = days_from_civil(y, m, d) * SECS_PER_DAY + h as i64 * 3_600 + mi as i64 * 60;
    naive - civil::utc_offset(naive)
}

/// A policy with no away-windows and no grace, so tests opt into both explicitly.
fn plain_policy() -> Policy {
    let mut p = Policy::default();
    p.away.clear();
    p.grace_secs = 0;
    p
}

/// Run one tick per second from `start` through `start + secs` inclusive, the way
/// the firmware's 1 Hz loop does. Returns the final timestamp and snapshot.
///
/// The tick at `start` charges nothing (there is no preceding interval), so a run
/// of `secs` seconds while spending charges exactly `secs`.
fn run(
    l: &mut Ledger<2>,
    p: &Policy,
    start: i64,
    secs: i64,
    docked: [bool; 2],
) -> (i64, Snapshot<2>) {
    let mut snap = l.tick(start, docked, p).0;
    for t in 1..=secs {
        snap = l.tick(start + t, docked, p).0;
    }
    (start + secs, snap)
}

const DOCKED: [bool; 2] = [true, true];
const ONE_OUT: [bool; 2] = [false, true];
const BOTH_OUT: [bool; 2] = [false, false];

#[test]
fn docked_devices_do_not_spend() {
    let p = plain_policy();
    let mut l = Ledger::<2>::new();
    let (_, snap) = run(&mut l, &p, berlin(2026, 8, 3, 17, 0), 600, DOCKED);
    assert_eq!(snap.spent_secs, 0);
    assert_eq!(snap.remaining_secs, 60 * 60);
    assert!(!snap.spending);
}

#[test]
fn both_devices_out_still_drains_at_1x() {
    let p = plain_policy();
    let start = berlin(2026, 8, 3, 17, 0);

    let mut one = Ledger::<2>::new();
    let (_, one_snap) = run(&mut one, &p, start, 600, ONE_OUT);

    let mut both = Ledger::<2>::new();
    let (_, both_snap) = run(&mut both, &p, start, 600, BOTH_OUT);

    assert_eq!(one_snap.spent_secs, 600);
    assert_eq!(
        both_snap.spent_secs, one_snap.spent_secs,
        "two devices undocked must not drain faster than one"
    );
}

#[test]
fn docking_one_of_two_keeps_the_clock_running() {
    let p = plain_policy();
    let mut l = Ledger::<2>::new();
    let (mid, _) = run(&mut l, &p, berlin(2026, 8, 3, 17, 0), 300, BOTH_OUT);
    let (_, snap) = run(&mut l, &p, mid, 300, ONE_OUT);
    assert_eq!(snap.spent_secs, 600, "rate is unchanged by docking one device");
    assert!(snap.spending);
}

#[test]
fn away_window_suppresses_spending() {
    let mut p = plain_policy();
    let _ = p.away.push(AwayWindow::hm(AwayWindow::WEEKDAYS, 7, 30, 15, 0));
    let mut l = Ledger::<2>::new();
    // Monday 09:00, undocked the whole hour — at school.
    let (_, snap) = run(&mut l, &p, berlin(2026, 8, 3, 9, 0), 3_600, BOTH_OUT);
    assert_eq!(snap.spent_secs, 0);
    assert!(snap.away);
    assert!(!snap.spending);
}

#[test]
fn spending_resumes_when_the_away_window_ends() {
    let mut p = plain_policy();
    let _ = p.away.push(AwayWindow::hm(AwayWindow::WEEKDAYS, 7, 30, 15, 0));
    let mut l = Ledger::<2>::new();
    // 14:55 -> 15:05: five minutes inside the window, five outside.
    let (_, snap) = run(&mut l, &p, berlin(2026, 8, 3, 14, 55), 600, ONE_OUT);

    // 301, not 300: each tick charges the second that *preceded* it at the rate
    // sampled *at* the tick. The tick landing exactly on 15:00 therefore bills the
    // final second of the away window. One second of slop per boundary crossing is
    // the price of reacting to an undock instantly rather than a tick late.
    assert_eq!(snap.spent_secs, 301);
}

#[test]
fn exhaustion_fires_once_and_restores_on_bonus() {
    let mut p = plain_policy();
    p.weekday_secs = 10;
    let mut l = Ledger::<2>::new();
    let start = berlin(2026, 8, 3, 17, 0);

    // Run well past zero; Exhausted must not re-fire on every subsequent tick.
    let mut exhausted_count = 0;
    for t in 0..=29 {
        let (_, ev) = l.tick(start + t, ONE_OUT, &p);
        exhausted_count += ev.iter().filter(|e| **e == Event::Exhausted).count();
    }
    assert_eq!(exhausted_count, 1, "Exhausted is edge-triggered, not level-triggered");
    assert_eq!(l.spent_secs, 29);

    l.grant_bonus(60);
    let (snap, ev) = l.tick(start + 31, ONE_OUT, &p);
    assert!(ev.contains(&Event::Restored));
    assert!(!snap.exhausted);
    // Allowance 10 + 60 bonus = 70; spent 29 + the 2 s gap = 31.
    assert_eq!(snap.allowance_secs, 70);
    assert_eq!(snap.spent_secs, 31);
    assert_eq!(snap.remaining_secs, 39);
}

#[test]
fn warning_fires_once_crossing_the_threshold() {
    let mut p = plain_policy();
    p.weekday_secs = WARNING_SECS + 5;
    let mut l = Ledger::<2>::new();
    let start = berlin(2026, 8, 3, 17, 0);

    let mut warnings = 0;
    for t in 0..10 {
        let (_, ev) = l.tick(start + t, ONE_OUT, &p);
        warnings += ev.iter().filter(|e| **e == Event::Warning).count();
    }
    assert_eq!(warnings, 1);
}

#[test]
fn day_reset_clears_spend_and_bonus() {
    let p = plain_policy();
    let mut l = Ledger::<2>::new();
    // Spend 20 min on Monday evening.
    let (_, snap) = run(&mut l, &p, berlin(2026, 8, 3, 22, 0), 1_200, ONE_OUT);
    l.grant_bonus(600);
    assert_eq!(snap.spent_secs, 1_200);

    // Jump to Tuesday 04:00. The gap is huge, so it must not be charged.
    let next = berlin(2026, 8, 4, 4, 0);
    let (snap, ev) = l.tick(next, ONE_OUT, &p);
    assert!(ev.contains(&Event::DayReset));
    assert_eq!(snap.spent_secs, 0);
    assert_eq!(snap.allowance_secs, 60 * 60, "bonus does not carry over");
}

#[test]
fn no_carryover_of_unused_time() {
    let p = plain_policy();
    let mut l = Ledger::<2>::new();
    // Monday: spend nothing at all.
    let (_, _) = l.tick(berlin(2026, 8, 3, 20, 0), DOCKED, &p);
    // Tuesday: still exactly one day's allowance.
    let (snap, _) = l.tick(berlin(2026, 8, 4, 20, 0), DOCKED, &p);
    assert_eq!(snap.allowance_secs, 60 * 60);
}

#[test]
fn long_gap_is_not_charged() {
    let p = plain_policy();
    let mut l = Ledger::<2>::new();
    let start = berlin(2026, 8, 3, 17, 0);
    l.tick(start, ONE_OUT, &p);
    // Same day, but an hour later with no ticks in between: a crash or a sleep.
    let (snap, ev) = l.tick(start + 3_600, ONE_OUT, &p);
    assert!(matches!(ev[0], Event::TimeJump { .. }));
    assert_eq!(snap.spent_secs, 0);
}

#[test]
fn a_normal_one_second_tick_is_charged() {
    let p = plain_policy();
    let mut l = Ledger::<2>::new();
    let start = berlin(2026, 8, 3, 17, 0);
    l.tick(start, ONE_OUT, &p);
    let (snap, _) = l.tick(start + 1, ONE_OUT, &p);
    assert_eq!(snap.spent_secs, 1);
}

#[test]
fn starts_assuming_docked() {
    // If a PN532 never initialises we must not burn the whole day silently.
    let l = Ledger::<2>::new();
    assert!(!l.any_undocked());
}

/// Grace policy: 3 minutes, no away-windows.
fn grace_policy() -> Policy {
    let mut p = plain_policy();
    p.grace_secs = 180;
    p
}

#[test]
fn brief_pickup_within_grace_costs_nothing() {
    let p = grace_policy();
    let mut l = Ledger::<2>::new();
    let start = berlin(2026, 8, 3, 17, 0);

    // Picked up for 90 s to start a podcast, then put back.
    let (t, snap) = run(&mut l, &p, start, 90, ONE_OUT);
    assert_eq!(snap.spent_secs, 0, "nothing billed while inside grace");
    assert!(snap.in_grace);
    assert!(!snap.spending);
    assert_eq!(snap.grace_remaining_secs, 90);

    let (_, snap) = run(&mut l, &p, t, 5, DOCKED);
    assert_eq!(snap.spent_secs, 0, "redocking in time forgives the pickup");
    assert!(!snap.in_grace);
}

#[test]
fn overrunning_grace_bills_the_whole_pickup_retroactively() {
    let p = grace_policy();
    let mut l = Ledger::<2>::new();
    // Out for 5 minutes: the 3 grace minutes are billed too, not just the excess.
    let (_, snap) = run(&mut l, &p, berlin(2026, 8, 3, 17, 0), 300, ONE_OUT);
    assert_eq!(snap.spent_secs, 300);
    assert!(snap.spending);
    assert!(!snap.in_grace);
}

#[test]
fn grace_cannot_be_farmed_into_free_time() {
    // The exploit this guards against: undock, use for just under the grace
    // period, redock for a second, repeat forever. Retroactive billing means the
    // only way to stay free is to genuinely put the device back — but a *long*
    // session broken into chunks must still cost close to its real length.
    let p = grace_policy();
    let mut l = Ledger::<2>::new();
    let mut t = berlin(2026, 8, 3, 17, 0);

    // Ten cycles of "out for 170 s, back for 2 s" — 28 minutes of wall time.
    for _ in 0..10 {
        let (next, _) = run(&mut l, &p, t, 170, ONE_OUT);
        let (next, _) = run(&mut l, &p, next, 2, DOCKED);
        t = next;
    }
    // Each cycle really is under the grace period, so it really is free. That is
    // the intended deal: she is genuinely docking the device every three minutes.
    assert_eq!(l.spent_secs, 0);

    // But the moment one pickup runs long, the full pickup is billed — there is no
    // per-pickup free allowance carried into it.
    let (_, snap) = run(&mut l, &p, t, 600, ONE_OUT);
    assert_eq!(snap.spent_secs, 600);
}

#[test]
fn grace_restarts_only_after_a_genuine_redock() {
    let p = grace_policy();
    let mut l = Ledger::<2>::new();
    let start = berlin(2026, 8, 3, 17, 0);

    // Out for 4 minutes: grace consumed, now billing.
    let (t, snap) = run(&mut l, &p, start, 240, ONE_OUT);
    assert_eq!(snap.spent_secs, 240);

    // Docking the *other* device changes nothing — the first is still out.
    let (t, snap) = run(&mut l, &p, t, 60, ONE_OUT);
    assert_eq!(snap.spent_secs, 300, "no fresh grace without docking everything");
    assert!(!snap.in_grace);

    // Both docked, then picked up again: a new pickup, fresh grace.
    let (t, _) = run(&mut l, &p, t, 5, DOCKED);
    let (_, snap) = run(&mut l, &p, t, 60, ONE_OUT);
    assert_eq!(snap.spent_secs, 300);
    assert!(snap.in_grace);
}

#[test]
fn away_window_ending_mid_pickup_forgives_and_restarts_grace() {
    let mut p = grace_policy();
    let _ = p.away.push(AwayWindow::hm(AwayWindow::WEEKDAYS, 7, 30, 15, 0));
    let mut l = Ledger::<2>::new();
    // Undocked from 14:58, so the away window covers the first two minutes.
    let (_, snap) = run(&mut l, &p, berlin(2026, 8, 3, 14, 58), 240, ONE_OUT);
    // Grace starts at 15:00 when billing would otherwise begin, and 2 min later
    // it has not yet lapsed.
    assert!(snap.in_grace);
    assert_eq!(snap.spent_secs, 0);
}

#[test]
fn grace_does_not_delay_exhaustion_once_billing_starts() {
    let mut p = grace_policy();
    p.weekday_secs = 240;
    let mut l = Ledger::<2>::new();
    let start = berlin(2026, 8, 3, 17, 0);

    let mut exhausted_at = None;
    for t in 0..=400 {
        let (snap, ev) = l.tick(start + t, ONE_OUT, &p);
        if ev.contains(&Event::Exhausted) {
            exhausted_at = Some((t, snap.spent_secs));
        }
    }
    // 240 s of budget, billed retroactively from the undock, so zero is reached at
    // t=240 — grace delays the *display*, never the total.
    assert_eq!(exhausted_at, Some((240, 240)));
}

#[test]
fn dst_spring_forward_does_not_grant_or_steal_budget() {
    let p = plain_policy();
    let mut l = Ledger::<2>::new();
    // 2027-03-28 00:30 UTC: one real hour spanning the local 02:00 -> 03:00 jump.
    let start = days_from_civil(2027, 3, 28) * SECS_PER_DAY + 30 * 60;
    let (_, snap) = run(&mut l, &p, start, 3_600, ONE_OUT);
    assert_eq!(snap.spent_secs, 3_600, "one real hour is charged as one hour");
}
