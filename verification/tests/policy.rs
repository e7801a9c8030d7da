//! The daily policy: when a day turns, how much it allows, when nothing counts.
use medienzeit::civil::{self, days_from_civil, SECS_PER_DAY};
use medienzeit::policy::{AwayWindow, Policy};

fn utc_of(y: i32, m: u32, d: u32, h: u32, mi: u32) -> i64 {
    days_from_civil(y, m, d) * SECS_PER_DAY + h as i64 * 3_600 + mi as i64 * 60
}

/// Berlin local time -> UTC, for tests that want to talk in wall-clock terms.
fn berlin(y: i32, m: u32, d: u32, h: u32, mi: u32) -> i64 {
    let naive = utc_of(y, m, d, h, mi);
    naive - civil::utc_offset(naive)
}

#[test]
fn day_rolls_over_at_0400_not_midnight() {
    let p = Policy::default();
    // 2026-08-03 is a Monday.
    let late_sunday_night = p.day_key(berlin(2026, 8, 3, 1, 30));
    let early_monday = p.day_key(berlin(2026, 8, 3, 3, 59));
    let monday_proper = p.day_key(berlin(2026, 8, 3, 4, 0));
    let monday_evening = p.day_key(berlin(2026, 8, 3, 22, 0));

    assert_eq!(late_sunday_night, early_monday, "01:30 and 03:59 are the same day");
    assert_eq!(monday_proper, monday_evening, "04:00 and 22:00 are the same day");
    assert_eq!(monday_proper, early_monday + 1, "04:00 starts a new day");
}

#[test]
fn weekend_gets_the_larger_allowance() {
    let p = Policy::default();
    // Saturday 2026-08-01 at 10:00 local.
    assert_eq!(p.allowance_secs(p.day_key(berlin(2026, 8, 1, 10, 0))), 120 * 60);
    // Monday 2026-08-03 at 10:00 local.
    assert_eq!(p.allowance_secs(p.day_key(berlin(2026, 8, 3, 10, 0))), 60 * 60);
}

#[test]
fn friday_night_is_still_a_weekday_budget() {
    // Documenting the deliberate choice: the day that began Friday 04:00 keeps
    // the weekday allowance right through Friday night until Saturday 04:00.
    let p = Policy::default();
    assert_eq!(p.allowance_secs(p.day_key(berlin(2026, 7, 31, 23, 0))), 60 * 60);
    assert_eq!(p.allowance_secs(p.day_key(berlin(2026, 8, 1, 5, 0))), 120 * 60);
}

#[test]
fn away_window_boundaries_are_half_open() {
    let p = Policy::default(); // Mon-Fri 07:30-15:00
    let at = |h, mi| p.is_away(&civil::local(berlin(2026, 8, 3, h, mi)));
    assert!(!at(7, 29));
    assert!(at(7, 30), "start is inclusive");
    assert!(at(14, 59));
    assert!(!at(15, 0), "end is exclusive");
}

#[test]
fn away_window_does_not_apply_at_the_weekend() {
    let p = Policy::default();
    // Saturday 2026-08-01, 10:00 — inside the time range but not the day mask.
    assert!(!p.is_away(&civil::local(berlin(2026, 8, 1, 10, 0))));
}

#[test]
fn wrapping_away_window() {
    let mut p = Policy::default();
    p.away.clear();
    // "Asleep": every day 21:00 -> 06:30.
    let _ = p.away.push(AwayWindow::hm(AwayWindow::EVERY_DAY, 21, 0, 6, 30));
    let at = |h, mi| p.is_away(&civil::local(berlin(2026, 8, 3, h, mi)));
    assert!(at(22, 0));
    assert!(at(2, 0));
    assert!(at(6, 29));
    assert!(!at(6, 30));
    assert!(!at(20, 59));
}
