//! Civil time: dates, weekdays and the Berlin offset.
use medienzeit::civil::{
    civil_from_days, days_from_civil, days_in_month, last_sunday, local, utc_offset,
    weekday_from_days, MON, SAT, SECS_PER_DAY, SUN,
};

fn utc_of(y: i32, m: u32, d: u32, h: u32, mi: u32) -> i64 {
    days_from_civil(y, m, d) * SECS_PER_DAY + h as i64 * 3_600 + mi as i64 * 60
}

#[test]
fn civil_roundtrips() {
    for days in -20_000..20_000 {
        let (y, m, d) = civil_from_days(days);
        assert_eq!(days_from_civil(y, m, d), days, "roundtrip failed at {days}");
    }
}

#[test]
fn epoch_is_a_thursday() {
    assert_eq!(days_from_civil(1970, 1, 1), 0);
    assert_eq!(weekday_from_days(0), 3);
}

#[test]
fn known_dates() {
    assert_eq!(civil_from_days(19_723), (2024, 1, 1));
    // 2024-01-01 was a Monday.
    assert_eq!(weekday_from_days(days_from_civil(2024, 1, 1)), MON);
    // 2026-08-01 is a Saturday.
    assert_eq!(weekday_from_days(days_from_civil(2026, 8, 1)), SAT);
}

#[test]
fn leap_years() {
    assert_eq!(days_in_month(2024, 2), 29);
    assert_eq!(days_in_month(2025, 2), 28);
    assert_eq!(days_in_month(2000, 2), 29);
    assert_eq!(days_in_month(1900, 2), 28);
}

#[test]
fn last_sundays_are_sundays() {
    for y in 2024..2036 {
        for m in [3, 10] {
            let d = last_sunday(y, m);
            assert_eq!(weekday_from_days(days_from_civil(y, m, d)), SUN);
            // …and it really is the *last* one.
            assert!(d + 7 > days_in_month(y, m));
        }
    }
}

#[test]
fn dst_spring_forward_2027() {
    // 2027-03-28 is the last Sunday in March.
    assert_eq!(last_sunday(2027, 3), 28);
    // 00:59 UTC is still CET (+1) => 01:59 local.
    let before = utc_of(2027, 3, 28, 0, 59);
    assert_eq!(utc_offset(before), 3_600);
    assert_eq!(local(before).hour, 1);
    assert_eq!(local(before).minute, 59);
    // 01:00 UTC flips to CEST (+2) => local jumps 02:00 -> 03:00.
    let after = utc_of(2027, 3, 28, 1, 0);
    assert_eq!(utc_offset(after), 7_200);
    assert_eq!(local(after).hour, 3);
    assert_eq!(local(after).minute, 0);
}

#[test]
fn dst_fall_back_2027() {
    // 2027-10-31 is the last Sunday in October.
    assert_eq!(last_sunday(2027, 10), 31);
    let before = utc_of(2027, 10, 31, 0, 59);
    assert_eq!(utc_offset(before), 7_200);
    assert_eq!(local(before).hour, 2);
    // 01:00 UTC falls back to CET => local goes 03:00 -> 02:00.
    let after = utc_of(2027, 10, 31, 1, 0);
    assert_eq!(utc_offset(after), 3_600);
    assert_eq!(local(after).hour, 2);
    assert_eq!(local(after).minute, 0);
}

#[test]
fn deep_winter_and_high_summer() {
    assert_eq!(utc_offset(utc_of(2027, 1, 15, 12, 0)), 3_600);
    assert_eq!(utc_offset(utc_of(2027, 7, 15, 12, 0)), 7_200);
}

#[test]
fn local_conversion_is_monotonic_across_a_year() {
    // Guards against an offset lookup that flips back and forth.
    let start = utc_of(2027, 1, 1, 0, 0);
    let mut flips = 0;
    let mut prev = utc_offset(start);
    for h in 0..(365 * 24) {
        let off = utc_offset(start + h * 3_600);
        if off != prev {
            flips += 1;
            prev = off;
        }
    }
    assert_eq!(flips, 2, "expected exactly two DST transitions per year");
}
