//! The registers of the clock chip.
use medienzeit::civil::{days_from_civil, SECS_PER_DAY};
use medienzeit::rtc::{decode, encode, Error};

#[test]
fn round_trips_across_a_span_of_years() {
    // Every ~37 hours from 2026 to 2030, which crosses leap days, month ends and
    // year boundaries without taking all day to run.
    let start = days_from_civil(2026, 1, 1) * SECS_PER_DAY;
    let end = days_from_civil(2030, 1, 1) * SECS_PER_DAY;
    let mut t = start;
    while t < end {
        let regs = encode(t).expect("in range");
        assert_eq!(decode(&regs), Ok(t), "round trip failed at {t}");
        t += 133_777;
    }
}

#[test]
fn oscillator_stop_flag_is_reported_not_ignored() {
    // A powered-down RTC holds plausible-looking garbage. Silently trusting it
    // would put the night window somewhere fictional.
    let mut regs = encode(days_from_civil(2026, 8, 3) * SECS_PER_DAY).unwrap();
    regs[0] |= 0x80;
    assert_eq!(decode(&regs), Err(Error::ClockIntegrityLost));
}

#[test]
fn writing_seconds_clears_the_stop_flag() {
    // Bit 7 must be zero in anything we encode, or we would re-arm the flag on
    // every set and the clock would never be trusted again.
    for t in [0, 1_785_788_154, days_from_civil(2099, 12, 31) * SECS_PER_DAY] {
        if let Ok(regs) = encode(t) {
            assert_eq!(regs[0] & 0x80, 0, "stop flag set in encoded seconds");
        }
    }
}

#[test]
fn known_timestamp_encodes_to_expected_bcd() {
    // 2026-08-03 20:15:54 UTC — the first time this firmware ever read off SNTP.
    let regs = encode(1_785_788_154).unwrap();
    assert_eq!(regs[0], 0x54, "seconds");
    assert_eq!(regs[1], 0x15, "minutes");
    assert_eq!(regs[2], 0x20, "hours");
    assert_eq!(regs[3], 0x03, "day");
    assert_eq!(regs[4], 1, "weekday: Monday, Sunday-based");
    assert_eq!(regs[5], 0x08, "month");
    assert_eq!(regs[6], 0x26, "year");
}

#[test]
fn rejects_invalid_bcd_and_impossible_dates() {
    let good = encode(1_785_788_154).unwrap();

    let mut bad = good;
    bad[1] = 0x6A; // low nibble > 9
    assert_eq!(decode(&bad), Err(Error::Corrupt));

    let mut bad = good;
    bad[2] = 0x25; // hour 25
    assert_eq!(decode(&bad), Err(Error::Corrupt));

    let mut bad = good;
    bad[5] = 0x13; // month 13
    assert_eq!(decode(&bad), Err(Error::Corrupt));

    let mut bad = good;
    bad[3] = 0x00; // day 0
    assert_eq!(decode(&bad), Err(Error::Corrupt));

    // 30 February
    let mut bad = good;
    bad[3] = 0x30;
    bad[5] = 0x02;
    assert_eq!(decode(&bad), Err(Error::Corrupt));
}

#[test]
fn accepts_a_real_leap_day() {
    let t = days_from_civil(2028, 2, 29) * SECS_PER_DAY + 12 * 3_600;
    assert_eq!(decode(&encode(t).unwrap()), Ok(t));
}

#[test]
fn refuses_years_the_chip_cannot_hold() {
    assert_eq!(encode(days_from_civil(1999, 12, 31) * SECS_PER_DAY), Err(Error::OutOfRange));
    assert_eq!(encode(days_from_civil(2100, 1, 1) * SECS_PER_DAY), Err(Error::OutOfRange));
    let last = days_from_civil(2100, 1, 1) * SECS_PER_DAY - 1;
    assert_eq!(decode(&encode(last).unwrap()), Ok(last));
    let first = days_from_civil(2000, 1, 1) * SECS_PER_DAY;
    assert_eq!(decode(&encode(first).unwrap()), Ok(first));
    assert_eq!(encode(first - 1), Err(Error::OutOfRange));
}

#[test]
fn a_year_far_beyond_the_calendar_is_out_of_range() {
    // 2^32 years on, the last 32 bits of the year are those of 2026.
    let era = 146_097 * SECS_PER_DAY;
    let years: i64 = 4_294_967_296;
    let leap_rest = days_from_civil(2026 + (years % 400) as i32, 8, 3) * SECS_PER_DAY;
    assert_eq!(encode(years / 400 * era + leap_rest), Err(Error::OutOfRange));
    assert_eq!(encode(i64::MAX), Err(Error::OutOfRange));
    assert_eq!(encode(i64::MIN), Err(Error::OutOfRange));
}
