//! PCF85063A register codec.
//!
//! The onboard clock stores UTC, never local time, which would be ambiguous for one hour
//! every October and impossible for one hour every March. The chip has no century bit, so
//! this covers 2000–2099.
use crate::civil;
use crate::civil::SECS_PER_DAY;
use vstd::prelude::*;

verus! {

/// Address of the PCF85063A on the shared I²C bus.
pub const ADDRESS: u8 = 0x51;

/// First of the seven consecutive time registers (Seconds … Years).
pub const REG_SECONDS: u8 = 0x04;

/// Number of time registers read or written in one burst.
pub const TIME_REGS: usize = 7;

/// 1 January 2000, as a day number.
pub const FIRST_DAY: i64 = 10_957;

/// 1 January 2100, the first day that the chip cannot represent.
pub const END_DAY: i64 = 47_482;

#[derive(Debug, Clone, Copy, PartialEq, Eq, Structural)]
pub enum Error {
    /// The oscillator-stop flag is set: the chip lost power and its contents are meaningless.
    /// This is the signal to get the time from the network before doing any accounting.
    ClockIntegrityLost,
    /// A register held something that is not valid BCD, or a field out of range.
    Corrupt,
    /// Outside the 2000–2099 range the chip can represent.
    OutOfRange,
}

/// Whether a byte holds two decimal digits.
pub open spec fn is_bcd(v: int) -> bool {
    v / 16 <= 9 && v % 16 <= 9
}

/// The number that two decimal digits in one byte stand for.
pub open spec fn bcd_value(v: int) -> int {
    v / 16 * 10 + v % 16
}

/// A number below one hundred as two decimal digits in one byte.
pub open spec fn bcd(v: int) -> int {
    v / 10 * 16 + v % 10
}

/// What registers 0 to 6 hold, with the bits that carry no time masked out.
pub open spec fn masked(regs: Seq<u8>, i: int) -> int {
    if i <= 1 {
        regs[i] as int % 128
    } else if i <= 3 {
        regs[i] as int % 64
    } else if i == 5 {
        regs[i] as int % 32
    } else {
        regs[i] as int
    }
}

/// Whether the registers hold a time of the years 2000 to 2099.
pub open spec fn plausible(regs: Seq<u8>) -> bool {
    &&& is_bcd(masked(regs, 0)) && bcd_value(masked(regs, 0)) <= 59
    &&& is_bcd(masked(regs, 1)) && bcd_value(masked(regs, 1)) <= 59
    &&& is_bcd(masked(regs, 2)) && bcd_value(masked(regs, 2)) <= 23
    &&& is_bcd(masked(regs, 3)) && is_bcd(masked(regs, 5)) && is_bcd(masked(regs, 6))
    &&& civil::valid_date(
        2_000 + bcd_value(masked(regs, 6)),
        bcd_value(masked(regs, 5)),
        bcd_value(masked(regs, 3)),
    )
}

/// The instant that the registers stand for.
pub open spec fn instant_of(regs: Seq<u8>) -> int {
    civil::day_number(
        2_000 + bcd_value(masked(regs, 6)),
        bcd_value(masked(regs, 5)),
        bcd_value(masked(regs, 3)),
    ) * 86_400 + bcd_value(masked(regs, 2)) * 3_600 + bcd_value(masked(regs, 1)) * 60 + bcd_value(
        masked(regs, 0),
    )
}

/// The registers for an instant. The weekday counts from Sunday; it is never read back.
pub open spec fn registers_of(utc: int) -> Seq<u8> {
    let (year, month, day) = civil::date_of(utc / 86_400);
    seq![
        bcd(utc % 60) as u8,
        bcd(utc % 3_600 / 60) as u8,
        bcd(utc % 86_400 / 3_600) as u8,
        bcd(day) as u8,
        ((civil::weekday_of(utc / 86_400) + 1) % 7) as u8,
        bcd(month) as u8,
        bcd(year - 2_000) as u8,
    ]
}

fn from_bcd(v: u8) -> (r: Option<u8>)
    ensures
        is_bcd(v as int) ==> r == Some(bcd_value(v as int) as u8) && bcd_value(v as int) <= 99,
        !is_bcd(v as int) ==> r is None,
{
    let hi: u8 = v / 16;
    let lo: u8 = v % 16;
    if hi > 9 || lo > 9 {
        None
    } else {
        Some(hi * 10 + lo)
    }
}

fn to_bcd(v: u8) -> (r: u8)
    requires
        v < 100,
    ensures
        r == bcd(v as int),
{
    v / 10 * 16 + v % 10
}

proof fn lemma_days_of_the_chip(days: int)
    ensures
        FIRST_DAY <= days < END_DAY <==> 2_000 <= civil::date_of(days).0 <= 2_099,
{
    civil::years_between(days, 2_000, 2_099);
    assert(civil::day_number(2_000, 1, 1) == FIRST_DAY);
    assert(civil::day_number(2_100, 1, 1) == END_DAY);
}

proof fn lemma_time_of_day(utc: int)
    ensures
        (utc % 86_400) % 3_600 == utc % 3_600,
        (utc % 86_400) % 60 == utc % 60,
{
    vstd::arithmetic::div_mod::lemma_mod_mod(utc, 3_600, 24);
    vstd::arithmetic::div_mod::lemma_mod_mod(utc, 60, 1_440);
}

/// Encode a UTC unix timestamp into the seven time registers.
pub fn encode(utc: i64) -> (r: Result<[u8; TIME_REGS], Error>)
    ensures
        r is Ok <==> 2_000 <= civil::date_of(utc as int / 86_400).0 <= 2_099,
        r is Ok ==> r->Ok_0@ == registers_of(utc as int),
        r is Err ==> r->Err_0 == Error::OutOfRange,
{
    let days: i64 = civil::floor_div(utc, SECS_PER_DAY);
    let tod: i64 = civil::floor_mod(utc, SECS_PER_DAY);
    proof {
        lemma_days_of_the_chip(days as int);
    }
    if days < FIRST_DAY || days >= END_DAY {
        return Err(Error::OutOfRange);
    }
    let (year, month, day) = civil::civil_from_days(days);
    proof {
        lemma_time_of_day(utc as int);
    }
    let hour: u8 = (tod / 3_600) as u8;
    let minute: u8 = (tod % 3_600 / 60) as u8;
    let second: u8 = (tod % 60) as u8;
    let weekday: u8 = (civil::weekday_from_days(days) + 1) % 7;
    let regs: [u8; TIME_REGS] = [
        to_bcd(second),
        to_bcd(minute),
        to_bcd(hour),
        to_bcd(day as u8),
        weekday,
        to_bcd(month as u8),
        to_bcd((year - 2000) as u8),
    ];
    assert(regs@ =~= registers_of(utc as int));
    Ok(regs)
}

/// Decode the seven time registers into a UTC unix timestamp.
pub fn decode(regs: &[u8; TIME_REGS]) -> (r: Result<i64, Error>)
    ensures
        regs@[0] >= 128 ==> r == Err::<i64, Error>(Error::ClockIntegrityLost),
        regs@[0] < 128 && !plausible(regs@) ==> r == Err::<i64, Error>(Error::Corrupt),
        regs@[0] < 128 && plausible(regs@) ==> r is Ok && r->Ok_0 == instant_of(regs@),
{
    // Bit 7 of the seconds register is the oscillator-stop flag.
    if regs[0] >= 128 {
        return Err(Error::ClockIntegrityLost);
    }
    match (
        from_bcd(regs[0] % 128),
        from_bcd(regs[1] % 128),
        from_bcd(regs[2] % 64),
        from_bcd(regs[3] % 64),
        from_bcd(regs[5] % 32),
        from_bcd(regs[6]),
    ) {
        (
            Some(second),
            Some(minute),
            Some(hour),
            Some(day),
            Some(month),
            Some(year),
        ) => {
            if second > 59 || minute > 59 || hour > 23 {
                return Err(Error::Corrupt);
            }
            let year: i32 = year as i32 + 2000;
            if month < 1 || month > 12 || day < 1 || day as u32 > civil::days_in_month(
                year,
                month as u32,
            ) {
                return Err(Error::Corrupt);
            }
            let days: i64 = civil::days_from_civil(year, month as u32, day as u32);
            Ok(days * SECS_PER_DAY + hour as i64 * 3_600 + minute as i64 * 60 + second as i64)
        },
        _ => Err(Error::Corrupt),
    }
}

/// An instant of the years 2000 to 2099 survives the way through the registers, and writing
/// it leaves the oscillator-stop flag clear.
#[verifier::rlimit(60)]
pub proof fn registers_round_trip(utc: int)
    requires
        2_000 <= civil::date_of(utc / 86_400).0 <= 2_099,
    ensures
        registers_of(utc)[0] < 128,
        plausible(registers_of(utc)),
        instant_of(registers_of(utc)) == utc,
{
    civil::day_round_trip(utc / 86_400);
    let (y, m, d) = civil::date_of(utc / 86_400);
    let regs = registers_of(utc);
    assert forall|v: int| 0 <= v < 100 implies is_bcd(#[trigger] bcd(v)) && bcd_value(bcd(v)) == v
        && 0 <= bcd(v) < 160 by {}
    lemma_time_of_day(utc);
    vstd::arithmetic::div_mod::lemma_mod_mod(utc, 60, 60);
    let (hour, minute, second) = (utc % 86_400 / 3_600, utc % 3_600 / 60, utc % 60);
    assert(0 <= hour < 24 && 0 <= minute < 60 && 0 <= second < 60);
    assert(bcd(second) < 0x60 && bcd(minute) < 0x60 && bcd(hour) < 0x24 && bcd(d) < 0x32 && bcd(m)
        < 0x13);
    assert(masked(regs, 0) == bcd(second));
    assert(masked(regs, 1) == bcd(minute));
    assert(masked(regs, 2) == bcd(hour));
    assert(masked(regs, 3) == bcd(d));
    assert(masked(regs, 5) == bcd(m));
    assert(masked(regs, 6) == bcd(y - 2_000));
    assert(hour * 3_600 + minute * 60 + second == utc % 86_400);
}

proof fn lemma_two_decimals(v: int)
    requires
        0 <= v < 100,
    ensures
        ({
            let b = bcd(v) as u8;
            &&& b / 16 * 10 + b % 16 == v
            &&& b % 16 < 10
            &&& v < 60 ==> b < 0x60
            &&& v < 24 ==> b < 0x24
        }),
{
}

proof fn lemma_sunday_first(days: int)
    ensures
        (civil::weekday_of(days) + 1) % 7 == (days + 4) % 7,
        0 <= (days + 4) % 7 < 7,
{
    vstd::arithmetic::div_mod::lemma_add_mod_noop(days + 3, 1, 7);
}

#[verifier::rlimit(60)]
proof fn lemma_time_adds_up(utc: int)
    ensures
        0 <= utc % 86_400 / 3_600 < 24,
        0 <= utc % 3_600 / 60 < 60,
        0 <= utc % 60 < 60,
        utc % 86_400 / 3_600 * 3_600 + utc % 3_600 / 60 * 60 + utc % 60 == utc % 86_400,
{
    lemma_time_of_day(utc);
    vstd::arithmetic::div_mod::lemma_mod_mod(utc, 60, 60);
    let tod = utc % 86_400;
    assert(tod % 3_600 % 60 == utc % 60);
}

/// The registers hold the UTC date and time in the chip's order, two decimal digits to a byte:
/// seconds, minutes, hours, day, weekday from Sunday on, month, and the year of the century.
#[verifier::rlimit(60)]
pub proof fn the_registers_hold_the_date(utc: int)
    requires
        2_000 <= civil::date_of(utc / 86_400).0 <= 2_099,
    ensures
        ({
            let r = registers_of(utc);
            let (y, m, d) = civil::date_of(utc / 86_400);
            &&& r.len() == 7
            &&& r[6] / 16 * 10 + r[6] % 16 == y - 2_000
            &&& r[5] / 16 * 10 + r[5] % 16 == m
            &&& r[3] / 16 * 10 + r[3] % 16 == d
            &&& (r[2] / 16 * 10 + r[2] % 16) * 3_600 + (r[1] / 16 * 10 + r[1] % 16) * 60 + (r[0]
                / 16 * 10 + r[0] % 16) == utc % 86_400
            &&& r[0] % 16 < 10 && r[1] % 16 < 10 && r[2] % 16 < 10
            &&& r[3] % 16 < 10 && r[5] % 16 < 10 && r[6] % 16 < 10
            &&& r[0] < 0x60 && r[1] < 0x60 && r[2] < 0x24
            &&& r[4] == (utc / 86_400 + 4) % 7
        }),
{
    civil::day_round_trip(utc / 86_400);
    let (y, m, d) = civil::date_of(utc / 86_400);
    lemma_time_adds_up(utc);
    lemma_two_decimals(utc % 60);
    lemma_two_decimals(utc % 3_600 / 60);
    lemma_two_decimals(utc % 86_400 / 3_600);
    lemma_two_decimals(d);
    lemma_two_decimals(m);
    lemma_two_decimals(y - 2_000);
    lemma_sunday_first(utc / 86_400);
}

#[verifier::rlimit(60)]
proof fn lemma_instant_splits(n: int, h: int, mi: int, s: int)
    requires
        0 <= h < 24,
        0 <= mi < 60,
        0 <= s < 60,
    ensures
        ({
            let t = n * 86_400 + h * 3_600 + mi * 60 + s;
            t / 86_400 == n && t % 86_400 / 3_600 == h && t % 3_600 / 60 == mi && t % 60 == s
        }),
{
    let t = n * 86_400 + h * 3_600 + mi * 60 + s;
    let tod = h * 3_600 + mi * 60 + s;
    vstd::arithmetic::div_mod::lemma_fundamental_div_mod_converse(t, 86_400, n, tod);
    vstd::arithmetic::div_mod::lemma_fundamental_div_mod_converse(tod, 3_600, h, mi * 60 + s);
    vstd::arithmetic::div_mod::lemma_fundamental_div_mod_converse(
        t,
        3_600,
        n * 24 + h,
        mi * 60 + s,
    );
    vstd::arithmetic::div_mod::lemma_fundamental_div_mod_converse(mi * 60 + s, 60, mi, s);
    vstd::arithmetic::div_mod::lemma_fundamental_div_mod_converse(
        t,
        60,
        n * 1_440 + h * 60 + mi,
        s,
    );
}

/// Registers that make sense are read as the date and the time of day that they hold, the bits that
/// carry none aside.
#[verifier::rlimit(60)]
pub proof fn the_registers_are_read_as_they_stand(regs: Seq<u8>)
    requires
        regs.len() == 7,
        plausible(regs),
    ensures
        ({
            let t = instant_of(regs);
            let (y, m, d) = civil::date_of(t / 86_400);
            &&& y == 2_000 + regs[6] as int / 16 * 10 + regs[6] as int % 16
            &&& m == regs[5] as int % 32 / 16 * 10 + regs[5] as int % 32 % 16
            &&& d == regs[3] as int % 64 / 16 * 10 + regs[3] as int % 64 % 16
            &&& t % 86_400 / 3_600 == regs[2] as int % 64 / 16 * 10 + regs[2] as int % 64 % 16
            &&& t % 3_600 / 60 == regs[1] as int % 128 / 16 * 10 + regs[1] as int % 128 % 16
            &&& t % 60 == regs[0] as int % 128 / 16 * 10 + regs[0] as int % 128 % 16
        }),
{
    let y = 2_000 + bcd_value(masked(regs, 6));
    let (m, d) = (bcd_value(masked(regs, 5)), bcd_value(masked(regs, 3)));
    civil::date_round_trip(y, m, d);
    lemma_instant_splits(
        civil::day_number(y, m, d),
        bcd_value(masked(regs, 2)),
        bcd_value(masked(regs, 1)),
        bcd_value(masked(regs, 0)),
    );
}

/// Registers make sense exactly where they hold decimal digits that name a time of day and a day of
/// the calendar.
pub proof fn only_decimal_digits_make_sense(regs: Seq<u8>)
    requires
        regs.len() == 7,
    ensures
        plausible(regs) ==> {
            &&& regs[0] as int % 16 <= 9 && regs[1] as int % 16 <= 9 && regs[2] as int % 16 <= 9
            &&& regs[3] as int % 16 <= 9 && regs[5] as int % 16 <= 9 && regs[6] as int % 16 <= 9
            &&& regs[6] as int / 16 <= 9
            &&& regs[0] as int % 128 < 0x60 && regs[1] as int % 128 < 0x60 && regs[2] as int % 64
                < 0x24
            &&& 1 <= regs[5] as int % 32 <= 0x12
            &&& 1 <= regs[3] as int % 64 <= 0x31
        },
{
    lemma_low_digit(regs[0]);
    lemma_low_digit(regs[1]);
    lemma_low_digit(regs[2]);
    lemma_low_digit(regs[3]);
    lemma_low_digit(regs[5]);
    lemma_low_digit(regs[6]);
}

proof fn lemma_low_digit(b: u8)
    ensures
        b as int % 128 % 16 == b as int % 16,
        b as int % 64 % 16 == b as int % 16,
        b as int % 32 % 16 == b as int % 16,
{
}

} // verus!
