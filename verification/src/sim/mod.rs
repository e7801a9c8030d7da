//! The box on a desk: the real ledger with only the clock and the reader faked.
use crate::civil;
use crate::civil::{EARLIEST, LATEST};
use crate::cli;
use crate::text;
use vstd::arithmetic::div_mod;
use vstd::prelude::*;

pub mod daily;
pub mod scenarios;
pub mod session;

verus! {

/// Never hand the ledger a gap it would reject as a time jump.
pub const MAX_LEDGER_STEP: i64 = 60;

/// A wall-clock time, as seconds without a zone.
pub open spec fn wall(y: int, m: int, d: int, h: int, mi: int) -> int {
    civil::day_number(y, m, d) * 86_400 + h * 3_600 + mi * 60
}

/// The instant of a wall-clock time in Berlin: the one that shows it. Of the two that do in the
/// hour that comes twice in autumn it is the second; in the hour that spring skips, which none
/// shows, it is the one that shows an hour less.
#[verifier::opaque]
pub open spec fn berlin_of(y: int, m: int, d: int, h: int, mi: int) -> int {
    let w = wall(y, m, d, h, mi);
    if w - 3_600 + civil::offset_of(w - 3_600) == w {
        w - 3_600
    } else {
        w - 7_200
    }
}

/// UTC timestamp for a Europe/Berlin wall-clock time.
pub fn berlin(y: i32, m: u32, d: u32, h: u32, mi: u32) -> (r: i64)
    requires
        y >= i32::MIN + 400,
        civil::utc_year(wall(y as int, m as int, d as int, h as int, mi as int) - 3_600) >= i32::MIN
            + 400,
    ensures
        r == berlin_of(y as int, m as int, d as int, h as int, mi as int),
{
    reveal(berlin_of);
    let naive: i64 = civil::days_from_civil(y, m, d) * civil::SECS_PER_DAY + h as i64 * 3_600
        + mi as i64 * 60;
    if civil::utc_offset(naive - 3_600) == 3_600 {
        naive - 3_600
    } else {
        naive - 7_200
    }
}

proof fn lemma_parts_of_the_day(days: int, h: int, mi: int)
    requires
        0 <= h < 24,
        0 <= mi < 60,
    ensures
        ({
            let w = days * 86_400 + h * 3_600 + mi * 60;
            &&& w / 86_400 == days
            &&& w % 86_400 / 3_600 == h
            &&& w % 3_600 / 60 == mi
            &&& w % 60 == 0
        }),
{
    let w = days * 86_400 + h * 3_600 + mi * 60;
    div_mod::lemma_fundamental_div_mod_converse(w, 86_400, days, h * 3_600 + mi * 60);
    div_mod::lemma_fundamental_div_mod_converse(h * 3_600 + mi * 60, 3_600, h, mi * 60);
    div_mod::lemma_fundamental_div_mod_converse(w, 3_600, days * 24 + h, mi * 60);
    div_mod::lemma_fundamental_div_mod_converse(w, 60, days * 1_440 + h * 60 + mi, 0);
}

/// The hour that spring skips: the clocks go from two to three.
pub open spec fn skipped(y: int, wall: int) -> bool {
    civil::clock_change(y, 3) + 3_600 <= wall < civil::clock_change(y, 3) + 7_200
}

/// A wall-clock time leads to the instant that shows it, but for the hour that spring skips.
pub proof fn berlin_shows_the_wall_clock(y: int, m: int, d: int, h: int, mi: int)
    requires
        i32::MIN + 400 <= y <= i32::MAX,
        civil::valid_date(y, m, d),
        0 <= h < 24,
        0 <= mi < 60,
        !skipped(y, wall(y, m, d, h, mi)),
    ensures
        ({
            let t = berlin_of(y, m, d, h, mi);
            let l = civil::local_of(t);
            &&& t + civil::offset_of(t) == wall(y, m, d, h, mi)
            &&& l.year == y && l.month == m && l.day == d && l.hour == h && l.minute == mi
                && l.second == 0
        }),
{
    reveal(berlin_of);
    civil::date_round_trip(y, m, d);
    let days = civil::day_number(y, m, d);
    lemma_parts_of_the_day(days, h, mi);
    let w = wall(y, m, d, h, mi);
    let t = w - 3_600;
    if civil::offset_of(t) != 3_600 {
        lemma_year_before(y, w, t);
        let z = civil::date_of(t / 86_400).0;
        civil::clocks_change_twice_a_year(t);
        civil::lemma_autumn(z);
        civil::years_between(w / 86_400, z, z);
        assert(z == y);
        civil::years_between((w - 7_200) / 86_400, y, y);
        civil::clocks_change_twice_a_year(w - 7_200);
    }
    lemma_local_of(berlin_of(y, m, d, h, mi), days, y, m, d, h, mi);
}

/// An hour earlier it is the same year or the one before.
proof fn lemma_year_before(y: int, w: int, t: int)
    requires
        civil::date_of(w / 86_400).0 == y,
        t == w - 3_600,
    ensures
        y - 1 <= civil::date_of(t / 86_400).0 <= y,
{
    civil::day_round_trip(w / 86_400);
    let (_y, m, d) = civil::date_of(w / 86_400);
    civil::lemma_within_its_year(y, m, d);
    civil::years_follow_each_other(y - 1);
    civil::lemma_within_its_year(y - 1, 12, 31);
    civil::years_between(t / 86_400, y - 1, y);
}

proof fn lemma_local_of(utc: int, days: int, y: int, m: int, d: int, h: int, mi: int)
    requires
        i32::MIN <= y <= i32::MAX,
        civil::valid_date(y, m, d),
        civil::date_of(days) == (y, m, d),
        0 <= h < 24,
        0 <= mi < 60,
        utc + civil::offset_of(utc) == days * 86_400 + h * 3_600 + mi * 60,
    ensures
        ({
            let l = civil::local_of(utc);
            l.year == y && l.month == m && l.day == d && l.hour == h && l.minute == mi && l.second
                == 0
        }),
{
    lemma_parts_of_the_day(days, h, mi);
}

/// The instant of a time of day on the local day of `now`.
pub open spec fn today_at(now: int, h: int, mi: int) -> int {
    let l = civil::local_of(now);
    berlin_of(l.year as int, l.month as int, l.day as int, h, mi)
}

/// UTC timestamp for a time of day on the local day of `now`.
pub fn today(now: i64, h: u32, mi: u32) -> (r: i64)
    requires
        EARLIEST <= now <= LATEST,
        h < 24,
        mi < 60,
    ensures
        r == today_at(now as int, h as int, mi as int),
        now - 100_000 <= r <= now + 100_000,
{
    proof {
        let secs = now + civil::offset_of(now as int);
        let day = secs / 86_400;
        civil::on_calendar_within(now as int);
        civil::day_round_trip(day);
        civil::years_within(day * 86_400 + h * 3_600 + mi * 60 - 3_600);
        reveal(berlin_of);
    }
    let l = civil::local(now);
    berlin(l.year, l.month, l.day, h, mi)
}

/// The end of the next slice on the way to `target`. Slices are short so that a fast simulated
/// clock is accounted exactly as passes of one second would be.
pub open spec fn next_slice(now: int, target: int) -> int {
    if now + MAX_LEDGER_STEP < target {
        now + MAX_LEDGER_STEP
    } else {
        target
    }
}

/// The end of the next slice.
pub fn slice_end(now: i64, target: i64) -> (r: i64)
    requires
        now < target,
    ensures
        r == next_slice(now as int, target as int),
        now < r <= target,
{
    if (target as i128 - now as i128) > MAX_LEDGER_STEP as i128 {
        now + MAX_LEDGER_STEP
    } else {
        target
    }
}

/// What the program was asked to do.
pub enum Mode {
    Help,
    /// Write a picture of every screen state into a directory.
    Shots(String),
    /// Open a window.
    Interactive,
}

/// Where a word first stands among the arguments, their number where it does not.
pub open spec fn position(args: Seq<Seq<char>>, word: Seq<char>) -> int
    decreases args.len(),
{
    if args.len() == 0 {
        0
    } else if args[0] == word {
        0
    } else {
        1 + position(args.drop_first(), word)
    }
}

/// The directory for pictures, where they are asked for: the argument that follows, unless it is
/// an option itself.
pub open spec fn directory(args: Seq<Seq<char>>) -> Option<Seq<char>> {
    let i = position(args, "--shots"@);
    if i >= args.len() {
        None
    } else if i + 1 < args.len() && !text::reads(
        args[i + 1],
        "--"@,
        0,
        args[i + 1].len() as int,
    ) {
        Some(args[i + 1])
    } else {
        Some("shots"@)
    }
}

fn find_arg(args: &Vec<String>, word: &str) -> (r: usize)
    ensures
        r == position(text::texts(args@), word@),
        r <= args@.len(),
{
    let ghost all = text::texts(args@);
    let mut i: usize = 0;
    assert(all.skip(0) =~= all);
    while i < args.len()
        invariant
            i <= args@.len(),
            all == text::texts(args@),
            position(all, word@) == i + position(all.skip(i as int), word@),
        decreases args@.len() - i,
    {
        assert(all.skip(i as int)[0] == args@[i as int]@);
        if cli::same(args[i].as_str(), word) {
            return i;
        }
        assert(all.skip(i as int).drop_first() =~= all.skip(i + 1));
        i += 1;
    }
    i
}

/// What the arguments ask for.
pub fn parse_args(args: &Vec<String>) -> (r: Mode)
    ensures
        ({
            let all = text::texts(args@);
            let help = position(all, "--help"@) < all.len() || position(all, "-h"@) < all.len();
            match r {
                Mode::Help => help,
                Mode::Shots(dir) => !help && directory(all) == Some(dir@),
                Mode::Interactive => !help && directory(all) is None,
            }
        }),
{
    if find_arg(args, "--help") < args.len() || find_arg(args, "-h") < args.len() {
        return Mode::Help;
    }
    let i: usize = find_arg(args, "--shots");
    if i >= args.len() {
        return Mode::Interactive;
    }
    if i + 1 < args.len() {
        let next: Vec<char> = text::chars_of(args[i + 1].as_str());
        let dashes: Vec<char> = text::chars_of("--");
        if !text::starts(next.as_slice(), dashes.as_slice(), 0, next.len()) {
            return Mode::Shots(args[i + 1].as_str().to_owned());
        }
    }
    Mode::Shots("shots".to_owned())
}

/// A slice is at most a minute, and the last one ends at the target.
pub proof fn slices_are_short(now: int, target: int)
    requires
        now < target,
    ensures
        now < next_slice(now, target) <= target,
        next_slice(now, target) - now <= 60,
        target - now <= 60 ==> next_slice(now, target) == target,
        target - now > 60 ==> next_slice(now, target) == now + 60,
{
}

/// A wall-clock time that comes twice is taken the second time, in winter time; one that only one
/// of its two possible instants shows leads to that instant.
pub proof fn a_time_that_comes_twice_is_the_second(y: int, m: int, d: int, h: int, mi: int)
    ensures
        ({
            let w = wall(y, m, d, h, mi);
            let winter = w - 3_600 + civil::offset_of(w - 3_600) == w;
            let summer = w - 7_200 + civil::offset_of(w - 7_200) == w;
            &&& winter ==> berlin_of(y, m, d, h, mi) == w - 3_600
            &&& summer && !winter ==> berlin_of(y, m, d, h, mi) == w - 7_200
            &&& w == civil::day_number(y, m, d) * 86_400 + h * 3_600 + mi * 60
        }),
{
    reveal(berlin_of);
}

} // verus!
