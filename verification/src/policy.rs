//! The rules of the daily ledger: how much time per day, when the day starts, and when
//! the clock is allowed to run at all.
use crate::civil;
use crate::civil::{LocalDateTime, Weekday};
use vstd::prelude::*;

verus! {

/// Maximum number of away-windows in a policy.
pub const MAX_AWAY_WINDOWS: usize = 8;

/// `heapless::Vec`, a vector of bounded length that lives in place.
#[verifier::external_type_specification]
#[verifier::external_body]
#[verifier::reject_recursive_types(T)]
pub struct ExBoundedVec<T, const N: usize>(heapless::Vec<T, N>);

/// The windows that a bounded vector holds, in order.
pub uninterp spec fn windows_of(v: heapless::Vec<AwayWindow, 8>) -> Seq<AwayWindow>;

/// `heapless::Vec::new`: a vector that holds nothing.
#[verifier::external_body]
pub(crate) fn no_windows() -> (v: heapless::Vec<AwayWindow, 8>)
    ensures
        windows_of(v) == Seq::<AwayWindow>::empty(),
{
    heapless::Vec::new()
}

/// `heapless::Vec::push`: appends the window while fewer than eight are held, and otherwise
/// hands it back and leaves the vector as it was.
#[verifier::external_body]
pub(crate) fn push_window(v: &mut heapless::Vec<AwayWindow, 8>, w: AwayWindow) -> (r: Result<
    (),
    AwayWindow,
>)
    ensures
        windows_of(*old(v)).len() < 8 ==> r is Ok && windows_of(*final(v))
            == windows_of(*old(v)).push(w),
        windows_of(*old(v)).len() >= 8 ==> r is Err && r->Err_0 == w && windows_of(*final(v))
            == windows_of(*old(v)),
{
    v.push(w)
}

/// `heapless::Vec::as_slice`: the windows held, in order; never more than eight.
#[verifier::external_body]
pub(crate) fn window_slice(v: &heapless::Vec<AwayWindow, 8>) -> (r: &[AwayWindow])
    ensures
        r@ == windows_of(*v),
        r@.len() <= 8,
{
    v.as_slice()
}

/// A recurring stretch of local time. Times are local minutes since midnight.
#[derive(Debug, Clone, Copy, PartialEq, Eq, Structural)]
pub struct AwayWindow {
    /// Bit `n` set means the window applies on weekday `n` (Monday = bit 0).
    pub weekday_mask: u8,
    pub start_minute: u32,
    pub end_minute: u32,
}

impl AwayWindow {
    /// Mon–Fri.
    pub const WEEKDAYS: u8 = 0b0001_1111;

    /// Sat–Sun.
    pub const WEEKEND: u8 = 0b0110_0000;

    pub const EVERY_DAY: u8 = 0b0111_1111;

    /// Whether the window begins on the given weekday.
    pub open spec fn begins_on(self, weekday: int) -> bool {
        self.weekday_mask & (1u8 << (weekday as u8)) != 0
    }

    /// Whether an instant lies in the window: from its start up to, but not including, its
    /// end. A window that ends before it starts runs past midnight, and its tail belongs to
    /// the weekday on which it began.
    pub open spec fn covers(self, now: LocalDateTime) -> bool {
        let m = now.minutes();
        if self.start_minute <= self.end_minute {
            self.begins_on(now.weekday as int) && self.start_minute <= m < self.end_minute
        } else {
            ||| self.begins_on(now.weekday as int) && m >= self.start_minute
            ||| self.begins_on((now.weekday + 6) % 7) && m < self.end_minute
        }
    }

    pub fn new(weekday_mask: u8, start_minute: u32, end_minute: u32) -> (r: Self)
        ensures
            r == (AwayWindow { weekday_mask, start_minute, end_minute }),
    {
        AwayWindow { weekday_mask, start_minute, end_minute }
    }

    /// The same from hours and minutes: `AwayWindow::hm(AwayWindow::WEEKDAYS, 7, 30, 15, 0)`.
    pub fn hm(weekday_mask: u8, sh: u32, sm: u32, eh: u32, em: u32) -> (r: Self)
        requires
            sh * 60 + sm <= u32::MAX,
            eh * 60 + em <= u32::MAX,
        ensures
            r.weekday_mask == weekday_mask,
            r.start_minute == sh * 60 + sm,
            r.end_minute == eh * 60 + em,
    {
        AwayWindow::new(weekday_mask, sh * 60 + sm, eh * 60 + em)
    }

    fn applies_on(&self, weekday: Weekday) -> (r: bool)
        requires
            weekday < 8,
        ensures
            r == self.begins_on(weekday as int),
    {
        self.weekday_mask & (1u8 << weekday) != 0
    }

    /// Whether `now` lies in the window. Windows that wrap past midnight (start > end) are
    /// supported; the wrapped tail is attributed to the weekday the window started on.
    pub fn contains(&self, now: &LocalDateTime) -> (r: bool)
        requires
            now.weekday < 8,
            now.minutes() <= u32::MAX,
        ensures
            r == self.covers(*now),
    {
        let m: u32 = now.minute_of_day();
        if self.start_minute <= self.end_minute {
            self.applies_on(now.weekday) && m >= self.start_minute && m < self.end_minute
        } else {
            let yesterday: Weekday = (now.weekday + 6) % 7;
            (self.applies_on(now.weekday) && m >= self.start_minute) || (self.applies_on(yesterday)
                && m < self.end_minute)
        }
    }
}

/// Whether some window of a list covers an instant.
pub open spec fn covered(windows: Seq<AwayWindow>, now: LocalDateTime) -> bool {
    exists|i: int| 0 <= i < windows.len() && (#[trigger] windows[i]).covers(now)
}

/// Whether some window of a list covers `now`.
pub fn any_contains(windows: &[AwayWindow], now: &LocalDateTime) -> (r: bool)
    requires
        windows@.len() > 0 ==> now.weekday < 8 && now.minutes() <= u32::MAX,
    ensures
        r == covered(windows@, *now),
{
    let mut i: usize = 0;
    while i < windows.len()
        invariant
            i <= windows.len(),
            windows@.len() > 0 ==> now.weekday < 8 && now.minutes() <= u32::MAX,
            forall|j: int| 0 <= j < i ==> !(#[trigger] windows@[j]).covers(*now),
        decreases windows.len() - i,
    {
        if windows[i].contains(now) {
            return true;
        }
        i += 1;
    }
    false
}

/// A second bounded vector with the same windows.
pub(crate) fn copy_windows(v: &heapless::Vec<AwayWindow, 8>) -> (r: heapless::Vec<AwayWindow, 8>)
    ensures
        windows_of(r) == windows_of(*v),
{
    let from: &[AwayWindow] = window_slice(v);
    let mut to = no_windows();
    let mut i: usize = 0;
    while i < from.len()
        invariant
            i <= from.len() <= 8,
            windows_of(to) == from@.take(i as int),
        decreases from.len() - i,
    {
        let _ = push_window(&mut to, from[i]);
        assert(from@.take(i as int).push(from@[i as int]) =~= from@.take(i + 1));
        i += 1;
    }
    assert(from@.take(i as int) =~= from@);
    to
}

/// The rules of the daily ledger.
#[derive(Debug, PartialEq, Eq)]
pub struct Policy {
    pub weekday_secs: u32,
    pub weekend_secs: u32,
    /// Local hour at which the budget resets. 04:00 rather than midnight, so a late evening
    /// does not get a fresh allowance at the stroke of twelve.
    pub reset_hour: u32,
    /// How long a device may be off its cradle before the budget starts draining.
    ///
    /// Covers picking the phone up to skip a track or answer a message. The charge is
    /// retroactive: cross this threshold and the whole interval since undocking is billed,
    /// so short pickups cannot be farmed into free time. Set to 0 to disable.
    pub grace_secs: u32,
    pub away: heapless::Vec<AwayWindow, MAX_AWAY_WINDOWS>,
}

impl Default for Policy {
    /// One hour on weekdays, two at the weekend, reset at 04:00, three minutes of grace, and
    /// school from 07:30 to 15:00 on weekdays.
    fn default() -> (r: Self)
        ensures
            r.weekday_secs == 3_600,
            r.weekend_secs == 7_200,
            r.reset_hour == 4,
            r.grace_secs == 180,
            windows_of(r.away) == seq![
                AwayWindow { weekday_mask: 31, start_minute: 450, end_minute: 900 },
            ],
    {
        let mut away = no_windows();
        let _ = push_window(&mut away, AwayWindow::hm(AwayWindow::WEEKDAYS, 7, 30, 15, 0));
        Policy {
            weekday_secs: 60 * 60,
            weekend_secs: 120 * 60,
            reset_hour: 4,
            grace_secs: 3 * 60,
            away,
        }
    }
}

impl Clone for Policy {
    fn clone(&self) -> (r: Self)
        ensures
            r.weekday_secs == self.weekday_secs,
            r.weekend_secs == self.weekend_secs,
            r.reset_hour == self.reset_hour,
            r.grace_secs == self.grace_secs,
            windows_of(r.away) == windows_of(self.away),
    {
        Policy {
            weekday_secs: self.weekday_secs,
            weekend_secs: self.weekend_secs,
            reset_hour: self.reset_hour,
            grace_secs: self.grace_secs,
            away: copy_windows(&self.away),
        }
    }
}

impl Policy {
    /// The Medienzeit day an instant belongs to: the local date after turning the clock back
    /// by `reset_hour`.
    pub open spec fn day_of(self, utc: int) -> int {
        (utc + civil::offset_of(utc) - self.reset_hour * 3_600) / 86_400
    }

    /// Whether the day of `utc` can be computed without running off either end of `i64`.
    pub open spec fn has_day(self, utc: int) -> bool {
        civil::on_calendar(utc) && utc + 3_600 - self.reset_hour * 3_600 >= i64::MIN
    }

    /// The allowance of a day, before any bonus.
    pub open spec fn allowance(self, day: int) -> u32 {
        if civil::weekday_of(day) >= 5 {
            self.weekend_secs
        } else {
            self.weekday_secs
        }
    }

    /// Whether an away-window suppresses the clock.
    pub open spec fn away_at(self, now: LocalDateTime) -> bool {
        covered(windows_of(self.away), now)
    }

    /// Which Medienzeit day a UTC instant belongs to, as a day number.
    ///
    /// Shifting local time back by `reset_hour` before taking the date means 03:59 still
    /// belongs to yesterday and 04:00 starts today.
    pub fn day_key(&self, utc: i64) -> (r: i64)
        requires
            self.has_day(utc as int),
        ensures
            r == self.day_of(utc as int),
            -200_000_000_000_000 <= r <= 200_000_000_000_000,
    {
        let shifted: i64 = utc + civil::utc_offset(utc) - self.reset_hour as i64 * 3_600;
        civil::floor_div(shifted, civil::SECS_PER_DAY)
    }

    /// The base allowance for a day, before any bonus.
    pub fn allowance_secs(&self, day_key: i64) -> (r: u32)
        requires
            day_key + 3 <= i64::MAX,
        ensures
            r == self.allowance(day_key as int),
    {
        let wd: Weekday = civil::weekday_from_days(day_key);
        if wd == civil::SAT || wd == civil::SUN {
            self.weekend_secs
        } else {
            self.weekday_secs
        }
    }

    /// Whether an away-window covers `now`.
    pub fn is_away(&self, now: &LocalDateTime) -> (r: bool)
        requires
            windows_of(self.away).len() > 0 ==> now.weekday < 8 && now.minutes() <= u32::MAX,
        ensures
            r == self.away_at(*now),
    {
        any_contains(window_slice(&self.away), now)
    }
}

proof fn lemma_same_stretch(x: int, y: int)
    ensures
        x / 86_400 == y / 86_400 <==> exists|day: int|
            #![trigger day * 86_400]
            0 <= x - day * 86_400 < 86_400 && 0 <= y - day * 86_400 < 86_400,
{
    let d = x / 86_400;
    assert(0 <= x - d * 86_400 < 86_400);
}

/// The day turns at `reset_hour`: an instant belongs to the same Medienzeit day as another
/// exactly when both lie in the same stretch of 24 local hours from one reset to the next.
#[verifier::spinoff_prover]
pub proof fn day_turns_at_reset_hour(p: Policy, a: int, b: int)
    ensures
        p.day_of(a) == p.day_of(b) <==> exists|day: int|
            #![trigger day * 86_400]
            0 <= a + civil::offset_of(a) - p.reset_hour * 3_600 - day * 86_400 < 86_400 && 0 <= b
                + civil::offset_of(b) - p.reset_hour * 3_600 - day * 86_400 < 86_400,
{
    let x = a + civil::offset_of(a) - p.reset_hour * 3_600;
    let y = b + civil::offset_of(b) - p.reset_hour * 3_600;
    lemma_same_stretch(x, y);
    if p.day_of(a) == p.day_of(b) {
        let day = choose|day: int|
            #![trigger day * 86_400]
            0 <= x - day * 86_400 < 86_400 && 0 <= y - day * 86_400 < 86_400;
        assert(0 <= x - day * 86_400 < 86_400 && 0 <= y - day * 86_400 < 86_400);
    } else {
        assert forall|day: int|
            #![trigger day * 86_400]
            0 <= x - day * 86_400 < 86_400 implies !(0 <= y - day * 86_400 < 86_400) by {
            if 0 <= y - day * 86_400 < 86_400 {
                assert(0 <= x - day * 86_400 < 86_400 && 0 <= y - day * 86_400 < 86_400);
            }
        }
    }
}

/// The weekend has its own budget: of every week, whose Monday is the fourth day after a multiple
/// of seven, Saturday and Sunday allow `weekend_secs` and the other five days `weekday_secs`.
pub proof fn the_weekend_has_its_own_budget(p: Policy, week: int)
    ensures
        p.allowance(7 * week + 4) == p.weekday_secs,
        p.allowance(7 * week + 5) == p.weekday_secs,
        p.allowance(7 * week + 6) == p.weekday_secs,
        p.allowance(7 * week + 7) == p.weekday_secs,
        p.allowance(7 * week + 8) == p.weekday_secs,
        p.allowance(7 * week + 9) == p.weekend_secs,
        p.allowance(7 * week + 10) == p.weekend_secs,
{
}

/// A Medienzeit day is named after the local date on which it begins, at `reset_hour`: what comes
/// earlier in that date still belongs to the day before.
pub proof fn a_day_is_named_after_the_date_it_begins_on(p: Policy, utc: int)
    requires
        p.reset_hour < 24,
        i32::MIN <= civil::date_of((utc + civil::offset_of(utc)) / 86_400).0 <= i32::MAX,
    ensures
        ({
            let l = civil::local_of(utc);
            let date = civil::day_number(l.year as int, l.month as int, l.day as int);
            p.day_of(utc) == if l.hour >= p.reset_hour {
                date
            } else {
                date - 1
            }
        }),
{
    civil::local_time_counts_up_to_the_instant(utc);
}

/// A window is over when it ends: an instant lies in it exactly when one of its stretches began on
/// that day or the day before, on a weekday of the window, at or before the instant, and ends after
/// it. A stretch that ends at an earlier minute than it starts ends on the next day.
pub proof fn a_window_lasts_from_its_start_to_its_end(w: AwayWindow, now: LocalDateTime)
    requires
        now.weekday < 7,
        now.hour < 24,
        now.minute < 60,
        w.start_minute <= 1_440,
        w.end_minute <= 1_440,
    ensures
        w.covers(now) <==> {
            let minute = now.hour * 60 + now.minute;
            let stop = if w.start_minute <= w.end_minute {
                w.end_minute as int
            } else {
                w.end_minute + 1_440
            };
            let today = now.weekday;
            let yesterday = if now.weekday == 0 {
                6u8
            } else {
                (now.weekday - 1) as u8
            };
            ||| w.weekday_mask & (1u8 << today) != 0 && w.start_minute <= minute < stop
            ||| w.weekday_mask & (1u8 << yesterday) != 0 && w.start_minute <= minute + 1_440 < stop
        },
{
}

/// The masks name their days: Monday to Friday, Saturday and Sunday, and all seven.
pub proof fn the_masks_name_their_days(start_minute: u32, end_minute: u32, weekday: u8)
    requires
        weekday < 7,
    ensures
        (AwayWindow { weekday_mask: AwayWindow::WEEKDAYS, start_minute, end_minute }).begins_on(
            weekday as int,
        ) <==> weekday <= 4,
        (AwayWindow { weekday_mask: AwayWindow::WEEKEND, start_minute, end_minute }).begins_on(
            weekday as int,
        ) <==> weekday >= 5,
        (AwayWindow { weekday_mask: AwayWindow::EVERY_DAY, start_minute, end_minute }).begins_on(
            weekday as int,
        ),
{
    assert(weekday < 7 ==> (31u8 & (1u8 << weekday) != 0 <==> weekday <= 4)) by (bit_vector);
    assert(weekday < 7 ==> (96u8 & (1u8 << weekday) != 0 <==> weekday >= 5)) by (bit_vector);
    assert(weekday < 7 ==> 127u8 & (1u8 << weekday) != 0) by (bit_vector);
}

/// Two windows of every day that swap start and end share the day out between them: every instant
/// lies in exactly one.
pub proof fn windows_share_the_day(a: u32, b: u32, now: LocalDateTime)
    requires
        now.weekday < 7,
        a != b,
    ensures
        (AwayWindow { weekday_mask: AwayWindow::EVERY_DAY, start_minute: a, end_minute: b }).covers(
            now,
        ) != (AwayWindow {
            weekday_mask: AwayWindow::EVERY_DAY,
            start_minute: b,
            end_minute: a,
        }).covers(now),
{
    the_masks_name_their_days(a, b, now.weekday);
    the_masks_name_their_days(b, a, now.weekday);
    the_masks_name_their_days(a, b, ((now.weekday + 6) % 7) as u8);
    the_masks_name_their_days(b, a, ((now.weekday + 6) % 7) as u8);
}

/// A list of windows covers what one of them covers, and nothing else.
pub proof fn a_list_covers_what_its_windows_cover(windows: Seq<AwayWindow>, now: LocalDateTime)
    ensures
        windows.len() == 0 ==> !covered(windows, now),
        windows.len() > 0 ==> covered(windows, now) == (windows.last().covers(now) || covered(
            windows.drop_last(),
            now,
        )),
{
    if windows.len() > 0 {
        let rest = windows.drop_last();
        if covered(rest, now) {
            let i = choose|i: int| 0 <= i < rest.len() && (#[trigger] rest[i]).covers(now);
            assert(windows[i].covers(now));
        }
        if covered(windows, now) {
            let i = choose|i: int| 0 <= i < windows.len() && (#[trigger] windows[i]).covers(now);
            if i < rest.len() {
                assert(rest[i].covers(now));
            }
        }
        assert(windows.last() == windows[windows.len() - 1]);
    }
}

} // verus!
