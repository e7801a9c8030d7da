//! Deciding whether to redraw the e-paper, and with which waveform.
//!
//! E-paper updates are slow and the panel has a finite number of them. Going in or out of the
//! lockout, or of the night, inverts most of the screen, and the quick waveform would leave
//! the old image ghosted through the new one.
use crate::balance::{Flow, Snapshot};
use crate::ui;
use vstd::prelude::*;

verus! {

/// Which waveform to drive the panel with.
#[derive(Debug, Clone, Copy, PartialEq, Eq, Structural)]
pub enum Refresh {
    /// Slow and flashing, but leaves no residue.
    Full,
    /// Fast, and accumulates ghosting.
    Quick,
}

/// Everything the screen actually shows. The balance is in whole minutes on purpose: it is
/// displayed in minutes, so the other 59 seconds of every minute are not a visible change.
#[derive(Debug, Clone, Copy, PartialEq, Eq)]
pub struct Fingerprint {
    pub balance_mins: i32,
    /// Whether nothing of the balance is left, which a last minute does not show.
    pub exhausted: bool,
    pub hour: u32,
    pub minute: u32,
    pub night: bool,
    pub flow: Flow,
    pub docked: [bool; 2],
}

/// Whole minutes in a number of seconds, rounded toward zero.
pub open spec fn whole_minutes(secs: int) -> int {
    if secs >= 0 {
        secs / 60
    } else {
        -((-secs) / 60)
    }
}

impl Fingerprint {
    /// Whether two fingerprints show the same.
    pub open spec fn shows_same(self, other: Self) -> bool {
        &&& self.balance_mins == other.balance_mins
        &&& self.exhausted == other.exhausted
        &&& self.hour == other.hour
        &&& self.minute == other.minute
        &&& self.night == other.night
        &&& self.flow == other.flow
        &&& self.docked@[0] == other.docked@[0]
        &&& self.docked@[1] == other.docked@[1]
    }

    /// Whether the screen is in its "blocked" presentation for want of balance.
    pub open spec fn locked(self) -> bool {
        self.exhausted
    }

    /// What of a snapshot is visible.
    pub open spec fn shown(s: Snapshot<2>) -> Fingerprint {
        Fingerprint {
            balance_mins: whole_minutes(s.balance_secs as int) as i32,
            exhausted: s.balance_secs <= 0,
            hour: s.local.hour,
            minute: s.local.minute,
            night: s.night,
            flow: s.flow,
            docked: s.docked,
        }
    }

    /// What of a snapshot is visible.
    pub fn of(s: &Snapshot<2>) -> (r: Self)
        ensures
            r == Self::shown(*s),
            r.balance_mins == whole_minutes(s.balance_secs as int),
    {
        let mins: i64 = if s.balance_secs >= 0 {
            s.balance_secs as i64 / 60
        } else {
            -(-(s.balance_secs as i64) / 60)
        };
        Fingerprint {
            balance_mins: mins as i32,
            exhausted: s.balance_secs <= 0,
            hour: s.local.hour,
            minute: s.local.minute,
            night: s.night,
            flow: s.flow,
            docked: s.docked,
        }
    }

    /// True when the screen is in its "blocked" presentation, which is the transition that
    /// inverts it.
    fn locked_out(&self) -> (r: bool)
        ensures
            r == self.locked(),
    {
        self.exhausted
    }

    /// Whether two fingerprints show the same.
    fn same(&self, other: &Self) -> (r: bool)
        ensures
            r == self.shows_same(*other),
    {
        self.balance_mins == other.balance_mins && self.exhausted == other.exhausted && self.hour
            == other.hour && self.minute == other.minute && self.night == other.night && self.flow
            == other.flow && self.docked[0] == other.docked[0] && self.docked[1] == other.docked[1]
    }
}

/// Quick refreshes before forcing a full one to clear accumulated ghosting. At one update per
/// minute that is a flash every half hour.
pub const DEFAULT_QUICK_PER_FULL: u32 = 30;

/// Tracks what is on the panel and decides what to do next.
#[derive(Debug)]
pub struct Screen {
    pub last: Option<Fingerprint>,
    pub quick_since_full: u32,
    pub quick_per_full: u32,
}

impl Default for Screen {
    fn default() -> (r: Self)
        ensures
            r == (Screen { last: None, quick_since_full: 0, quick_per_full: 30 }),
    {
        Screen::new(DEFAULT_QUICK_PER_FULL)
    }
}

impl Screen {
    /// Whether going from what is shown to `now` inverts the screen.
    pub open spec fn inverts(previous: Fingerprint, now: Fingerprint) -> bool {
        previous.night != now.night || previous.locked() != now.locked()
    }

    /// How to draw `now`, if it needs drawing at all.
    pub open spec fn decision(self, now: Fingerprint) -> Option<Refresh> {
        match self.last {
            None => Some(Refresh::Full),
            Some(previous) => if previous.shows_same(now) {
                None
            } else if Self::inverts(previous, now) || self.quick_since_full >= self.quick_per_full {
                Some(Refresh::Full)
            } else {
                Some(Refresh::Quick)
            },
        }
    }

    /// The screen after `fp` was drawn.
    pub open spec fn after(self, fp: Fingerprint, mode: Refresh) -> Screen {
        Screen {
            last: Some(fp),
            quick_since_full: match mode {
                Refresh::Full => 0,
                Refresh::Quick => (self.quick_since_full + 1) as u32,
            },
            quick_per_full: self.quick_per_full,
        }
    }

    pub fn new(quick_per_full: u32) -> (r: Self)
        ensures
            r == (Screen { last: None, quick_since_full: 0, quick_per_full }),
    {
        Screen { last: None, quick_since_full: 0, quick_per_full }
    }

    /// What to draw, if anything. `None` means the panel already shows this.
    ///
    /// Call [`Screen::drawn`] once the refresh has actually happened, not before.
    pub fn decide(&self, now: Fingerprint) -> (r: Option<Refresh>)
        ensures
            r == self.decision(now),
    {
        match self.last {
            // First frame of the session: nothing on the panel can be trusted.
            None => Some(Refresh::Full),
            Some(previous) => {
                if previous.same(&now) {
                    return None;
                }
                let inverted: bool = previous.night != now.night || previous.locked_out()
                    != now.locked_out();
                if inverted || self.quick_since_full >= self.quick_per_full {
                    Some(Refresh::Full)
                } else {
                    Some(Refresh::Quick)
                }
            },
        }
    }

    /// Record that the panel now shows `fp`, drawn with `mode`.
    pub fn drawn(&mut self, fp: Fingerprint, mode: Refresh)
        requires
            mode == Refresh::Quick ==> old(self).quick_since_full < u32::MAX,
        ensures
            *final(self) == old(self).after(fp, mode),
    {
        self.last = Some(fp);
        self.quick_since_full = match mode {
            Refresh::Full => 0,
            Refresh::Quick => self.quick_since_full + 1,
        };
    }
}

/// A screen that was drawn is not drawn again until something visible changes.
pub proof fn drawn_once(s: Screen, fp: Fingerprint, mode: Refresh, now: Fingerprint)
    requires
        mode == Refresh::Quick ==> s.quick_since_full < u32::MAX,
    ensures
        s.after(fp, mode).decision(now) is None <==> fp.shows_same(now),
{
}

/// Going in or out of the lockout is always drawn in full, and so is going in or out of the night.
pub proof fn inversions_are_drawn_in_full(
    s: Screen,
    before: Snapshot<2>,
    mode: Refresh,
    now: Snapshot<2>,
)
    requires
        ui::locked(before) != ui::locked(now) || before.night != now.night,
    ensures
        s.after(Fingerprint::shown(before), mode).decision(Fingerprint::shown(now)) == Some(
            Refresh::Full,
        ),
{
}

/// Drawing as decided, no more than `quick_per_full` quick refreshes follow one another.
pub proof fn ghosting_is_bounded(s: Screen, now: Fingerprint)
    requires
        s.quick_since_full <= s.quick_per_full,
        s.decision(now) is Some,
    ensures
        s.after(now, s.decision(now)->0).quick_since_full <= s.quick_per_full,
{
}

/// Whole minutes are what fits in full, whichever side of zero.
pub proof fn whole_minutes_fit_in_full(secs: int)
    ensures
        secs >= 0 ==> 0 <= whole_minutes(secs) && 60 * whole_minutes(secs) <= secs < 60
            * whole_minutes(secs) + 60,
        secs <= 0 ==> whole_minutes(secs) <= 0 && 60 * whole_minutes(secs) - 60 < secs <= 60
            * whole_minutes(secs),
{
}

/// The panel is left alone exactly while what it shows stays the same: the whole minutes of the
/// balance and whether any is left, the time of day to the minute, the night, which way the balance
/// flows, and where each device is.
pub proof fn the_panel_is_left_alone_while_nothing_visible_changes(
    s: Screen,
    before: Snapshot<2>,
    mode: Refresh,
    now: Snapshot<2>,
)
    requires
        mode == Refresh::Quick ==> s.quick_since_full < u32::MAX,
    ensures
        s.after(Fingerprint::shown(before), mode).decision(Fingerprint::shown(now)) is None <==> {
            &&& whole_minutes(before.balance_secs as int) == whole_minutes(now.balance_secs as int)
            &&& before.balance_secs > 0 <==> now.balance_secs > 0
            &&& before.local.hour == now.local.hour
            &&& before.local.minute == now.local.minute
            &&& before.night == now.night
            &&& before.flow == now.flow
            &&& before.docked@[0] == now.docked@[0]
            &&& before.docked@[1] == now.docked@[1]
        },
{
}

/// A change is drawn quickly unless it inverts the screen or as many quick refreshes as are allowed
/// have followed one another; nothing on the panel is trusted before the first refresh.
pub proof fn a_change_is_drawn_quickly_unless(
    s: Screen,
    before: Snapshot<2>,
    mode: Refresh,
    now: Snapshot<2>,
)
    requires
        mode == Refresh::Quick ==> s.quick_since_full < u32::MAX,
    ensures
        ({
            let drawn = s.after(Fingerprint::shown(before), mode);
            let decision = drawn.decision(Fingerprint::shown(now));
            let inverts = (before.night != now.night) || ((before.balance_secs <= 0) != (
            now.balance_secs <= 0));
            &&& drawn.quick_per_full == s.quick_per_full
            &&& drawn.quick_since_full == if mode == Refresh::Full {
                0
            } else {
                s.quick_since_full + 1
            }
            &&& decision is Some ==> (decision->0 == Refresh::Full <==> inverts
                || drawn.quick_since_full >= drawn.quick_per_full)
        }),
        s.last is None ==> s.decision(Fingerprint::shown(now)) == Some(Refresh::Full),
{
}

} // verus!
