//! When the panel is redrawn, and how.
use medienzeit::balance::{Flow, Snapshot};
use medienzeit::civil::{LocalDateTime, SUN};
use medienzeit::screen::{Fingerprint, Refresh, Screen};

fn snap(balance_secs: i32, hour: u32, minute: u32, night: bool) -> Snapshot<2> {
    Snapshot {
        balance_secs,
        cap_secs: 10_800,
        docked: [true, true],
        present: [true, true],
        flow: Flow::Filling,
        night,
        in_grace: false,
        grace_remaining_secs: 0,
        blocked: [false, false],
        local: LocalDateTime {
            year: 2026,
            month: 9,
            day: 6,
            hour,
            minute,
            second: 0,
            weekday: SUN,
        },
    }
}

fn fp(balance_secs: i32, hour: u32, minute: u32, night: bool) -> Fingerprint {
    Fingerprint::of(&snap(balance_secs, hour, minute, night))
}

#[test]
fn the_first_frame_is_full_because_nothing_is_known() {
    let s = Screen::default();
    assert_eq!(s.decide(fp(600, 12, 0, false)), Some(Refresh::Full));
}

#[test]
fn an_unchanged_screen_is_not_redrawn() {
    let mut s = Screen::default();
    let f = fp(600, 12, 0, false);
    s.drawn(f, Refresh::Full);
    assert_eq!(s.decide(f), None, "a refresh the panel does not need is one it never gets back");
}

/// Seconds are not shown, so draining through them is not a change. The bucket runs
/// from a whole minute up to the next one, so 659 s and 600 s both display as 10.
#[test]
fn sub_minute_balance_movement_is_invisible() {
    let mut s = Screen::default();
    s.drawn(fp(659, 12, 0, false), Refresh::Full);
    assert_eq!(s.decide(fp(630, 12, 0, false)), None);
    assert_eq!(s.decide(fp(600, 12, 0, false)), None);
    assert_eq!(
        s.decide(fp(599, 12, 0, false)),
        Some(Refresh::Quick),
        "crossing to 9 is a digit the parent can see"
    );
}

#[test]
fn an_ordinary_change_uses_the_quick_waveform() {
    let mut s = Screen::default();
    s.drawn(fp(600, 12, 0, false), Refresh::Full);
    assert_eq!(s.decide(fp(600, 12, 1, false)), Some(Refresh::Quick));
}

/// The case this module exists for: an inverted screen drawn quick is ghosted, and
/// it is the screen explaining why the internet stopped.
#[test]
fn crossing_into_lockout_forces_a_full_refresh() {
    let mut s = Screen::default();
    s.drawn(fp(60, 12, 0, false), Refresh::Full);
    assert_eq!(s.decide(fp(0, 12, 1, false)), Some(Refresh::Full));
}

#[test]
fn climbing_back_out_of_lockout_forces_one_too() {
    let mut s = Screen::default();
    s.drawn(fp(-30, 12, 0, false), Refresh::Full);
    assert_eq!(s.decide(fp(60, 12, 1, false)), Some(Refresh::Full));
}

#[test]
fn staying_in_lockout_does_not_keep_flashing() {
    let mut s = Screen::default();
    s.drawn(fp(-60, 12, 0, false), Refresh::Full);
    assert_eq!(
        s.decide(fp(-120, 12, 1, false)),
        Some(Refresh::Quick),
        "already blocked and still blocked is not an inversion"
    );
}

#[test]
fn entering_and_leaving_the_night_forces_a_full_refresh() {
    let mut s = Screen::default();
    s.drawn(fp(600, 20, 59, false), Refresh::Full);
    assert_eq!(s.decide(fp(600, 21, 0, true)), Some(Refresh::Full));
    s.drawn(fp(600, 21, 0, true), Refresh::Full);
    assert_eq!(s.decide(fp(600, 6, 30, false)), Some(Refresh::Full));
}

#[test]
fn ghosting_is_cleared_on_a_schedule() {
    let mut s = Screen::new(3);
    s.drawn(fp(600, 12, 0, false), Refresh::Full);
    for i in 1..=3 {
        let f = fp(600, 12, i, false);
        assert_eq!(s.decide(f), Some(Refresh::Quick), "quick {i}");
        s.drawn(f, Refresh::Quick);
    }
    assert_eq!(
        s.decide(fp(600, 12, 4, false)),
        Some(Refresh::Full),
        "the fourth change clears what three quick refreshes left behind"
    );
}

#[test]
fn a_full_refresh_resets_the_ghosting_count() {
    let mut s = Screen::new(2);
    s.drawn(fp(600, 12, 0, false), Refresh::Full);
    s.drawn(fp(600, 12, 1, false), Refresh::Quick);
    s.drawn(fp(600, 12, 2, false), Refresh::Full);
    assert_eq!(s.decide(fp(600, 12, 3, false)), Some(Refresh::Quick));
}

/// Docking is on the screen, so it has to be in the fingerprint — otherwise putting
/// a device back would not show until the minute happened to change.
#[test]
fn docking_is_a_visible_change() {
    let mut s = Screen::default();
    let mut before = snap(600, 12, 0, false);
    before.docked = [true, true];
    let mut after = before.clone();
    after.docked = [true, false];
    s.drawn(Fingerprint::of(&before), Refresh::Full);
    assert_eq!(s.decide(Fingerprint::of(&after)), Some(Refresh::Quick));
}

#[test]
fn a_flow_change_is_a_visible_change() {
    let mut s = Screen::default();
    let before = snap(600, 12, 0, false);
    let mut after = before.clone();
    after.flow = Flow::Draining;
    s.drawn(Fingerprint::of(&before), Refresh::Full);
    assert_eq!(s.decide(Fingerprint::of(&after)), Some(Refresh::Quick));
}

/// The last minute still counts as time left, so the lockout begins at its end.
#[test]
fn the_end_of_the_last_minute_is_drawn_in_full() {
    let mut s = Screen::default();
    s.drawn(fp(90, 12, 0, false), Refresh::Full);
    assert_eq!(s.decide(fp(30, 12, 0, false)), Some(Refresh::Quick));
    s.drawn(fp(30, 12, 0, false), Refresh::Quick);
    assert_eq!(s.decide(fp(1, 12, 0, false)), None);
    assert_eq!(s.decide(fp(0, 12, 0, false)), Some(Refresh::Full));
    assert_eq!(s.decide(fp(-10, 12, 0, false)), Some(Refresh::Full));
}
