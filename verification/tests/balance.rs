//! The balance ledger, by its rules.
use medienzeit::balance::{Event, Flow, Ledger, Policy, Snapshot, Window, WARNING_SECS};
use medienzeit::sim::berlin;

const DOCKED: [bool; 2] = [true, true];
const ONE_OUT: [bool; 2] = [false, true];
const BOTH_OUT: [bool; 2] = [false, false];
const HOME: [bool; 2] = [true, true];
const AWAY: [bool; 2] = [false, false];

fn run(
    l: &mut Ledger<2>,
    p: &Policy,
    start: i64,
    secs: i64,
    docked: [bool; 2],
    present: [bool; 2],
) -> (Snapshot<2>, Vec<Event>) {
    let (mut snap, ev) = l.tick(start, docked, present, p);
    let mut events: Vec<Event> = ev.iter().copied().collect();
    for t in 1..=secs {
        let (s, ev) = l.tick(start + t, docked, present, p);
        events.extend(ev.iter().copied());
        snap = s;
    }
    (snap, events)
}

fn afternoon() -> i64 {
    berlin(2026, 8, 3, 16, 0)
}

#[test]
fn put_back_at_home_fills_one_for_ten() {
    let mut l = Ledger::<2>::with_balance(600);
    let (s, ev) = run(&mut l, &Policy::default(), afternoon(), 100, DOCKED, HOME);
    assert_eq!(s.balance_secs, 610);
    assert_eq!(s.flow, Flow::Filling);
    assert_eq!(s.blocked, [false, false]);
    assert!(ev.is_empty());
}

#[test]
fn fractions_of_a_second_are_kept() {
    let mut l = Ledger::<2>::with_balance(600);
    let (s, _) = run(&mut l, &Policy::default(), afternoon(), 9, DOCKED, HOME);
    assert_eq!(s.balance_secs, 600);
    assert_eq!(l.earned_parts, 9);
    let (s, _) = l.tick(afternoon() + 10, DOCKED, HOME, &Policy::default());
    assert_eq!(s.balance_secs, 601);
    assert_eq!(l.earned_parts, 0);
}

#[test]
fn in_use_at_home_drains_one_for_one() {
    let mut l = Ledger::<2>::with_balance(3_600);
    let (s, _) = run(&mut l, &Policy::default(), afternoon(), 600, ONE_OUT, HOME);
    assert_eq!(s.balance_secs, 3_000);
    assert_eq!(s.flow, Flow::Draining);
    assert_eq!(s.blocked, [false, false]);
}

#[test]
fn two_devices_drain_as_fast_as_one() {
    let p = Policy::default();
    let mut one = Ledger::<2>::with_balance(3_600);
    let mut both = Ledger::<2>::with_balance(3_600);
    let (a, _) = run(&mut one, &p, afternoon(), 600, ONE_OUT, HOME);
    let (b, _) = run(&mut both, &p, afternoon(), 600, BOTH_OUT, HOME);
    assert_eq!(a.balance_secs, b.balance_secs);
}

#[test]
fn a_brief_pickup_is_free_and_a_long_one_is_billed_whole() {
    let p = Policy::default();
    let mut l = Ledger::<2>::with_balance(3_600);
    let (s, _) = run(&mut l, &p, afternoon(), 179, ONE_OUT, HOME);
    assert_eq!(s.balance_secs, 3_600);
    assert_eq!(s.flow, Flow::Held);
    assert!(s.in_grace);
    assert_eq!(s.grace_remaining_secs, 1);
    assert_eq!(l.pending_secs, 179);

    let mut put_back = l;
    let (s, _) = put_back.tick(afternoon() + 180, DOCKED, HOME, &p);
    assert_eq!(s.balance_secs, 3_600);
    assert_eq!(put_back.pending_secs, 0);

    let (s, _) = l.tick(afternoon() + 180, ONE_OUT, HOME, &p);
    assert_eq!(s.balance_secs, 3_420);
    assert_eq!(l.pending_secs, 0);
}

#[test]
fn out_of_the_house_fills_like_put_back() {
    let p = Policy::default();
    let mut docked = Ledger::<2>::with_balance(600);
    let mut out = Ledger::<2>::with_balance(600);
    let (a, _) = run(&mut docked, &p, afternoon(), 1_000, DOCKED, HOME);
    let (b, _) = run(&mut out, &p, afternoon(), 1_000, BOTH_OUT, AWAY);
    assert_eq!(a.balance_secs, 700);
    assert_eq!(b.balance_secs, 700);
    assert_eq!(b.flow, Flow::Filling);
    assert_eq!(b.blocked, [false, false]);
}

#[test]
fn the_night_fills_what_is_put_back_and_holds_what_is_taken() {
    let p = Policy::default();
    let late = berlin(2026, 8, 3, 22, 0);
    let mut l = Ledger::<2>::with_balance(600);
    let (s, ev) = run(&mut l, &p, late, 100, DOCKED, HOME);
    assert_eq!(s.balance_secs, 610);
    assert!(s.night);
    assert_eq!(ev, vec![Event::NightBegan]);

    let (s, ev) = run(&mut l, &p, late + 101, 600, ONE_OUT, HOME);
    assert_eq!(s.balance_secs, 610);
    assert_eq!(s.flow, Flow::Held);
    assert_eq!(s.blocked, [true, false]);
    assert!(!s.in_grace);
    assert_eq!(ev, vec![Event::UndockedAtNight { device: 0 }]);

    let (_, ev) = l.tick(berlin(2026, 8, 4, 6, 30), DOCKED, HOME, &p);
    assert!(ev.contains(&Event::NightEnded));
}

#[test]
fn nothing_left_blocks_and_drains_to_the_floor() {
    let p = Policy::default();
    let mut l = Ledger::<2>::with_balance(200);
    let (s, ev) = run(&mut l, &p, afternoon(), 200, ONE_OUT, HOME);
    assert_eq!(s.balance_secs, 0);
    assert!(s.exhausted());
    assert_eq!(s.blocked, [true, false]);
    assert_eq!(ev, vec![Event::Warning, Event::Exhausted]);

    let (s, ev) = run(&mut l, &p, afternoon() + 201, 3_000, ONE_OUT, HOME);
    assert_eq!(s.balance_secs, -1_800);
    assert!(ev.is_empty());

    let (s, _) = run(&mut l, &p, afternoon() + 4_000, 100, DOCKED, HOME);
    assert_eq!(s.balance_secs, -1_790);
    assert_eq!(s.blocked, [false, false]);
}

#[test]
fn the_cap_is_a_ceiling() {
    let p = Policy::default();
    let mut l = Ledger::<2>::with_balance(10_795);
    let (s, _) = run(&mut l, &p, afternoon(), 200, DOCKED, HOME);
    assert_eq!(s.balance_secs, 10_800);
    assert_eq!(l.earned_parts, 0);
}

#[test]
fn a_bonus_restores_and_respects_the_cap() {
    let p = Policy::default();
    let mut l = Ledger::<2>::with_balance(-60);
    let (_, ev) = l.tick(afternoon(), DOCKED, HOME, &p);
    assert!(ev.contains(&Event::Exhausted));
    l.grant_bonus(600, &p);
    assert_eq!(l.balance_secs, 540);
    let (_, ev) = l.tick(afternoon() + 1, DOCKED, HOME, &p);
    assert!(ev.contains(&Event::Restored));
    l.grant_bonus(u32::MAX, &p);
    assert_eq!(l.balance_secs, 10_800);
}

#[test]
fn the_warning_comes_once() {
    let p = Policy::default();
    let mut l = Ledger::<2>::with_balance(WARNING_SECS + 190);
    let (s, ev) = run(&mut l, &p, afternoon(), 250, ONE_OUT, HOME);
    assert_eq!(s.balance_secs, WARNING_SECS - 60);
    assert_eq!(ev, vec![Event::Warning]);
}

#[test]
fn a_time_jump_is_told_and_costs_nothing() {
    let p = Policy::default();
    let mut l = Ledger::<2>::with_balance(3_600);
    l.tick(afternoon(), ONE_OUT, HOME, &p);
    let (s, ev) = l.tick(afternoon() + 3_600, ONE_OUT, HOME, &p);
    assert_eq!(s.balance_secs, 3_600);
    assert_eq!(ev[0], Event::TimeJump { gap_secs: 3_600 });
    let (s, ev) = l.tick(afternoon(), ONE_OUT, HOME, &p);
    assert_eq!(s.balance_secs, 3_600);
    assert!(ev.is_empty());
}

#[test]
fn the_first_balance_is_the_prefill_up_to_the_cap() {
    let mut p = Policy::default();
    assert_eq!(Ledger::<2>::new(&p).balance_secs, 1_800);
    p.cap_secs = 600;
    assert_eq!(Ledger::<2>::new(&p).balance_secs, 600);
}

#[test]
fn a_fresh_ledger_uses_nothing() {
    let l = Ledger::<2>::with_balance(1);
    assert!(!l.any_used());
    assert_eq!(l.grace_remaining_secs(0, &Policy::default()), 0);
}

#[test]
fn the_same_rules_are_a_clone_away() {
    let mut p = Policy::default();
    let _ = p.night.push(Window::hm(Window::WEEKEND, 13, 0, 14, 0));
    let q = p.clone();
    assert_eq!(p, q);
    let noon = medienzeit::civil::local(berlin(2026, 8, 1, 13, 30));
    assert!(q.is_night(&noon));
    let monday = medienzeit::civil::local(berlin(2026, 8, 3, 13, 30));
    assert!(!q.is_night(&monday));
}

#[test]
fn more_events_than_fit_are_cut_off() {
    let p = Policy::default();
    let mut l = Ledger::<12>::with_balance(600);
    let (_, ev) = l.tick(berlin(2026, 8, 3, 23, 0), [false; 12], [true; 12], &p);
    assert_eq!(ev.len(), 8);
    assert_eq!(ev[0], Event::NightBegan);
    assert_eq!(ev[7], Event::UndockedAtNight { device: 6 });
}
