//! What crosses between the room and the network.
use medienzeit::balance::{Ledger, Policy};
use medienzeit::notify::Health;
use medienzeit::settings::Settings;
use medienzeit::shared::Shared;

#[test]
fn values_stay_and_events_are_taken_once() {
    let mut s = Shared::default();
    assert_eq!(s.presence(), [false, false]);
    s.publish_presence([true, false]);
    assert_eq!(s.presence(), [true, false]);
    assert_eq!(s.presence(), [true, false]);

    s.signal_clock(5);
    assert_eq!(s.take_clock(), Some(5));
    assert_eq!(s.take_clock(), None);
    s.signal_persist(1, 2);
    s.signal_persist(3, 4);
    assert_eq!(s.take_persist(), Some((3, 4)));
    assert_eq!(s.take_persist(), None);
    s.signal_bonus(600);
    assert_eq!(s.take_bonus(), Some(600));
    assert_eq!(s.take_bonus(), None);
}

#[test]
fn rules_and_snapshots_are_published() {
    let mut s = Shared::default();
    assert!(s.policy().is_none());
    let mut p = Policy::default();
    p.cap_secs = 60;
    s.publish_policy(p);
    assert_eq!(s.policy().unwrap().cap_secs, 60);

    assert!(s.snapshot().is_none());
    let (snap, _) = Ledger::<2>::with_balance(7).tick(0, [true; 2], [true; 2], &Policy::default());
    s.publish_snapshot(snap);
    assert_eq!(s.snapshot(), Some(snap));

    let settings = Settings::from_policy(&Policy::default(), 3);
    assert!(s.current_settings().is_none());
    s.publish_settings(settings);
    assert_eq!(s.current_settings(), Some(settings));
    assert_eq!(s.take_settings(), None);
    s.submit_settings(settings);
    assert_eq!(s.take_settings(), Some(settings));
    assert_eq!(s.take_settings(), None);
}

#[test]
fn the_health_of_alerting_is_there_to_read() {
    let mut s = Shared::default();
    assert_eq!(s.health(), Health::default());
    s.health.succeeded(5);
    assert_eq!(s.health(), Health { sent: 1, failed_in_a_row: 0, last_ok_ms: Some(5) });
    assert_eq!(s.health().sent, 1);
}
