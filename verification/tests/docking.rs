//! From what the reader sees to which device is put back.
use medienzeit::docking::Docking;

type D = Docking<u8, 2>;

fn with_tags() -> D {
    Docking::new([Some(1), Some(2)])
}

#[test]
fn a_tag_in_the_field_means_put_back() {
    let mut d = with_tags();
    assert_eq!(d.update(Some(&[1, 2]), [false; 2]).docked, [true, true]);
    assert_eq!(d.update(Some(&[1]), [false; 2]).docked, [true, false]);
    assert_eq!(d.update(Some(&[]), [false; 2]).docked, [false, false]);
}

/// Fresh state is docked, so a device is never charged for time before anything is
/// known about it.
#[test]
fn it_starts_docked() {
    let mut d = with_tags();
    // A failure on the very first poll must report the starting assumption.
    assert_eq!(d.update(None, [false; 2]).docked, [true, true]);
}

/// The regression that has bitten twice: a failing reader must not read as "the
/// devices have been taken away".
#[test]
fn a_reader_failure_holds_the_last_state() {
    let mut d = with_tags();
    d.update(Some(&[1, 2]), [false; 2]);
    for _ in 0..20 {
        assert_eq!(
            d.update(None, [false; 2]).docked,
            [true, true],
            "a failing reader must not look like a device being taken"
        );
    }
}

#[test]
fn a_failure_holds_a_taken_device_taken_too() {
    let mut d = with_tags();
    d.update(Some(&[]), [false; 2]);
    assert_eq!(d.update(None, [false; 2]).docked, [false, false]);
}

/// An empty reading is a real reading: nothing is in the field.
#[test]
fn an_empty_reading_is_not_a_failure() {
    let mut d = with_tags();
    d.update(Some(&[1, 2]), [false; 2]);
    let r = d.update(Some(&[]), [false; 2]);
    assert_eq!(r.docked, [false, false]);
    assert!(!r.reader_fault);
}

#[test]
fn the_fault_alert_fires_once_not_every_tick() {
    let mut d = Docking::<u8, 2>::with_threshold([Some(1), Some(2)], 3);
    assert!(!d.update(None, [false; 2]).reader_fault);
    assert!(!d.update(None, [false; 2]).reader_fault);
    assert!(d.update(None, [false; 2]).reader_fault, "fires at the threshold");
    for _ in 0..10 {
        assert!(
            !d.update(None, [false; 2]).reader_fault,
            "and not again while the same fault continues"
        );
    }
}

#[test]
fn recovering_rearms_the_fault_alert() {
    let mut d = Docking::<u8, 2>::with_threshold([Some(1), Some(2)], 2);
    d.update(None, [false; 2]);
    assert!(d.update(None, [false; 2]).reader_fault);
    d.update(Some(&[1]), [false; 2]);
    d.update(None, [false; 2]);
    assert!(d.update(None, [false; 2]).reader_fault, "a second outage alerts again");
}

#[test]
fn an_unknown_tag_is_reported_once_per_identity() {
    let mut d = with_tags();
    assert_eq!(d.update(Some(&[9]), [false; 2]).unknown, Some(9));
    for _ in 0..5 {
        assert_eq!(
            d.update(Some(&[9]), [false; 2]).unknown,
            None,
            "the same stray tag must not alert every second"
        );
    }
    assert_eq!(d.update(Some(&[8]), [false; 2]).unknown, Some(8));
}

#[test]
fn a_known_tag_is_never_unknown() {
    let mut d = with_tags();
    assert_eq!(d.update(Some(&[1, 2]), [false; 2]).unknown, None);
}

/// Leaving and returning should alert again — it is a fresh event.
#[test]
fn an_unknown_tag_that_leaves_and_returns_alerts_again() {
    let mut d = with_tags();
    d.update(Some(&[9]), [false; 2]);
    d.update(Some(&[]), [false; 2]);
    assert_eq!(d.update(Some(&[9]), [false; 2]).unknown, Some(9));
}

#[test]
fn a_device_without_an_identity_uses_the_fallback() {
    let mut d: D = Docking::new([Some(1), None]);
    assert_eq!(d.update(Some(&[1]), [false, true]).docked, [true, true]);
    assert_eq!(d.update(Some(&[1]), [false, false]).docked, [true, false]);
}

#[test]
fn unconfigured_only_when_nothing_is_set() {
    let none: D = Docking::new([None, None]);
    assert!(none.unconfigured());
    let tag: D = Docking::new([Some(1), None]);
    assert!(!tag.unconfigured());
}
