//! The handshake before flash is written.
use medienzeit::flashlock::{next, stays_parked, Flags, Next, PARK_SPINS};

#[test]
fn the_writer_waits_for_the_room_but_not_forever() {
    assert_eq!(next(false, 100, 100), Next::Wait);
    assert_eq!(next(false, 5_100, 100), Next::Wait);
    assert_eq!(next(false, 5_101, 100), Next::GiveUp);
    assert_eq!(next(true, 9_999, 100), Next::Write);
    assert_eq!(next(false, 0, 100), Next::Wait);
}

#[test]
fn the_room_parks_when_asked_and_goes_on_when_released() {
    let mut f = Flags { requested: false, parked: false };
    assert!(!f.yield_if_asked(0));
    f.request();
    assert!(!f.room_is_parked());
    assert!(f.yield_if_asked(0));
    assert!(f.room_is_parked());
    f.release();
    assert!(!f.yield_if_asked(1));
    assert!(!f.room_is_parked());
}

#[test]
fn the_room_gives_up_on_a_writer_that_never_comes_back() {
    assert!(stays_parked(true, PARK_SPINS - 1));
    assert!(!stays_parked(true, PARK_SPINS));
    let mut f = Flags { requested: true, parked: true };
    assert!(!f.yield_if_asked(PARK_SPINS));
    assert!(!f.room_is_parked());
}
