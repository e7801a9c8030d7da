//! Driving the panel.
use medienzeit::panel::{Panel, Step};
use medienzeit::screen::Refresh;

#[test]
fn every_update_ends_asleep_and_the_next_one_wakes() {
    let mut p = Panel::new();
    assert_eq!(
        p.present(Refresh::Full),
        vec![Step::Waveform(Refresh::Full), Step::Update, Step::Display, Step::Sleep]
    );
    assert!(p.asleep);
    assert_eq!(
        p.present(Refresh::Full),
        vec![Step::Wake, Step::Waveform(Refresh::Full), Step::Update, Step::Display, Step::Sleep]
    );
}

#[test]
fn a_loaded_waveform_is_not_loaded_again() {
    let mut p = Panel { asleep: false, lut: Some(Refresh::Quick) };
    assert_eq!(p.present(Refresh::Quick), vec![Step::Update, Step::Display, Step::Sleep]);
    let mut p = Panel { asleep: false, lut: Some(Refresh::Quick) };
    assert_eq!(p.present(Refresh::Full)[0], Step::Waveform(Refresh::Full));
}
