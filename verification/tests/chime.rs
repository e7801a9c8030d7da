//! The chime.
use medienzeit::chime::{
    beep, fill_tone, samples_for, warning_notes, MAX_SAMPLES, MAX_TONE_MS, SAMPLE_RATE,
    WARNING_GAP_MS,
};

#[test]
fn a_tone_is_clamped() {
    assert_eq!(samples_for(0), 0);
    assert_eq!(samples_for(120), 2_880);
    assert_eq!(samples_for(400), 9_600);
    assert_eq!(samples_for(u32::MAX), MAX_SAMPLES);
}

#[test]
fn the_warning_rises_and_is_over_within_a_second() {
    let [a, b] = warning_notes();
    assert_eq!(a, (880, 120));
    assert_eq!(b, (1174, 160));
    assert!(a.1.min(MAX_TONE_MS) + WARNING_GAP_MS + b.1.min(MAX_TONE_MS) < 1_000);
}

#[test]
fn a_tone_is_a_faded_triangle() {
    // A period of ten samples, half of them up.
    let mut buf = [0i16; 80];
    fill_tone(&mut buf, SAMPLE_RATE / 10);
    // The fade takes ten samples; behind it the wave has its full height.
    assert_eq!(buf[0], 0);
    assert_eq!(buf[20..30], [-9_000, -5_400, -1_800, 1_800, 5_400, 9_000, 5_400, 1_800, -1_800, -5_400]);
    assert_eq!(buf[5], 4_500);
    assert_eq!(buf[10], -9_000);
    // (80 - 79) / 10 of the volume is left at the end.
    assert_eq!(buf[79], -527);
    assert!(buf.iter().all(|s| (-9_000..=9_000).contains(s)));
}

#[test]
fn extreme_frequencies_are_tamed() {
    let mut low = [0i16; 16];
    fill_tone(&mut low, 0);
    assert_eq!(low[8], -8_988);
    let mut high = [0i16; 16];
    fill_tone(&mut high, u32::MAX);
    assert_eq!(high[8..10], [-9_000, 9_000]);
    fill_tone(&mut [], 440);
}

#[test]
fn a_beep_of_no_length_is_not_played() {
    assert!(beep(880, 0).is_none());
    let tone = beep(880, 1_000).unwrap();
    assert_eq!(tone.len(), MAX_SAMPLES);
    let mut same = vec![0i16; MAX_SAMPLES];
    fill_tone(&mut same, 880);
    assert_eq!(tone, same);
}
