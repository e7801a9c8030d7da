//! Settings as they are stored.
use medienzeit::balance::Policy;
use medienzeit::settings::{decode, encode, Settings, SETTINGS_LEN};

fn sample() -> Settings {
    Settings::from_policy(&Policy::default(), 7)
}

#[test]
fn settings_round_trips() {
    let s = sample();
    assert_eq!(decode(&encode(&s)), Some(s));
}

#[test]
fn defaults_survive_the_policy_conversion() {
    let p = Policy::default();
    let back = Settings::from_policy(&p, 0).to_policy();
    assert_eq!(back.refill_num, p.refill_num);
    assert_eq!(back.refill_den, p.refill_den);
    assert_eq!(back.cap_secs, p.cap_secs);
    assert_eq!(back.floor_secs, p.floor_secs);
    assert_eq!(back.prefill_secs, p.prefill_secs);
    assert_eq!(back.grace_secs, p.grace_secs);
    assert_eq!(back.night.len(), p.night.len());
    assert_eq!(back.night[0].start_minute, p.night[0].start_minute);
    assert_eq!(back.night[0].end_minute, p.night[0].end_minute);
}

/// Erased flash is all ones. It must not decode as settings, or a blank device would
/// boot with nonsense rules instead of the compiled-in defaults.
#[test]
fn erased_flash_is_not_settings() {
    assert_eq!(decode(&[0xff; SETTINGS_LEN]), None);
}

#[test]
fn settings_every_single_bit_flip_is_caught() {
    let good = encode(&sample());
    for byte in 0..SETTINGS_LEN {
        for bit in 0..8 {
            let mut bad = good;
            bad[byte] ^= 1 << bit;
            assert_eq!(decode(&bad), None, "byte {byte} bit {bit} slipped through");
        }
    }
}

/// A zero denominator divides by zero in the refill; it must never reach the ledger.
#[test]
fn rejects_a_zero_denominator() {
    let mut s = sample();
    s.refill_den = 0;
    assert_eq!(decode(&encode(&s)), None);
}

#[test]
fn rejects_impossible_clock_times() {
    let mut s = sample();
    s.night_start_minute = 24 * 60;
    assert_eq!(decode(&encode(&s)), None);
}

/// Equal start and end would otherwise store a zero-length night, silently removing
/// the rule instead of changing it.
#[test]
fn a_degenerate_night_window_is_dropped_not_stored_empty() {
    let mut s = sample();
    s.night_start_minute = 600;
    s.night_end_minute = 600;
    assert!(s.to_policy().night.is_empty());
}
