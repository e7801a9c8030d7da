//! The balance journal in flash.
use medienzeit::journal::{
    decode, detect_outage, encode, needs_erase, newest, next_slot, Record, RECORD_LEN,
};

const ERASED: [u8; RECORD_LEN] = [0xFF; RECORD_LEN];

fn rec(seq: u32, balance: i32, tick: i64) -> Record {
    Record { seq, balance_secs: balance, last_tick: tick }
}

#[test]
fn journal_round_trips() {
    for r in [
        rec(0, 0, 0),
        rec(1, 3_600, 1_785_788_154),
        rec(u32::MAX, i32::MIN, i64::MAX),
        rec(7, -1_800, -1),
    ] {
        assert_eq!(decode(&encode(&r)), Some(r));
    }
}

#[test]
fn erased_flash_is_not_a_record() {
    // A fresh region is all 0xFF. Reading that as data would resurrect a balance
    // out of nothing.
    assert_eq!(decode(&ERASED), None);
    assert_eq!(decode(&[0u8; RECORD_LEN]), None);
}

#[test]
fn a_torn_write_is_rejected() {
    // Power lost mid-write: the header landed, the tail did not.
    let mut slot = encode(&rec(4, 1_234, 1_785_788_154));
    slot[14..20].copy_from_slice(&[0xFF; 6]);
    assert_eq!(decode(&slot), None);
}

#[test]
fn journal_every_single_bit_flip_is_caught() {
    let good = encode(&rec(9, 4_242, 1_785_788_154));
    for byte in 0..RECORD_LEN {
        for bit in 0..8 {
            let mut bad = good;
            bad[byte] ^= 1 << bit;
            assert_eq!(decode(&bad), None, "bit {bit} of byte {byte} slipped through");
        }
    }
}

#[test]
fn short_slots_do_not_panic() {
    for n in 0..RECORD_LEN {
        assert_eq!(decode(&ERASED[..n]), None);
    }
}

#[test]
fn newest_wins_regardless_of_position() {
    let a = encode(&rec(3, 100, 10));
    let b = encode(&rec(9, 200, 20));
    let c = encode(&rec(5, 300, 30));
    let slots: [&[u8]; 4] = [&a, &b, &c, &ERASED];
    assert_eq!(newest(&slots), Some((1, rec(9, 200, 20))));
}

#[test]
fn newest_skips_corruption_rather_than_giving_up() {
    let mut broken = encode(&rec(99, 1, 1));
    broken[7] ^= 0xFF;
    let good = encode(&rec(4, 500, 50));
    let slots: [&[u8]; 3] = [&broken, &good, &ERASED];
    // The corrupt record has the highest sequence number, and must not win.
    assert_eq!(newest(&slots), Some((1, rec(4, 500, 50))));
}

#[test]
fn an_empty_region_has_no_newest() {
    let slots: [&[u8]; 2] = [&ERASED, &ERASED];
    assert_eq!(newest(&slots), None);
}

#[test]
fn the_ring_wraps() {
    assert_eq!(next_slot(None, 8), 0);
    assert_eq!(next_slot(Some(0), 8), 1);
    assert_eq!(next_slot(Some(7), 8), 0);
}

#[test]
fn erase_happens_only_at_sector_boundaries() {
    let per_sector = 204;
    assert!(needs_erase(0, per_sector));
    assert!(!needs_erase(1, per_sector));
    assert!(!needs_erase(203, per_sector));
    assert!(needs_erase(204, per_sector));
    assert!(!needs_erase(205, per_sector));
}

#[test]
fn a_full_lap_of_the_ring_keeps_the_newest_record() {
    // Simulates the region as it actually behaves: write in order, erase a sector
    // when entering it, and confirm the newest record is always recoverable.
    const SLOTS: usize = 12;
    const PER_SECTOR: usize = 4;
    let mut region = [[0xFFu8; RECORD_LEN]; SLOTS];
    let mut newest_index = None;

    for seq in 1..=40u32 {
        let slot = next_slot(newest_index, SLOTS);
        if needs_erase(slot, PER_SECTOR) {
            let sector = slot / PER_SECTOR;
            for s in &mut region[sector * PER_SECTOR..(sector + 1) * PER_SECTOR] {
                *s = [0xFF; RECORD_LEN];
            }
        }
        region[slot] = encode(&rec(seq, seq as i32 * 10, seq as i64));
        newest_index = Some(slot);

        let view: heapless::Vec<&[u8], SLOTS> =
            region.iter().map(|s| s.as_slice()).collect();
        let (idx, found) = newest(&view).expect("something must survive");
        assert_eq!(found.seq, seq, "lost the newest record at seq {seq}");
        assert_eq!(idx, slot);
    }
}

#[test]
fn a_long_gap_is_an_outage() {
    let o = detect_outage(1_000, 1_000 + 3_600, 300).expect("should report");
    assert_eq!(o.secs(), 3_600);
    assert_eq!(o.from, 1_000);
}

#[test]
fn a_short_gap_is_just_a_reboot() {
    assert_eq!(detect_outage(1_000, 1_010, 300), None);
}

#[test]
fn a_backwards_clock_is_a_correction_not_an_outage() {
    // SNTP moving the clock back must not be reported as her unplugging the unit.
    assert_eq!(detect_outage(2_000, 1_000, 300), None);
    assert_eq!(detect_outage(1_000, 1_000, 300), None);
}
