//! Tags and cards: their identifiers and how long they are believed present.
use medienzeit::pn5180::{
    parse_anticollision, parse_inventory_response, CardUid, TagSet, Uid,
};

/// A real ICODE SLIX response: flags, DSFID, then the UID least significant byte
/// first. `e0` is the last wire byte because it is the first in display order.
fn slix() -> [u8; 10] {
    [0x00, 0x00, 0x11, 0x22, 0x33, 0x44, 0x55, 0x66, 0x04, 0xe0]
}

#[test]
fn decodes_a_tag() {
    let uid = parse_inventory_response(&slix()).expect("valid response");
    assert_eq!(uid.0, [0x11, 0x22, 0x33, 0x44, 0x55, 0x66, 0x04, 0xe0]);
    assert_eq!(uid.manufacturer(), 0x04, "NXP");
}

#[test]
fn display_order_starts_with_e0() {
    let uid = parse_inventory_response(&slix()).unwrap();
    assert_eq!(
        uid.display_order(),
        [0xe0, 0x04, 0x66, 0x55, 0x44, 0x33, 0x22, 0x11]
    );
}

#[test]
fn rejects_short_frames() {
    let full = slix();
    for n in 0..10 {
        assert_eq!(parse_inventory_response(&full[..n]), None, "len {n}");
    }
}

#[test]
fn rejects_the_error_flag() {
    let mut r = slix();
    r[0] = 0x01;
    assert_eq!(parse_inventory_response(&r), None);
}

/// The failure this guard exists for: a frame that is the right length and looks
/// like data, but is offset by a byte. Without the `e0` check it would yield a
/// stable, plausible UID — and stably identify the wrong device forever.
#[test]
fn rejects_a_shifted_frame() {
    let mut shifted = [0u8; 10];
    shifted[..9].copy_from_slice(&slix()[1..]);
    assert_eq!(parse_inventory_response(&shifted), None);
}


#[test]
fn parses_a_printed_uid() {
    let uid = Uid::from_display_hex("E004010203040506").expect("valid");
    assert_eq!(uid.display_order(), [0xe0, 0x04, 0x01, 0x02, 0x03, 0x04, 0x05, 0x06]);
    assert_eq!(uid.manufacturer(), 0x04);
}

#[test]
fn parsing_ignores_separators_and_case() {
    let a = Uid::from_display_hex("E004010203040506").unwrap();
    for s in [
        "e0:04:01:02:03:04:05:06",
        "E0-04-01-02-03-04-05-06",
        "e0 04 01 02 03 04 05 06",
        "E0_04_01_02_03_04_05_06",
    ] {
        assert_eq!(Uid::from_display_hex(s), Some(a), "{s}");
    }
}

#[test]
fn parsing_rejects_malformed_input() {
    for s in [
        "",                          // empty
        "E00401020304",              // too short
        "E0040102030405060708",      // too long
        "E00401020304050",           // odd digit count
        "E004010203040g06",          // not hex
        "12004010203040506",         // does not start E0
        "1004010203040506",          // wrong manufacturer prefix
    ] {
        assert_eq!(Uid::from_display_hex(s), None, "{s:?} should be rejected");
    }
}

/// Parsing and display must be exact inverses, or a UID configured from a log line
/// would not match the tag it was copied from.
#[test]
fn parse_and_display_round_trip() {
    let uid = parse_inventory_response(&slix()).unwrap();
    let mut text = hex16(&uid.display_order());
    let lower = std::str::from_utf8(&text).unwrap();
    assert_eq!(Uid::from_display_hex(lower), Some(uid));
    text.make_ascii_uppercase();
    let upper = std::str::from_utf8(&text).unwrap();
    assert_eq!(Uid::from_display_hex(upper), Some(uid));
}

/// Lowercase hex of eight bytes, without `std` — this crate is `no_std` even in
/// its tests.
fn hex16(bytes: &[u8; 8]) -> [u8; 16] {
    const DIGITS: &[u8; 16] = b"0123456789abcdef";
    let mut out = [0u8; 16];
    for (i, b) in bytes.iter().enumerate() {
        out[i * 2] = DIGITS[(b >> 4) as usize];
        out[i * 2 + 1] = DIGITS[(b & 0x0f) as usize];
    }
    out
}


#[test]
fn decodes_a_card_uid() {
    // BCC is the XOR of the four UID bytes.
    let uid = parse_anticollision(&[0xde, 0xad, 0xbe, 0xef, 0xde ^ 0xad ^ 0xbe ^ 0xef]);
    assert_eq!(uid, Some(CardUid([0xde, 0xad, 0xbe, 0xef])));
}

#[test]
fn rejects_a_bad_bcc() {
    assert_eq!(parse_anticollision(&[0xde, 0xad, 0xbe, 0xef, 0x00]), None);
}

#[test]
fn rejects_a_short_anticollision_frame() {
    assert_eq!(parse_anticollision(&[0xde, 0xad, 0xbe, 0xef]), None);
}

/// A cascade tag means the real UID is longer than what we have. Keying a device on
/// the fragment would be keying it on something no card actually reports.
#[test]
fn rejects_the_cascade_tag() {
    let bcc = 0x88u8 ^ 0x01 ^ 0x02 ^ 0x03;
    assert_eq!(parse_anticollision(&[0x88, 0x01, 0x02, 0x03, bcc]), None);
}

#[test]
fn parses_a_printed_card_uid() {
    assert_eq!(CardUid::from_hex("deadbeef"), Some(CardUid([0xde, 0xad, 0xbe, 0xef])));
    assert_eq!(CardUid::from_hex("DE:AD:BE:EF"), Some(CardUid([0xde, 0xad, 0xbe, 0xef])));
    for bad in ["", "deadbe", "deadbeef00", "deadbeeg"] {
        assert_eq!(CardUid::from_hex(bad), None, "{bad:?}");
    }
}


fn uid(n: u8) -> Uid {
    Uid([n, 0, 0, 0, 0, 0, 0x04, 0xe0])
}

#[test]
fn a_new_tag_is_believed_immediately() {
    let mut set: TagSet<4> = TagSet::new(3);
    assert_eq!(set.update(&[uid(1)]), &[uid(1)]);
}

#[test]
fn a_single_dropped_round_is_tolerated() {
    let mut set: TagSet<4> = TagSet::new(3);
    set.update(&[uid(1)]);
    assert_eq!(set.update(&[]), &[uid(1)], "one miss must not remove it");
    assert_eq!(set.update(&[uid(1)]), &[uid(1)]);
}

#[test]
fn a_tag_goes_once_it_stays_missing() {
    let mut set: TagSet<4> = TagSet::new(3);
    set.update(&[uid(1)]);
    for _ in 0..3 {
        assert_eq!(set.update(&[]).len(), 1);
    }
    assert!(set.update(&[]).is_empty(), "gone after limit+1 misses");
}

/// The hardware bug this exists for: two tags present, one round sees only the
/// other. A count-based check keeps the count at one and swaps which device is
/// present, marking an untouched device as taken.
#[test]
fn a_round_that_sees_the_other_tag_does_not_swap_them() {
    let mut set: TagSet<4> = TagSet::new(3);
    set.update(&[uid(1), uid(2)]);
    let after = set.update(&[uid(2)]);
    assert!(after.contains(&uid(1)), "the missed tag must survive one round");
    assert!(after.contains(&uid(2)));
    assert_eq!(after.len(), 2);
}

#[test]
fn a_real_removal_still_registers_with_the_other_present() {
    let mut set: TagSet<4> = TagSet::new(3);
    set.update(&[uid(1), uid(2)]);
    for _ in 0..4 {
        set.update(&[uid(2)]);
    }
    assert_eq!(set.tags(), &[uid(2)]);
}

#[test]
fn removing_the_first_of_several_keeps_the_rest() {
    let mut set: TagSet<4> = TagSet::new(0);
    set.update(&[uid(1), uid(2), uid(3)]);
    assert_eq!(set.update(&[uid(2), uid(3)]).len(), 2);
    assert!(set.contains(&uid(2)) && set.contains(&uid(3)));
}

#[test]
fn distinct_tags_compare_unequal() {
    let a = parse_inventory_response(&slix()).unwrap();
    let mut other = slix();
    other[2] = 0x99;
    let b = parse_inventory_response(&other).unwrap();
    assert_ne!(a, b);
}
