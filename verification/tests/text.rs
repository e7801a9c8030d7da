//! Reading and writing text and bytes.
use medienzeit::fixed::{bytes_of, char_bytes, cut, fit};
use medienzeit::text::{
    chars_of, find_text, hex_digit, is_word, parse_hex, parse_number, push_decimal, push_hex,
    push_hex_word, push_signed, push_two_digits, space, trim_range,
};
use medienzeit::wire::{crc16, get16, get32, get64, put16, put32, put64};

fn written(f: impl FnOnce(&mut String)) -> String {
    let mut s = String::new();
    f(&mut s);
    s
}

#[test]
fn numbers_are_written_as_usual() {
    for n in [0u64, 9, 10, 305, u64::MAX] {
        assert_eq!(written(|s| push_decimal(s, n)), n.to_string());
    }
    for n in [0i64, -1, 77, i64::MIN, i64::MAX] {
        assert_eq!(written(|s| push_signed(s, n)), n.to_string());
    }
    assert_eq!(written(|s| push_two_digits(s, 5)), "05");
    assert_eq!(written(|s| push_two_digits(s, 123)), "123");
    assert_eq!(written(|s| push_hex(s, &[0x00, 0xaf, 0x10])), "00af10");
    assert_eq!(written(|s| push_hex_word(s, 42)), "0000002a");
    assert_eq!(written(|s| push_hex_word(s, u32::MAX)), "ffffffff");
}

#[test]
fn numbers_are_read_as_usual() {
    let read = |s: &str, max: u32| {
        let c = chars_of(s);
        parse_number(&c, 0, c.len(), max)
    };
    assert_eq!(read("42", 100), Some(42));
    assert_eq!(read("+42", 100), Some(42));
    assert_eq!(read("0042", 100), Some(42));
    assert_eq!(read("101", 100), None);
    assert_eq!(read("4294967295", u32::MAX), Some(u32::MAX));
    assert_eq!(read("4294967296", u32::MAX), None);
    for bad in ["", "+", "-1", "1 ", "x", "1x"] {
        assert_eq!(read(bad, 100), None, "{bad:?}");
    }
}

#[test]
fn hexadecimal_digits_come_in_pairs() {
    assert_eq!(hex_digit('F'), Some(15));
    assert_eq!(hex_digit('g'), None);
    assert_eq!(parse_hex("0a:FF", 2), Some(vec![0x0a, 0xff]));
    assert_eq!(parse_hex("0aF", 2), None);
    assert_eq!(parse_hex("0a", 2), None);
}

#[test]
fn white_space_is_what_unicode_says() {
    assert!(space(' ') && space('\t') && space('\u{a0}') && space('\u{2003}'));
    assert!(!space('x') && !space('\0') && !space('\u{200b}'));
    let c = chars_of("\t a b \n");
    assert_eq!(trim_range(&c, 0, c.len()), (2, 5));
}

#[test]
fn words_are_found() {
    let c = chars_of("abcabd");
    assert_eq!(find_text(&c, &chars_of("abd"), 0, c.len()), 3);
    assert_eq!(find_text(&c, &chars_of("x"), 0, c.len()), 6);
    assert!(is_word(&chars_of("DiGest"), &chars_of("digest"), 0, 6));
}

#[test]
fn bounded_text_holds_what_fits() {
    assert_eq!(fit::<4>("abcd").unwrap().as_str(), "abcd");
    assert_eq!(fit::<4>("abcde"), None);
    assert_eq!(fit::<4>("üü").unwrap().as_str(), "üü");
    assert_eq!(bytes_of("aü€𝄞"), 10);
    assert_eq!((char_bytes('a'), char_bytes('ü'), char_bytes('€'), char_bytes('𝄞')), (1, 2, 3, 4));
    assert_eq!(cut("abcdef", 4), "abcd");
    assert_eq!(cut("abc", 4), "abc");
    assert_eq!(cut("üüü", 4), "üü");
}

#[test]
fn integers_are_stored_lowest_byte_first() {
    let mut b = Vec::new();
    put16(&mut b, 0x1234);
    put32(&mut b, 0x5678_9abc);
    put64(&mut b, 0x0123_4567_89ab_cdef);
    assert_eq!(
        b,
        vec![0x34, 0x12, 0xbc, 0x9a, 0x78, 0x56, 0xef, 0xcd, 0xab, 0x89, 0x67, 0x45, 0x23, 0x01]
    );
    assert_eq!(get16(&b, 0), 0x1234);
    assert_eq!(get32(&b, 2), 0x5678_9abc);
    assert_eq!(get64(&b, 6), 0x0123_4567_89ab_cdef);
}

#[test]
fn the_checksum_is_the_usual_one() {
    // CRC-16/CCITT-FALSE of the digits one to nine.
    assert_eq!(crc16(b"123456789", 9), 0x29b1);
    assert_eq!(crc16(b"", 0), 0xffff);
    assert_ne!(crc16(b"123456780", 9), 0x29b1);
}
