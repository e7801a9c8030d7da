//! Network time packets.
use medienzeit::sntp::{request, unix_seconds, Error, NTP_TO_UNIX, PACKET_LEN};

fn reply(ntp_secs: u32, li: u8, mode: u8) -> [u8; PACKET_LEN] {
    let mut p = [0u8; PACKET_LEN];
    p[0] = (li << 6) | (4 << 3) | mode;
    p[40..44].copy_from_slice(&ntp_secs.to_be_bytes());
    p
}

#[test]
fn request_is_a_client_mode_v4_packet() {
    let r = request();
    assert_eq!(r.len(), PACKET_LEN);
    assert_eq!(r[0] >> 6, 0, "leap indicator");
    assert_eq!((r[0] >> 3) & 0b111, 4, "version");
    assert_eq!(r[0] & 0b111, 3, "mode: client");
    assert!(r[1..].iter().all(|b| *b == 0));
}

#[test]
fn converts_the_ntp_epoch_to_unix() {
    // NTP seconds for 1970-01-01T00:00:00Z is exactly the offset.
    assert_eq!(unix_seconds(&reply(NTP_TO_UNIX as u32 + 1, 0, 4)), Ok(1));
    // 2026-08-03T16:00:00Z = unix 1785945600.
    let ntp = (1_785_945_600u64 + NTP_TO_UNIX) as u32;
    assert_eq!(unix_seconds(&reply(ntp, 0, 4)), Ok(1_785_945_600));
}

#[test]
fn rejects_an_unsynchronised_server() {
    // LI = 3 means the server's own clock is not set. Trusting it would hand the
    // ledger a wrong day boundary, which is worse than having no time at all.
    assert_eq!(unix_seconds(&reply(0xE0000000, 3, 4)), Err(Error::NotSynchronised));
}

#[test]
fn rejects_a_non_server_reply() {
    assert_eq!(unix_seconds(&reply(0xE0000000, 0, 3)), Err(Error::NotAServerReply));
}

#[test]
fn rejects_missing_or_pre_epoch_timestamps() {
    assert_eq!(unix_seconds(&reply(0, 0, 4)), Err(Error::NoTimestamp));
    assert_eq!(unix_seconds(&reply(1_000, 0, 4)), Err(Error::NoTimestamp));
}

#[test]
fn rejects_a_short_packet() {
    assert_eq!(unix_seconds(&[0u8; 20]), Err(Error::BadLength));
    assert_eq!(unix_seconds(&[]), Err(Error::BadLength));
}

#[test]
fn survives_the_2036_rollover_boundary_as_far_as_it_can() {
    // NTP era 0 ends in 2036; u32 seconds wrap. We do not handle eras, and this
    // pins that limitation rather than pretending otherwise: a timestamp past the
    // wrap decodes as a 1900s date and is rejected as pre-epoch.
    assert_eq!(unix_seconds(&reply(1_000_000, 0, 4)), Err(Error::NoTimestamp));
}
