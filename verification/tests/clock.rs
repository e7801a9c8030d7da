//! The onboard clock at startup.
use medienzeit::clock::{error_name, now, scan, set_frame, sntp_reason, startup_time, Error};
use medienzeit::rtc;
use medienzeit::sntp;

#[test]
fn a_clock_that_runs_and_is_not_stale_is_trusted() {
    assert_eq!(startup_time(Ok(200), 100), (Some(200), "rtc: holding time, unix 200".to_string()));
    assert_eq!(startup_time(Ok(100), 100).0, Some(100));
    assert_eq!(
        startup_time(Ok(99), 100),
        (None, "rtc: time 99 predates this build, ignoring".to_string())
    );
    assert_eq!(
        startup_time(Err(Error::Codec(rtc::Error::ClockIntegrityLost)), 100),
        (None, "rtc: oscillator stopped, time unknown until SNTP".to_string())
    );
    assert_eq!(startup_time(Err(Error::Bus), 100).1, "rtc: unusable (Bus)");
    assert_eq!(
        startup_time(Err(Error::Codec(rtc::Error::Corrupt)), 100).1,
        "rtc: unusable (Codec(Corrupt))"
    );
}

#[test]
fn errors_have_names() {
    assert_eq!(error_name(&Error::Bus), "Bus");
    assert_eq!(error_name(&Error::Codec(rtc::Error::OutOfRange)), "Codec(OutOfRange)");
    assert_eq!(
        error_name(&Error::Codec(rtc::Error::ClockIntegrityLost)),
        "Codec(ClockIntegrityLost)"
    );
}

#[test]
fn what_is_set_is_read() {
    let frame = set_frame(1_785_788_154).unwrap();
    assert_eq!(frame[0], 0x04);
    let mut regs = [0u8; 7];
    regs.copy_from_slice(&frame[1..]);
    assert_eq!(now(Some(regs)), Ok(1_785_788_154));
    assert_eq!(now(None), Err(Error::Bus));
    regs[0] |= 0x80;
    assert_eq!(now(Some(regs)), Err(Error::Codec(rtc::Error::ClockIntegrityLost)));
    regs[0] = 0x7f;
    assert_eq!(now(Some(regs)), Err(Error::Codec(rtc::Error::Corrupt)));
    assert_eq!(set_frame(0), Err(Error::Codec(rtc::Error::OutOfRange)));
}

#[test]
fn the_scan_lists_what_answers() {
    let mut acks = [false; 112];
    assert_eq!(scan(&acks), vec!["i2c: scan complete, 0 device(s)"]);
    acks[0x18 - 8] = true;
    acks[0x51 - 8] = true;
    acks[0x70 - 8] = true;
    assert_eq!(
        scan(&acks),
        vec![
            "i2c: device at 0x18",
            "i2c: device at 0x51",
            "i2c: device at 0x70",
            "i2c: scan complete, 3 device(s)",
        ]
    );
}

#[test]
fn replies_are_refused_with_a_reason() {
    assert_eq!(sntp_reason(sntp::Error::NotSynchronised), "ntp server is not synchronised");
    assert_eq!(sntp_reason(sntp::Error::NotAServerReply), "not an ntp server reply");
    assert_eq!(sntp_reason(sntp::Error::NoTimestamp), "ntp reply had no usable timestamp");
    assert_eq!(sntp_reason(sntp::Error::BadLength), "ntp reply was the wrong length");
}
