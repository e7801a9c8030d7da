//! The onboard clock at startup, and what the network says of the time.
use crate::rtc;
use crate::sntp;
use crate::text;
use vstd::prelude::*;

verus! {

#[derive(Debug, Clone, Copy, PartialEq, Eq, Structural)]
pub enum Error {
    Bus,
    Codec(rtc::Error),
}

/// The name of an error.
pub open spec fn error_word(e: Error) -> Seq<char> {
    match e {
        Error::Bus => "Bus"@,
        Error::Codec(rtc::Error::ClockIntegrityLost) => "Codec(ClockIntegrityLost)"@,
        Error::Codec(rtc::Error::Corrupt) => "Codec(Corrupt)"@,
        Error::Codec(rtc::Error::OutOfRange) => "Codec(OutOfRange)"@,
    }
}

/// The name of an error.
pub fn error_name(e: &Error) -> (r: &'static str)
    ensures
        r@ == error_word(*e),
{
    match e {
        Error::Bus => "Bus",
        Error::Codec(rtc::Error::ClockIntegrityLost) => "Codec(ClockIntegrityLost)",
        Error::Codec(rtc::Error::Corrupt) => "Codec(Corrupt)",
        Error::Codec(rtc::Error::OutOfRange) => "Codec(OutOfRange)",
    }
}

/// What a reading of the registers says. `None` stands for a failed transfer.
pub fn now(regs: Option<[u8; 7]>) -> (r: Result<i64, Error>)
    ensures
        match regs {
            None => r == Err::<i64, Error>(Error::Bus),
            Some(b) => if b@[0] >= 128 {
                r == Err::<i64, Error>(Error::Codec(rtc::Error::ClockIntegrityLost))
            } else if !rtc::plausible(b@) {
                r == Err::<i64, Error>(Error::Codec(rtc::Error::Corrupt))
            } else {
                r is Ok && r->Ok_0 == rtc::instant_of(b@)
            },
        },
{
    match regs {
        None => Err(Error::Bus),
        Some(b) => match rtc::decode(&b) {
            Ok(t) => Ok(t),
            Err(e) => Err(Error::Codec(e)),
        },
    }
}

/// The bytes that set the clock: the address of the first register, then the registers.
pub fn set_frame(utc: i64) -> (r: Result<[u8; 8], Error>)
    ensures
        r is Ok <==> 2_000 <= crate::civil::date_of(utc as int / 86_400).0 <= 2_099,
        r is Ok ==> r->Ok_0@ == seq![rtc::REG_SECONDS] + rtc::registers_of(utc as int),
        r is Err ==> r->Err_0 == Error::Codec(rtc::Error::OutOfRange),
{
    match rtc::encode(utc) {
        Err(e) => Err(Error::Codec(e)),
        Ok(g) => {
            let frame: [u8; 8] = [rtc::REG_SECONDS, g[0], g[1], g[2], g[3], g[4], g[5], g[6]];
            assert(frame@ =~= seq![rtc::REG_SECONDS] + rtc::registers_of(utc as int));
            Ok(frame)
        },
    }
}

/// The time to start with: what the clock shows, unless that is before this build.
pub open spec fn believed(reading: Result<i64, Error>, build_unix: i64) -> Option<i64> {
    match reading {
        Ok(t) => if t < build_unix {
            None
        } else {
            Some(t)
        },
        Err(_) => None,
    }
}

/// The time to start with, if the clock is genuinely trustworthy: it runs, and does not show a
/// time before this build. A factory-tested board arrives with a well-formed time a year stale.
/// Says what to log.
pub fn startup_time(reading: Result<i64, Error>, build_unix: i64) -> (r: (Option<i64>, String))
    ensures
        r.0 == believed(reading, build_unix),
        match reading {
            Ok(t) => if t < build_unix {
                r.0 is None && r.1@ == "rtc: time "@ + text::signed(t as int)
                    + " predates this build, ignoring"@
            } else {
                r.0 == Some(t) && r.1@ == "rtc: holding time, unix "@ + text::signed(t as int)
            },
            Err(e) => r.0 is None && r.1@ == if e == Error::Codec(rtc::Error::ClockIntegrityLost) {
                "rtc: oscillator stopped, time unknown until SNTP"@
            } else {
                "rtc: unusable ("@ + error_word(e) + ")"@
            },
        },
{
    match reading {
        Ok(t) => {
            if t < build_unix {
                let mut out: String = "rtc: time ".to_owned();
                text::push_signed(&mut out, t);
                out.append(" predates this build, ignoring");
                (None, out)
            } else {
                let mut out: String = "rtc: holding time, unix ".to_owned();
                text::push_signed(&mut out, t);
                (Some(t), out)
            }
        },
        Err(e) => {
            if e == Error::Codec(rtc::Error::ClockIntegrityLost) {
                (None, "rtc: oscillator stopped, time unknown until SNTP".to_owned())
            } else {
                let mut out: String = "rtc: unusable (".to_owned();
                out.append(error_name(&e));
                out.append(")");
                (None, out)
            }
        },
    }
}

/// The first address on the bus that a device may have.
pub const FIRST_ADDRESS: u8 = 0x08;

/// How many addresses there are.
pub const ADDRESSES: usize = 112;

/// What is logged of the first `n` addresses that acknowledged.
pub open spec fn found_lines(acks: Seq<bool>, n: nat) -> Seq<Seq<char>>
    decreases n,
{
    if n == 0 {
        Seq::empty()
    } else {
        let i = n - 1;
        found_lines(acks, i as nat) + if acks[i] {
            seq!["i2c: device at 0x"@ + text::hex(seq![(FIRST_ADDRESS + i) as u8])]
        } else {
            Seq::empty()
        }
    }
}

/// What a probe of every 7-bit address says: a line for each one that acknowledged, and how many
/// there were.
pub fn scan(acks: &[bool; ADDRESSES]) -> (r: Vec<String>)
    ensures
        text::texts(r@) == found_lines(acks@, ADDRESSES as nat).push(
            "i2c: scan complete, "@ + text::decimal(found_lines(acks@, ADDRESSES as nat).len())
                + " device(s)"@,
        ),
{
    let mut lines: Vec<String> = Vec::new();
    assert(text::texts(lines@) =~= found_lines(acks@, 0));
    let mut i: usize = 0;
    while i < ADDRESSES
        invariant
            i <= ADDRESSES,
            text::texts(lines@) == found_lines(acks@, i as nat),
            lines@.len() == found_lines(acks@, i as nat).len(),
        decreases ADDRESSES - i,
    {
        if acks[i] {
            let mut line: String = "i2c: device at 0x".to_owned();
            let address: [u8; 1] = [FIRST_ADDRESS + i as u8];
            text::push_hex(&mut line, address.as_slice());
            assert(address@ =~= seq![(FIRST_ADDRESS + i) as u8]);
            text::push_line(&mut lines, line);
        }
        assert(text::texts(lines@) =~= found_lines(acks@, (i + 1) as nat));
        i += 1;
    }
    let mut last: String = "i2c: scan complete, ".to_owned();
    text::push_decimal(&mut last, lines.len() as u64);
    last.append(" device(s)");
    text::push_line(&mut lines, last);
    lines
}

/// What is wrong with a network time reply.
pub fn sntp_reason(e: sntp::Error) -> (r: &'static str)
    ensures
        r@ == match e {
            sntp::Error::NotSynchronised => "ntp server is not synchronised"@,
            sntp::Error::NotAServerReply => "not an ntp server reply"@,
            sntp::Error::NoTimestamp => "ntp reply had no usable timestamp"@,
            sntp::Error::BadLength => "ntp reply was the wrong length"@,
        },
{
    match e {
        sntp::Error::NotSynchronised => "ntp server is not synchronised",
        sntp::Error::NotAServerReply => "not an ntp server reply",
        sntp::Error::NoTimestamp => "ntp reply had no usable timestamp",
        sntp::Error::BadLength => "ntp reply was the wrong length",
    }
}

/// A clock is believed exactly where it could be read, kept its power and shows no time before the
/// build; and then it is believed as it stands.
pub proof fn a_stale_clock_is_not_believed(reading: Result<i64, Error>, build_unix: i64)
    ensures
        believed(reading, build_unix) is Some <==> reading is Ok && reading->Ok_0 >= build_unix,
        believed(reading, build_unix) is Some ==> believed(reading, build_unix)->0
            == reading->Ok_0,
{
}

} // verus!
