//! SNTP packet codec (RFC 4330): the 48 bytes to send, and the 48 that come back.
use vstd::prelude::*;

verus! {

/// SNTP messages are always exactly 48 bytes.
pub const PACKET_LEN: usize = 48;

/// Seconds between the NTP epoch (1900-01-01) and the unix epoch (1970-01-01): 70 years
/// including 17 leap days.
pub const NTP_TO_UNIX: u64 = 2_208_988_800;

/// Standard NTP port.
pub const PORT: u16 = 123;

#[derive(Debug, Clone, Copy, PartialEq, Eq, Structural)]
pub enum Error {
    /// Not 48 bytes.
    BadLength,
    /// The server set Leap Indicator = 3, meaning its own clock is not synchronised.
    NotSynchronised,
    /// Mode was not 4 (server); we asked as a client, so anything else is bogus.
    NotAServerReply,
    /// Transmit timestamp was zero, or older than the unix epoch.
    NoTimestamp,
}

/// A client request: leap indicator 0, version 4, mode 3, everything else zero.
pub fn request() -> (r: [u8; PACKET_LEN])
    ensures
        r@[0] == 4 * 8 + 3,
        forall|i: int| 1 <= i < PACKET_LEN ==> #[trigger] r@[i] == 0,
{
    let mut p: [u8; PACKET_LEN] = [0;PACKET_LEN];
    p[0] = 4 * 8 + 3;
    p
}

/// Whole seconds of the transmit timestamp, big-endian at byte 40.
pub open spec fn transmit_secs(p: Seq<u8>) -> int {
    0x100_0000 * p[40] + 0x1_0000 * p[41] + 0x100 * p[42] + p[43]
}

/// What a reply says the time is: the leap indicator is in the two upper bits of the first
/// byte, the mode in its three lower ones.
pub open spec fn time_of(p: Seq<u8>) -> Result<int, Error> {
    if p.len() != PACKET_LEN {
        Err(Error::BadLength)
    } else if p[0] / 64 == 3 {
        Err(Error::NotSynchronised)
    } else if p[0] % 8 != 4 {
        Err(Error::NotAServerReply)
    } else if transmit_secs(p) < NTP_TO_UNIX {
        Err(Error::NoTimestamp)
    } else {
        Ok(transmit_secs(p) - NTP_TO_UNIX)
    }
}

/// Extract the server's transmit timestamp as a unix timestamp in seconds. The fractional part
/// is deliberately discarded: the ledger ticks at 1 Hz.
pub fn unix_seconds(packet: &[u8]) -> (r: Result<i64, Error>)
    ensures
        match time_of(packet@) {
            Ok(t) => r is Ok && r->Ok_0 == t,
            Err(e) => r is Err && r->Err_0 == e,
        },
{
    if packet.len() != PACKET_LEN {
        return Err(Error::BadLength);
    }
    if packet[0] / 64 == 3 {
        return Err(Error::NotSynchronised);
    }
    if packet[0] % 8 != 4 {
        return Err(Error::NotAServerReply);
    }
    let secs: u64 = 0x100_0000 * packet[40] as u64 + 0x1_0000 * packet[41] as u64 + 0x100
        * packet[42] as u64 + packet[43] as u64;
    if secs < NTP_TO_UNIX {
        return Err(Error::NoTimestamp);
    }
    Ok((secs - NTP_TO_UNIX) as i64)
}

/// The time of a server's reply is the one that it was sent at: whatever else is in a packet of 48
/// bytes, one from a server whose clock is set, with the seconds since 1900 at byte 40, the highest
/// byte first, gives the seconds since 1970.
pub proof fn a_reply_tells_when_it_was_sent(p: Seq<u8>, unix: int, leap: u8, version: u8)
    requires
        p.len() == 48,
        leap < 3,
        version < 8,
        p[0] == 64 * leap + 8 * version + 4,
        0 <= unix,
        ((p[40] * 256 + p[41]) * 256 + p[42]) * 256 + p[43] == unix + (
        crate::civil::day_number(1970, 1, 1) - crate::civil::day_number(1900, 1, 1)) * 86_400,
    ensures
        time_of(p) == Ok::<int, Error>(unix),
{
}

/// A packet is refused, in this order, for its length, for a server whose clock is not set, for not
/// being a server's, and for an instant before 1970; and for nothing else.
pub proof fn a_reply_is_refused_for_a_reason(p: Seq<u8>)
    ensures
        time_of(p) == Err::<int, Error>(Error::BadLength) <==> p.len() != 48,
        p.len() == 48 ==> (time_of(p) == Err::<int, Error>(Error::NotSynchronised) <==> p[0]
            >= 192),
        p.len() == 48 && p[0] < 192 ==> (time_of(p) == Err::<int, Error>(Error::NotAServerReply)
            <==> p[0] % 8 != 4),
        p.len() == 48 && p[0] < 192 && p[0] % 8 == 4 ==> (time_of(p) == Err::<int, Error>(
            Error::NoTimestamp,
        ) <==> ((p[40] * 256 + p[41]) * 256 + p[42]) * 256 + p[43] < 2_208_988_800),
{
}

} // verus!
