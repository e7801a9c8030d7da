//! Getting the room out of the way before flash is written.
//!
//! Writing flash stalls the other core at whatever instruction it happens to be on. If it holds a
//! lock then, nobody can ever take that lock again. So the writer asks, the room answers at a
//! point where it holds nothing, and only that answer lets the writer go on. Both sides are
//! bounded: a wedged partner must degrade to a missed write or a late pass, never to a hang.
use vstd::prelude::*;

verus! {

/// How long the room will sit parked before deciding that the writer is not coming back, in
/// spins: reading a timer could touch something that is locked.
pub const PARK_SPINS: u32 = 20_000_000;

/// How long the writer waits for the room to park, in milliseconds. The room checks once per
/// pass, which can take nearly two seconds.
pub const PATIENCE_MS: u64 = 5_000;

/// What the writer does next.
#[derive(Debug, Clone, Copy, PartialEq, Eq, Structural)]
pub enum Next {
    /// Look again in a moment.
    Wait,
    /// The room is parked: write.
    Write,
    /// The room never parked: the write does not happen. It comes round again.
    GiveUp,
}

/// What the writer does: it writes once the room has parked, and gives up when its patience ends.
pub open spec fn what_next(parked: bool, now_ms: u64, asked_ms: u64) -> Next {
    if parked {
        Next::Write
    } else if now_ms > asked_ms + PATIENCE_MS {
        Next::GiveUp
    } else {
        Next::Wait
    }
}

/// What the writer does, given whether the room has parked, the uptime and when it began to
/// wait, in milliseconds.
pub fn next(parked: bool, now_ms: u64, asked_ms: u64) -> (r: Next)
    ensures
        r == what_next(parked, now_ms, asked_ms),
{
    if parked {
        Next::Write
    } else if now_ms > asked_ms && now_ms - asked_ms > PATIENCE_MS {
        Next::GiveUp
    } else {
        Next::Wait
    }
}

/// Whether the room stays parked after so many spins.
pub fn stays_parked(requested: bool, spins: u32) -> (r: bool)
    ensures
        r == (requested && spins < PARK_SPINS),
{
    requested && spins < PARK_SPINS
}

/// The two flags of the handshake. Whoever owns them shares them between the cores.
#[derive(Debug, Clone, Copy, PartialEq, Eq, Structural)]
pub struct Flags {
    /// The writer wants to write flash.
    pub requested: bool,
    /// The room is parked somewhere safe and holds nothing.
    pub parked: bool,
}

impl Flags {
    /// The flags once the room has looked at them after so many spins.
    pub open spec fn looked_at(self, spins: u32) -> Flags {
        Flags { parked: self.requested && spins < PARK_SPINS, ..self }
    }

    /// Ask the room to park.
    pub fn request(&mut self)
        ensures
            *final(self) == (Flags { requested: true, ..*old(self) }),
    {
        self.requested = true;
    }

    /// Let the room go.
    pub fn release(&mut self)
        ensures
            *final(self) == (Flags { requested: false, ..*old(self) }),
    {
        self.requested = false;
    }

    /// Whether the room has parked. Nothing may be written until this is true.
    pub fn room_is_parked(&self) -> (r: bool)
        ensures
            r == self.parked,
    {
        self.parked
    }

    /// What the room does at a point where it holds no lock, after so many spins there: it parks
    /// where it is asked to, and goes on once it is released or has waited long enough. Says
    /// whether it stays.
    pub fn yield_if_asked(&mut self, spins: u32) -> (r: bool)
        ensures
            *final(self) == old(self).looked_at(spins),
            r == final(self).parked,
    {
        self.parked = stays_parked(self.requested, spins);
        self.parked
    }
}

/// The room parks only where it was asked to, and not forever: at the latest after
/// [`PARK_SPINS`] spins it goes on.
pub proof fn the_room_does_not_park_forever(flags: Flags, spins: u32)
    ensures
        flags.looked_at(spins).parked ==> flags.requested,
        spins >= PARK_SPINS ==> !flags.looked_at(spins).parked,
{
}

/// Nothing is written unless the room is parked, and it is written then; a room that has not parked
/// five seconds after it was asked is not waited for any longer.
pub proof fn nothing_is_written_before_the_room_parks(parked: bool, now_ms: u64, asked_ms: u64)
    ensures
        what_next(parked, now_ms, asked_ms) == Next::Write <==> parked,
        !parked ==> (what_next(parked, now_ms, asked_ms) == Next::GiveUp <==> now_ms - asked_ms
            > 5_000),
{
}

/// The room parks exactly while it is asked to, up to twenty million spins.
pub proof fn the_room_parks_while_it_is_asked_to(flags: Flags, spins: u32)
    ensures
        flags.looked_at(spins).parked <==> flags.requested && spins < 20_000_000,
        flags.looked_at(spins).requested == flags.requested,
{
}

} // verus!
