//! The protocol spoken with the chip.
//!
//! Every exchange is framed by the BUSY line: wait for it to be low, clock the command out,
//! wait for it to rise while the chip works and to fall when it is done; a command that returns
//! data takes a second transfer, framed the same way. Skipping that reads back whatever was
//! left in the chip's buffer, which looks like data and is not. Every wait is bounded, because
//! an unbounded wait on a chip that has stopped answering would hang the ledger with it.
//!
//! The BUSY pin is optional, substituted by a fixed settling delay.
//!
//! The contracts speak of the logs of the three devices: what went over the bus, what was seen of
//! the BUSY line, and how long was waited. A contract that says in which order the devices were
//! used names the states that the driver went through.
use crate::pn5180;
use crate::pn5180::cmd;
use crate::pn5180::eeprom;
use crate::pn5180::reg;
use crate::pn5180::{CardUid, Error, Uid};
use crate::wire;
use vstd::prelude::*;

verus! {

/// The bus to the chip.
///
/// Its log is the record of its transfers. An implementation that is verified itself says what
/// its log is; one for real hardware, which is not, leaves that out, and owes that each call is
/// one transfer.
pub trait SpiBus {
    /// The transfers so far.
    closed spec fn log(&self) -> Seq<Frame> {
        arbitrary()
    }

    /// Clock a frame out; whether the transfer worked.
    fn write(&mut self, frame: &[u8]) -> (ok: bool)
        ensures
            final(self).log() == old(self).log().push(
                if ok {
                    Frame::Sent(frame@)
                } else {
                    Frame::Lost
                },
            ),
    ;

    /// Clock bytes in until the buffer is full; whether the transfer worked.
    fn read(&mut self, buf: &mut [u8]) -> (ok: bool)
        ensures
            final(buf)@.len() == old(buf)@.len(),
            final(self).log() == old(self).log().push(
                if ok {
                    Frame::Got(final(buf)@)
                } else {
                    Frame::Lost
                },
            ),
    ;
}

/// The BUSY line, with the record of what was asked of it. `None` where the pin cannot be read.
pub trait BusyPin {
    /// The questions so far, with their answers.
    closed spec fn log(&self) -> Seq<Poll> {
        arbitrary()
    }

    fn is_high(&mut self) -> (r: Option<bool>)
        ensures
            final(self).log() == old(self).log().push(Poll::High(r)),
    ;

    fn is_low(&mut self) -> (r: Option<bool>)
        ensures
            final(self).log() == old(self).log().push(Poll::Low(r)),
    ;
}

/// A source of delays, with the record of them.
pub trait Delay {
    /// The delays so far, in microseconds.
    closed spec fn log(&self) -> Seq<u32> {
        arbitrary()
    }

    fn delay_us(&mut self, us: u32)
        ensures
            final(self).log() == old(self).log().push(us),
    ;
}

/// Something that went over the bus.
pub enum Frame {
    /// A command that the chip was sent.
    Sent(Seq<u8>),
    /// A response that was read.
    Got(Seq<u8>),
    /// A transfer that failed.
    Lost,
}

/// A question about the BUSY line and its answer.
pub enum Poll {
    /// BUSY was asked whether it is low.
    Low(Option<bool>),
    /// BUSY was asked whether it is high.
    High(Option<bool>),
}

/// One step of a fixed sequence.
pub enum Step {
    /// Send a command.
    Tell(Seq<u8>),
    /// Let some microseconds pass.
    Pause(u32),
}

/// Transceive state meaning "ready for the host to hand over a frame".
pub const TS_WAIT_TRANSMIT: u32 = 1;

/// Transceive state meaning the machine has finished and is doing nothing.
pub const TS_IDLE: u32 = 0;

/// Clears the TX_CONFIG bits that carry data framing, leaving the transmitter emitting only an
/// EOF. That is how an ISO 15693 anticollision round steps to the next slot.
pub const TX_CONFIG_EOF_ONLY: u32 = 0xffff_fb3f;

/// Requests per poll before a card counts as absent.
pub const CARD_ATTEMPTS: u32 = 3;

/// Every IRQ bit, for clearing.
pub const ALL_IRQS: u32 = 0x000f_ffff;

/// How long to wait for BUSY, in polling iterations of roughly 100 µs: about half a second.
pub const BUSY_TIMEOUT_STEPS: u32 = 5_000;

/// Settling time used in place of the BUSY handshake.
pub const NO_BUSY_SETTLE_US: u32 = 5_000;

/// Longest frame we will send or receive. Inventory responses are 10 bytes.
pub const MAX_FRAME: usize = 64;

/// Extract the transceive state from `RF_STATUS`: bits 26 to 24.
pub fn transceive_state(rf_status: u32) -> (r: u32)
    ensures
        r == rf_status as int / 0x100_0000 % 8,
{
    rf_status / 0x100_0000 % 8
}

/// The frames handed to the transmitter, each led by the number of valid bits in its last
/// byte.
pub open spec fn transmitted(frames: Seq<Frame>) -> Seq<Seq<u8>>
    decreases frames.len(),
{
    if frames.len() == 0 {
        Seq::empty()
    } else {
        let rest = transmitted(frames.drop_last());
        match frames.last() {
            Frame::Sent(b) => if b.len() > 0 && b[0] == cmd::SEND_DATA {
                rest.push(b.skip(1))
            } else {
                rest
            },
            _ => rest,
        }
    }
}

/// The frames read from the receiver.
pub open spec fn heard(frames: Seq<Frame>) -> Seq<Seq<u8>>
    decreases frames.len(),
{
    if frames.len() == 0 {
        Seq::empty()
    } else {
        let rest = heard(frames.drop_last());
        match frames.last() {
            Frame::Got(b) => if frames.len() >= 2 && frames[frames.len() - 2] == Frame::Sent(
                seq![cmd::READ_DATA, 0u8],
            ) {
                rest.push(b)
            } else {
                rest
            },
            _ => rest,
        }
    }
}

/// How many transfers failed.
pub open spec fn losses(frames: Seq<Frame>) -> nat
    decreases frames.len(),
{
    if frames.len() == 0 {
        0
    } else {
        losses(frames.drop_last()) + if frames.last() == Frame::Lost {
            1nat
        } else {
            0
        }
    }
}

proof fn lemma_push(frames: Seq<Frame>, f: Frame)
    ensures
        losses(frames.push(f)) == losses(frames) + if f == Frame::Lost {
            1nat
        } else {
            0
        },
        transmitted(frames.push(f)) == match f {
            Frame::Sent(b) => if b.len() > 0 && b[0] == cmd::SEND_DATA {
                transmitted(frames).push(b.skip(1))
            } else {
                transmitted(frames)
            },
            _ => transmitted(frames),
        },
        heard(frames.push(f)) == match f {
            Frame::Got(b) => if frames.len() >= 1 && frames.last() == Frame::Sent(
                seq![cmd::READ_DATA, 0u8],
            ) {
                heard(frames).push(b)
            } else {
                heard(frames)
            },
            _ => heard(frames),
        },
{
    assert(frames.push(f).drop_last() =~= frames);
}

/// Whether nothing was transmitted or received over the air between two points.
pub open spec fn quiet(before: Seq<Frame>, after: Seq<Frame>) -> bool {
    transmitted(after) == transmitted(before) && heard(after) == heard(before)
}

/// The response at position `i`.
pub open spec fn response_at(frames: Seq<Frame>, i: int) -> Seq<u8> {
    match frames[i] {
        Frame::Got(b) => b,
        _ => Seq::empty(),
    }
}

/// The last response.
pub open spec fn response(frames: Seq<Frame>) -> Seq<u8> {
    response_at(frames, frames.len() - 1)
}

/// The transceive state that the last response reports.
pub open spec fn last_state(frames: Seq<Frame>) -> int {
    state_at(frames, frames.len() - 1)
}

/// The transceive state that the response at position `i` reports.
pub open spec fn state_at(frames: Seq<Frame>, i: int) -> int {
    wire::le32(response_at(frames, i), 0) / 0x100_0000 % 8
}

/// Whether all frames from position `from` on are reads of one register.
pub open spec fn only_reads(frames: Seq<Frame>, from: nat, register: u8) -> bool {
    &&& (frames.len() - from) % 2 == 0
    &&& forall|i: int|
        from <= i < frames.len() ==> if (i - from) % 2 == 0 {
            #[trigger] frames[i] == Frame::Sent(seq![cmd::READ_REGISTER, register])
        } else {
            frames[i] is Got
        }
}

/// Whether the state was read from position `from` on until it was `state`, or 500 times, and
/// `reached` says which.
pub open spec fn polled(frames: Seq<Frame>, from: nat, state: u32, reached: bool) -> bool {
    &&& from + 2 <= frames.len() <= from + 1_000
    &&& only_reads(frames, from, reg::RF_STATUS)
    &&& forall|i: int|
        from <= i < frames.len() - 1 && frames[i] is Got ==> #[trigger] state_at(frames, i) != state
    &&& reached == (last_state(frames) == state)
    &&& !reached ==> frames.len() == from + 1_000
}

/// A command with a 32-bit operand.
pub open spec fn register_frame(command: u8, register: u8, value: u32) -> Seq<u8> {
    seq![command, register] + wire::bytes32(value)
}

/// The steps that switch the front end to a protocol, from a known state.
pub open spec fn opening(tx: u8, rx: u8) -> Seq<Step> {
    seq![
        Step::Tell(register_frame(cmd::WRITE_REGISTER_AND_MASK, reg::SYSTEM_CONFIG, 0xffff_fff8)),
        Step::Tell(seq![cmd::RF_OFF, 0u8]),
        Step::Pause(10_000),
        Step::Tell(seq![cmd::LOAD_RF_CONFIG, tx, rx]),
        Step::Tell(seq![cmd::RF_ON, 0u8]),
        Step::Pause(10_000),
    ]
}

/// The same for cards, whose short frames carry no checksum in either direction.
pub open spec fn opening_for_cards() -> Seq<Step> {
    opening(0x00, 0x80).push(
        Step::Tell(register_frame(cmd::WRITE_REGISTER_AND_MASK, reg::CRC_TX_CONFIG, 0xffff_fffe)),
    ).push(
        Step::Tell(register_frame(cmd::WRITE_REGISTER_AND_MASK, reg::CRC_RX_CONFIG, 0xffff_fffe)),
    )
}

/// The frames that some steps send.
pub open spec fn frames_of(steps: Seq<Step>) -> Seq<Frame>
    decreases steps.len(),
{
    if steps.len() == 0 {
        Seq::empty()
    } else {
        let rest = frames_of(steps.drop_last());
        match steps.last() {
            Step::Tell(frame) => rest.push(Frame::Sent(frame)),
            Step::Pause(_) => rest,
        }
    }
}

/// Whether some of the planned frames were sent, from the first on, and after them at most one
/// transfer failed.
pub open spec fn cut_short(before: Seq<Frame>, after: Seq<Frame>, plan: Seq<Frame>) -> bool {
    exists|n: int|
        {
            &&& 0 <= n <= plan.len()
            &&& after == before + #[trigger] plan.take(n) || (n < plan.len() && after == (before
                + plan.take(n)).push(Frame::Lost))
        }
}

/// Whether the transceiver was told to return to Idle and asked whether it got there.
pub open spec fn settled(before: Seq<Frame>, after: Seq<Frame>, idle: bool) -> bool {
    &&& before.len() < after.len()
    &&& after[before.len() as int] == Frame::Sent(
        register_frame(cmd::WRITE_REGISTER_AND_MASK, reg::SYSTEM_CONFIG, 0xffff_fff8),
    )
    &&& polled(after, before.len() + 1, TS_IDLE, idle)
}

/// Whether the transceiver was settled, told to get ready for a frame, and asked whether it is.
pub open spec fn armed(before: Seq<Frame>, after: Seq<Frame>, ready: bool) -> bool {
    exists|mid: Seq<Frame>, idle: bool|
        {
            &&& #[trigger] settled(before, mid, idle)
            &&& mid.is_prefix_of(after)
            &&& mid.len() < after.len()
            &&& after[mid.len() as int] == Frame::Sent(
                register_frame(cmd::WRITE_REGISTER_OR_MASK, reg::SYSTEM_CONFIG, 3),
            )
            &&& polled(after, mid.len() + 1, TS_WAIT_TRANSMIT, ready)
        }
}

/// The question for a register.
pub open spec fn register_question(register: u8) -> Seq<u8> {
    seq![cmd::READ_REGISTER, register]
}

/// The question for some bytes of the EEPROM.
pub open spec fn eeprom_question(addr: u8, len: u8) -> Seq<u8> {
    seq![cmd::READ_EEPROM, addr, len]
}

/// The command that configures the front end for tags.
pub open spec fn tags_configured() -> Seq<u8> {
    seq![cmd::LOAD_RF_CONFIG, 0x0du8, 0x8du8]
}

/// A request to cards: a short frame of one byte.
pub open spec fn short_frame(request: u8) -> Seq<u8> {
    seq![request]
}

/// The first anticollision level.
pub open spec fn first_level() -> Seq<u8> {
    seq![0x93u8, 0x20u8]
}

/// The request of a single-slot inventory.
pub open spec fn single_slot_request(high: bool) -> Seq<u8> {
    seq![
        if high {
            0x26u8
        } else {
            0x24u8
        },
        0x01u8,
        0x00u8,
    ]
}

/// The command that leaves the transmitter emitting only an EOF.
pub open spec fn eof_only() -> Seq<u8> {
    register_frame(cmd::WRITE_REGISTER_AND_MASK, reg::TX_CONFIG, TX_CONFIG_EOF_ONLY)
}

/// The request of a sixteen-slot inventory: high data rate, and a mask length of zero, so every
/// tag participates.
pub open spec fn slots_request() -> Seq<u8> {
    seq![0x06u8, 0x01u8, 0x00u8]
}

/// The command that clears every interrupt status bit.
pub open spec fn irqs_cleared() -> Seq<u8> {
    register_frame(cmd::WRITE_REGISTER, reg::IRQ_CLEAR, ALL_IRQS)
}

/// The same thing `k` times.
pub open spec fn times<T>(k: nat, x: T) -> Seq<T> {
    Seq::new(k, |i: int| x)
}

proof fn lemma_once_more<T>(k: nat, x: T)
    ensures
        times(k, x).push(x) == times(k + 1, x),
        times(0, x) == Seq::<T>::empty(),
{
    assert(times(k, x).push(x) =~= times(k + 1, x));
    assert(times(0, x) =~= Seq::<T>::empty());
}

/// The bytes of an answer, if there is one.
pub open spec fn bytes_of(answer: Option<Vec<u8>>) -> Option<Seq<u8>> {
    match answer {
        Some(b) => Some(b@),
        None => None,
    }
}

/// How much of an announced frame fits.
pub open spec fn fitting(len: Option<usize>, room: nat) -> int {
    match len {
        None => 0,
        Some(n) => if n < room {
            n as int
        } else {
            room as int
        },
    }
}

/// Whether a call failed with an error.
pub open spec fn fails<T>(r: Result<T, Error>, e: Error) -> bool {
    r == Err::<T, Error>(e)
}

/// `frames` followed by `n` bare EOFs.
pub open spec fn stepped(frames: Seq<Seq<u8>>, n: nat) -> Seq<Seq<u8>>
    decreases n,
{
    if n == 0 {
        frames
    } else {
        stepped(frames, (n - 1) as nat).push(seq![0u8])
    }
}

/// The tag that a received frame identifies.
pub open spec fn tag_of(buf: Seq<u8>) -> Option<Uid> {
    if pn5180::is_inventory_response(buf) {
        Some(choose|u: Uid| u.0@ == buf.subrange(2, 10))
    } else {
        None
    }
}

/// The tags that received frames identify, each once, in the order in which they answered.
pub open spec fn distinct_tags(answers: Seq<Seq<u8>>) -> Seq<Uid>
    decreases answers.len(),
{
    if answers.len() == 0 {
        Seq::empty()
    } else {
        let rest = distinct_tags(answers.drop_last());
        match tag_of(answers.last()) {
            Some(uid) => if rest.contains(uid) {
                rest
            } else {
                rest.push(uid)
            },
            None => rest,
        }
    }
}

/// How many card requests (`REQA`) were transmitted.
pub open spec fn requests(frames: Seq<Seq<u8>>) -> nat
    decreases frames.len(),
{
    if frames.len() == 0 {
        0
    } else {
        requests(frames.drop_last()) + if frames.last() == seq![7u8, 0x26u8] {
            1nat
        } else {
            0
        }
    }
}

proof fn lemma_cut_short(before: Seq<Frame>, frame: Frame)
    ensures
        cut_short(before, before, seq![frame]),
        cut_short(before, before.push(Frame::Lost), seq![frame]),
        cut_short(before, before.push(frame), seq![frame]),
{
    let plan = seq![frame];
    assert(before =~= before + plan.take(0));
    assert(before.push(Frame::Lost) =~= (before + plan.take(0)).push(Frame::Lost));
    assert(before.push(frame) =~= before + plan.take(1));
}

proof fn lemma_start<S: SpiBus, B: BusyPin, D: Delay>(a: Pn5180<S, B, D>, steps: Seq<Step>)
    ensures
        a.completed(a, steps.take(0)),
{
    reveal_with_fuel(Pn5180::completed, 1);
}

/// After `k` steps, one more: where it fails, the rest is not done.
proof fn lemma_next<S: SpiBus, B: BusyPin, D: Delay>(
    a: Pn5180<S, B, D>,
    mid: Pn5180<S, B, D>,
    after: Pn5180<S, B, D>,
    steps: Seq<Step>,
    k: int,
    r: Result<(), Error>,
)
    requires
        0 <= k < steps.len(),
        a.completed(mid, steps.take(k)),
        mid.did(after, steps[k], r),
    ensures
        r is Ok ==> a.completed(after, steps.take(k + 1)),
        r is Err || k + 1 == steps.len() ==> a.followed(after, steps, r) && a.went(
            after,
            steps,
            r,
        ),
{
    reveal(Pn5180::followed);
    if r is Ok {
        assert(r->Ok_0 == ());
        assert(r == Ok::<(), Error>(()));
        let upto = steps.take(k + 1);
        assert(upto.drop_last() =~= steps.take(k));
        assert(a.completed(after, upto)) by {
            reveal_with_fuel(Pn5180::completed, 1);
            assert(mid.did(after, upto.last(), Ok(())));
        }
    }
    if r is Err || k + 1 == steps.len() {
        assert(steps.take(steps.len() as int) =~= steps);
        lemma_followed(a, after, steps, r);
    }
}

/// What is not done of some steps is not done of more.
proof fn lemma_rest_is_skipped<S: SpiBus, B: BusyPin, D: Delay>(
    a: Pn5180<S, B, D>,
    after: Pn5180<S, B, D>,
    steps: Seq<Step>,
    n: int,
    r: Result<(), Error>,
)
    requires
        0 <= n <= steps.len(),
        a.followed(after, steps.take(n), r),
        r is Err,
    ensures
        a.followed(after, steps, r),
        a.went(after, steps, r),
{
    reveal(Pn5180::followed);
    let some = steps.take(n);
    let (k, mid) = choose|k: int, mid: Pn5180<S, B, D>|
        {
            &&& 0 <= k < some.len()
            &&& #[trigger] a.completed(mid, some.take(k))
            &&& mid.did(after, some[k], r)
        };
    assert(some.take(k) =~= steps.take(k));
    lemma_followed(a, after, steps, r);
}

/// What doing some steps puts on the bus.
proof fn lemma_completed<S: SpiBus, B: BusyPin, D: Delay>(
    a: Pn5180<S, B, D>,
    after: Pn5180<S, B, D>,
    steps: Seq<Step>,
)
    requires
        a.completed(after, steps),
    ensures
        a.went(after, steps, Ok(())),
    decreases steps.len(),
{
    reveal_with_fuel(Pn5180::completed, 1);
    let plan = frames_of(steps);
    if steps.len() == 0 {
        assert(a.bus() + plan =~= a.bus());
    } else {
        let rest = steps.drop_last();
        let mid = choose|mid: Pn5180<S, B, D>|
            a.completed(mid, rest) && #[trigger] mid.did(after, steps.last(), Ok(()));
        lemma_completed(a, mid, rest);
        lemma_prefixes(a.bus(), mid.bus(), after.bus());
        match steps.last() {
            Step::Pause(_) => {},
            Step::Tell(frame) => {
                assert(a.bus() + plan =~= mid.bus().push(Frame::Sent(frame)));
            },
        }
    }
}

proof fn lemma_prefixes(a: Seq<Frame>, b: Seq<Frame>, c: Seq<Frame>)
    requires
        a.is_prefix_of(b),
        b.is_prefix_of(c),
    ensures
        a.is_prefix_of(c),
{
    assert(c.subrange(0, a.len() as int) =~= a) by {
        assert forall|i: int| 0 <= i < a.len() implies c[i] == a[i] by {
            assert(b[i] == c[i]);
            assert(a[i] == b[i]);
        }
    }
}

proof fn lemma_frames_of_first(steps: Seq<Step>, k: int)
    requires
        0 <= k <= steps.len(),
    ensures
        frames_of(steps.take(k)).len() <= frames_of(steps).len(),
        frames_of(steps).take(frames_of(steps.take(k)).len() as int) == frames_of(steps.take(k)),
    decreases steps.len() - k,
{
    if k == steps.len() {
        assert(steps.take(k) =~= steps);
        assert(frames_of(steps).take(frames_of(steps).len() as int) =~= frames_of(steps));
    } else {
        lemma_frames_of_first(steps, k + 1);
        assert(steps.take(k + 1).drop_last() =~= steps.take(k));
        let (some, more) = (frames_of(steps.take(k)), frames_of(steps.take(k + 1)));
        assert(more.take(some.len() as int) =~= some);
        assert(frames_of(steps).take(some.len() as int) =~= frames_of(steps).take(
            more.len() as int,
        ).take(some.len() as int));
    }
}

/// What following some steps does to the bus.
proof fn lemma_followed<S: SpiBus, B: BusyPin, D: Delay>(
    a: Pn5180<S, B, D>,
    after: Pn5180<S, B, D>,
    steps: Seq<Step>,
    r: Result<(), Error>,
)
    requires
        a.followed(after, steps, r),
    ensures
        a.went(after, steps, r),
{
    reveal(Pn5180::followed);
    if r is Ok {
        lemma_completed(a, after, steps);
    } else {
        let (k, mid) = choose|k: int, mid: Pn5180<S, B, D>|
            {
                &&& 0 <= k < steps.len()
                &&& #[trigger] a.completed(mid, steps.take(k))
                &&& mid.did(after, steps[k], r)
            };
        let plan = frames_of(steps);
        let done = frames_of(steps.take(k));
        lemma_completed(a, mid, steps.take(k));
        lemma_prefixes(a.bus(), mid.bus(), after.bus());
        lemma_frames_of_first(steps, k);
        lemma_frames_of_first(steps, k + 1);
        assert(steps.take(k + 1).drop_last() =~= steps.take(k));
        let frame = steps[k]->Tell_0;
        let one = seq![Frame::Sent(frame)];
        let n = choose|n: int|
            {
                &&& 0 <= n <= one.len()
                &&& after.bus() == mid.bus() + #[trigger] one.take(n) || (n < one.len()
                    && after.bus() == (mid.bus() + one.take(n)).push(Frame::Lost))
            };
        let more = frames_of(steps.take(k + 1));
        assert(more == done.push(Frame::Sent(frame)));
        assert(plan.take(done.len() + n) =~= done + one.take(n)) by {
            assert(plan.take(more.len() as int) == more);
            assert forall|i: int| 0 <= i < done.len() + n implies plan[i] == (done + one.take(
                n,
            ))[i] by {
                assert(plan.take(more.len() as int)[i] == more[i]);
            }
        }
        assert(a.bus() + plan.take(done.len() + n) =~= mid.bus() + one.take(n));
    }
}

/// Waiting for a frame ends where the interrupts cannot be read or say that there is one.
proof fn lemma_awaited<S: SpiBus, B: BusyPin, D: Delay>(
    a: Pn5180<S, B, D>,
    mid: Pn5180<S, B, D>,
    seen: Pn5180<S, B, D>,
    after: Pn5180<S, B, D>,
    timeout_us: u32,
    n: nat,
    v: Result<u32, Error>,
    r: Result<Option<usize>, Error>,
)
    requires
        a.watched(mid, reg::IRQ_STATUS, 1, 2, 1, n),
        n < timeout_us / 100,
        mid.consulted(seen, reg::IRQ_STATUS, v),
        match v {
            Err(e) => after == seen && fails(r, e),
            Ok(v) => v % 2 == 1 && exists|w: Result<u32, Error>| #[trigger]
                seen.consulted(after, reg::RX_STATUS, w) && match w {
                    Err(e) => fails(r, e),
                    Ok(w) => r == Ok::<Option<usize>, Error>(Some((w % 512) as usize)),
                },
        },
    ensures
        a.awaited(after, timeout_us, r),
{
    reveal(Pn5180::awaited);
}

/// Looking for a state ends where the status cannot be read or shows it.
proof fn lemma_sought<S: SpiBus, B: BusyPin, D: Delay>(
    a: Pn5180<S, B, D>,
    mid: Pn5180<S, B, D>,
    after: Pn5180<S, B, D>,
    state: u32,
    n: nat,
    v: Result<u32, Error>,
    r: Result<bool, Error>,
)
    requires
        a.watched(mid, reg::RF_STATUS, 0x100_0000, 8, state as int, n),
        n < 500,
        mid.consulted(after, reg::RF_STATUS, v),
        match v {
            Err(e) => fails(r, e),
            Ok(v) => v as int / 0x100_0000 % 8 == state && r == Ok::<bool, Error>(true),
        },
    ensures
        a.sought(after, state, r),
{
    reveal(Pn5180::sought);
}

proof fn lemma_requests_push(frames: Seq<Seq<u8>>, f: Seq<u8>)
    ensures
        requests(frames.push(f)) == requests(frames) + if f == seq![7u8, 0x26u8] {
            1nat
        } else {
            0
        },
{
    assert(frames.push(f).drop_last() =~= frames);
}

proof fn lemma_tag_of(buf: Seq<u8>, uid: Option<Uid>)
    requires
        pn5180::identifies(buf, uid),
    ensures
        tag_of(buf) == uid,
{
    if uid is Some {
        let u = uid->0;
        assert(u.0@ == buf.subrange(2, 10));
        let c = choose|u: Uid| u.0@ == buf.subrange(2, 10);
        pn5180::lemma_uid_by_bytes(u, c);
    }
}

/// The chip, behind its bus, its BUSY line and a source of delays.
pub struct Pn5180<SPI, BUSY, D> {
    pub spi: SPI,
    /// `None` when no BUSY pin is wired.
    pub busy: Option<BUSY>,
    pub delay: D,
    /// The protocol most recently configured, so a wedged transceiver can be recovered without
    /// the caller having to know what it was running.
    pub protocol: Option<(u8, u8)>,
    /// How many times the transceiver had to be recovered by cycling the field.
    pub recoveries: u32,
    /// Whether BUSY has ever been observed high. A chip that is unpowered, held in reset or
    /// wired to the wrong pin holds BUSY low forever.
    pub saw_busy_high: bool,
}

impl<SPI: SpiBus, BUSY: BusyPin, D: Delay> Pn5180<SPI, BUSY, D> {
    /// What went over the bus so far.
    pub open spec fn bus(self) -> Seq<Frame> {
        self.spi.log()
    }

    /// What was seen of the BUSY line so far.
    pub open spec fn polls(self) -> Seq<Poll> {
        match self.busy {
            Some(pin) => pin.log(),
            None => Seq::empty(),
        }
    }

    /// How long was waited so far.
    pub open spec fn waits(self) -> Seq<u32> {
        self.delay.log()
    }

    /// Whether the last thing that happened is the failure that `e` names: a transfer that was
    /// lost, a BUSY line that could not be read, or one that stayed high for as long as we wait.
    pub open spec fn faulted(self, e: Error) -> bool {
        match e {
            Error::Spi => self.bus().len() > 0 && self.bus().last() == Frame::Lost,
            Error::Pin => self.polls().len() > 0 && self.polls().last() == Poll::Low(None),
            Error::BusyTimeout => times(
                BUSY_TIMEOUT_STEPS as nat,
                Poll::Low(Some(false)),
            ).is_suffix_of(self.polls()),
            _ => false,
        }
    }

    /// Whether the bus failed, or the transceiver did not get ready for a frame.
    pub open spec fn stuck(self, e: Error) -> bool {
        if e == Error::NotReadyToTransmit {
            last_state(self.bus()) != TS_WAIT_TRANSMIT
        } else {
            self.faulted(e)
        }
    }

    /// Whether the configuration is the same and nothing went over the air.
    pub open spec fn kept(self, after: Self) -> bool {
        &&& after.protocol == self.protocol
        &&& after.recoveries == self.recoveries
        &&& quiet(self.bus(), after.bus())
        &&& self.bus().is_prefix_of(after.bus())
    }

    /// Whether some microseconds passed, and nothing else happened.
    pub open spec fn paused(self, after: Self, us: u32) -> bool {
        &&& after == (Pn5180 { delay: after.delay, ..self })
        &&& after.waits() == self.waits().push(us)
    }

    /// Whether BUSY was waited for to be low, and nothing else happened. It is polled every 100
    /// microseconds; a poll that fails is an error, and so are [`BUSY_TIMEOUT_STEPS`] polls that
    /// find it high. Without a BUSY line a fixed time passes.
    #[verifier::opaque]
    pub open spec fn idled(self, after: Self, r: Result<(), Error>) -> bool {
        &&& after == (Pn5180 { busy: after.busy, delay: after.delay, ..self })
        &&& after.busy is Some == self.busy is Some
        &&& self.busy is None ==> r is Ok && after.waits() == self.waits().push(NO_BUSY_SETTLE_US)
        &&& self.busy is Some ==> exists|k: nat|
            {
                let high = self.polls() + times(k, Poll::Low(Some(false)));
                &&& k <= BUSY_TIMEOUT_STEPS
                &&& after.waits() == self.waits() + #[trigger] times(k, 100u32)
                &&& match r {
                    Ok(_) => k < BUSY_TIMEOUT_STEPS && after.polls() == high.push(
                        Poll::Low(Some(true)),
                    ),
                    Err(Error::Pin) => k < BUSY_TIMEOUT_STEPS && after.polls() == high.push(
                        Poll::Low(None),
                    ),
                    Err(e) => e == Error::BusyTimeout && k == BUSY_TIMEOUT_STEPS && after.polls()
                        == high,
                }
            }
    }

    /// Whether BUSY was waited for to rise, and nothing else happened. It is polled every 10
    /// microseconds, until it is high or cannot be read, and not more than a hundred times.
    #[verifier::opaque]
    pub open spec fn acknowledged(self, after: Self) -> bool {
        if self.busy is None {
            after == self
        } else {
            &&& after == (Pn5180 {
                busy: after.busy,
                delay: after.delay,
                saw_busy_high: after.saw_busy_high,
                ..self
            })
            &&& after.busy is Some
            &&& exists|k: nat|
                {
                    let low = self.polls() + times(k, Poll::High(Some(false)));
                    &&& after.waits() == self.waits() + #[trigger] times(k, 10u32)
                    &&& {
                        ||| k < 100 && after.polls() == low.push(Poll::High(Some(true)))
                            && after.saw_busy_high
                        ||| k < 100 && after.polls() == low.push(Poll::High(None))
                            && after.saw_busy_high == self.saw_busy_high
                        ||| k == 100 && after.polls() == low && after.saw_busy_high
                            == self.saw_busy_high
                    }
                }
        }
    }

    /// Whether a frame was handed to the bus, and nothing else happened.
    pub open spec fn wrote(self, after: Self, frame: Seq<u8>, ok: bool) -> bool {
        &&& after == (Pn5180 { spi: after.spi, ..self })
        &&& after.bus() == self.bus().push(
            if ok {
                Frame::Sent(frame)
            } else {
                Frame::Lost
            },
        )
    }

    /// Whether bytes were taken from the bus, and nothing else happened.
    pub open spec fn took(self, after: Self, bytes: Seq<u8>, ok: bool) -> bool {
        &&& after == (Pn5180 { spi: after.spi, ..self })
        &&& after.bus() == self.bus().push(
            if ok {
                Frame::Got(bytes)
            } else {
                Frame::Lost
            },
        )
    }

    /// Whether a command went through the BUSY handshake: BUSY low, the frame, BUSY up as far as
    /// that is seen, and BUSY low again. Nothing is transferred where the first wait fails.
    #[verifier::opaque]
    pub open spec fn sent(self, after: Self, frame: Seq<u8>, r: Result<(), Error>) -> bool {
        exists|ready: Self, i: Result<(), Error>| #[trigger]
            self.idled(ready, i) && match i {
                Err(e) => after == ready && fails(r, e),
                Ok(_) => exists|out: Self, ok: bool| #[trigger]
                    ready.wrote(out, frame, ok) && if ok {
                        exists|up: Self| #[trigger] out.acknowledged(up) && up.idled(after, r)
                    } else {
                        after == out && fails(r, Error::Spi)
                    },
            }
    }

    /// Whether a response was read within the BUSY handshake, into a buffer that held `was` and
    /// then holds `now`. Nothing is transferred where the first wait fails; where the second one
    /// does, the buffer holds what was read.
    #[verifier::opaque]
    pub open spec fn received(
        self,
        after: Self,
        was: Seq<u8>,
        now: Seq<u8>,
        r: Result<(), Error>,
    ) -> bool {
        &&& now.len() == was.len()
        &&& exists|ready: Self, i: Result<(), Error>| #[trigger]
            self.idled(ready, i) && match i {
                Err(e) => after == ready && now == was && fails(r, e),
                Ok(_) => exists|got: Self, ok: bool| #[trigger]
                    ready.took(got, now, ok) && if ok {
                        got.idled(after, r)
                    } else {
                        after == got && fails(r, Error::Spi)
                    },
            }
    }

    /// Whether a question was sent and its answer read, or why it was not. The buffer is left
    /// alone where the question did not get through.
    #[verifier::opaque]
    pub open spec fn exchanged(
        self,
        after: Self,
        question: Seq<u8>,
        was: Seq<u8>,
        now: Seq<u8>,
        r: Result<(), Error>,
    ) -> bool {
        exists|mid: Self, c: Result<(), Error>| #[trigger]
            self.sent(mid, question, c) && match c {
                Err(e) => after == mid && now == was && fails(r, e),
                Ok(_) => mid.received(after, was, now, r),
            }
    }

    /// Whether a command was sent that sends nothing over the air, or why it was not.
    pub open spec fn commanded(self, after: Self, frame: Seq<u8>, r: Result<(), Error>) -> bool {
        &&& self.kept(after)
        &&& self.sent(after, frame, r)
        &&& match r {
            Ok(_) => after.bus() == self.bus().push(Frame::Sent(frame)) && losses(after.bus())
                == losses(self.bus()),
            Err(e) => after.faulted(e) && cut_short(
                self.bus(),
                after.bus(),
                seq![Frame::Sent(frame)],
            ),
        }
    }

    /// Whether one step was done, or why it was not.
    pub open spec fn did(self, after: Self, step: Step, r: Result<(), Error>) -> bool {
        match step {
            Step::Tell(frame) => self.commanded(after, frame, r),
            Step::Pause(us) => r is Ok && self.paused(after, us),
        }
    }

    /// Whether some steps were done one after the other.
    #[verifier::opaque]
    pub open spec fn completed(self, after: Self, steps: Seq<Step>) -> bool
        decreases steps.len(),
    {
        if steps.len() == 0 {
            after == self
        } else {
            exists|mid: Self|
                self.completed(mid, steps.drop_last()) && #[trigger] mid.did(
                    after,
                    steps.last(),
                    Ok(()),
                )
        }
    }

    /// Whether some steps were done one after the other, up to the first that fails.
    #[verifier::opaque]
    pub open spec fn followed(self, after: Self, steps: Seq<Step>, r: Result<(), Error>) -> bool {
        if r is Ok {
            self.completed(after, steps)
        } else {
            exists|k: int, mid: Self|
                {
                    &&& 0 <= k < steps.len()
                    &&& #[trigger] self.completed(mid, steps.take(k))
                    &&& mid.did(after, steps[k], r)
                }
        }
    }

    /// What following some steps comes to on the bus: the frames of all of them, or of the first
    /// ones and then the failure.
    pub open spec fn went(self, after: Self, steps: Seq<Step>, r: Result<(), Error>) -> bool {
        &&& self.kept(after)
        &&& match r {
            Ok(_) => after.bus() == self.bus() + frames_of(steps) && losses(after.bus()) == losses(
                self.bus(),
            ),
            Err(e) => after.faulted(e) && cut_short(self.bus(), after.bus(), frames_of(steps)),
        }
    }

    /// Whether the front end was switched to a protocol by these steps, or why it was not.
    pub open spec fn begun(
        self,
        after: Self,
        tx: u8,
        rx: u8,
        steps: Seq<Step>,
        r: Result<(), Error>,
    ) -> bool {
        &&& after.protocol == Some((tx, rx))
        &&& after.recoveries == self.recoveries
        &&& quiet(self.bus(), after.bus())
        &&& self.bus().is_prefix_of(after.bus())
        &&& (Pn5180 { protocol: Some((tx, rx)), ..self }).followed(after, steps, r)
        &&& match r {
            Ok(_) => after.bus() == self.bus() + frames_of(steps) && losses(after.bus()) == losses(
                self.bus(),
            ),
            Err(e) => after.faulted(e) && cut_short(self.bus(), after.bus(), frames_of(steps)),
        }
    }

    /// Whether a register was read, or why it was not.
    pub open spec fn consulted(self, after: Self, register: u8, r: Result<u32, Error>) -> bool {
        let question = register_question(register);
        let asked = self.bus().push(Frame::Sent(question));
        &&& self.kept(after)
        &&& exists|was: Seq<u8>, now: Seq<u8>, c: Result<(), Error>| #[trigger]
            self.exchanged(after, question, was, now, c) && was.len() == 4 && match c {
                Err(e) => fails(r, e),
                Ok(_) => r == Ok::<u32, Error>(wire::le32(now, 0) as u32),
            }
        &&& match r {
            Ok(v) => {
                &&& response(after.bus()).len() == 4
                &&& v == wire::le32(response(after.bus()), 0)
                &&& after.bus() == asked.push(Frame::Got(response(after.bus())))
                &&& losses(after.bus()) == losses(self.bus())
            },
            Err(e) => after.faulted(e) && {
                ||| after.bus() == self.bus()
                ||| after.bus() == self.bus().push(Frame::Lost)
                ||| after.bus() == asked
                ||| after.bus() == asked.push(Frame::Lost)
                ||| after.bus() == asked.push(Frame::Got(response(after.bus())))
            },
        }
    }
}

impl<SPI: SpiBus, BUSY: BusyPin, D: Delay> Pn5180<SPI, BUSY, D> {
    /// Whether the three registers worth seeing were read one after the other, up to the first
    /// that cannot be.
    pub open spec fn surveyed(self, after: Self, r: Result<(u32, u32, u32), Error>) -> bool {
        exists|one: Self, a: Result<u32, Error>| #[trigger]
            self.consulted(one, reg::RF_STATUS, a) && match a {
                Err(e) => after == one && fails(r, e),
                Ok(rf) => exists|two: Self, b: Result<u32, Error>| #[trigger]
                    one.consulted(two, reg::IRQ_STATUS, b) && match b {
                        Err(e) => after == two && fails(r, e),
                        Ok(irq) => exists|c: Result<u32, Error>| #[trigger]
                            two.consulted(after, reg::RX_STATUS, c) && match c {
                                Err(e) => fails(r, e),
                                Ok(rx) => r == Ok::<(u32, u32, u32), Error>((rf, irq, rx)),
                            },
                    },
            }
    }

    /// Whether a register was read `n` times, 100 microseconds passing after each, and never
    /// showed `want` in the field that `low` and `size` pick.
    #[verifier::opaque]
    pub open spec fn watched(
        self,
        after: Self,
        register: u8,
        low: int,
        size: int,
        want: int,
        n: nat,
    ) -> bool
        decreases n,
    {
        if n == 0 {
            after == self
        } else {
            exists|mid: Self, read: Self, v: u32|
                {
                    &&& self.watched(mid, register, low, size, want, (n - 1) as nat)
                    &&& #[trigger] mid.consulted(read, register, Ok(v))
                    &&& v as int / low % size != want
                    &&& #[trigger] read.paused(after, 100)
                }
        }
    }

    /// Whether the transceive state was read until it is `state`, up to 500 times.
    #[verifier::opaque]
    pub open spec fn sought(self, after: Self, state: u32, r: Result<bool, Error>) -> bool {
        exists|n: nat, mid: Self|
            {
                &&& #[trigger] self.watched(mid, reg::RF_STATUS, 0x100_0000, 8, state as int, n)
                &&& n <= 500
                &&& if n == 500 {
                    after == mid && r == Ok::<bool, Error>(false)
                } else {
                    exists|v: Result<u32, Error>| #[trigger]
                        mid.consulted(after, reg::RF_STATUS, v) && match v {
                            Err(e) => fails(r, e),
                            Ok(v) => v as int / 0x100_0000 % 8 == state && r == Ok::<bool, Error>(
                                true,
                            ),
                        }
                }
            }
    }

    /// Whether the transceiver was told to return to Idle and asked whether it got there.
    #[verifier::opaque]
    pub open spec fn returned_to_idle(self, after: Self, r: Result<bool, Error>) -> bool {
        exists|mid: Self, c: Result<(), Error>| #[trigger]
            self.commanded(
                mid,
                register_frame(cmd::WRITE_REGISTER_AND_MASK, reg::SYSTEM_CONFIG, 0xffff_fff8),
                c,
            ) && match c {
                Err(e) => after == mid && fails(r, e),
                Ok(_) => mid.sought(after, TS_IDLE, r),
            }
    }

    /// Whether the transceiver was returned to Idle, told to get ready for a frame, and asked
    /// whether it is.
    #[verifier::opaque]
    pub open spec fn arming(self, after: Self, r: Result<bool, Error>) -> bool {
        exists|idle: Self, i: Result<bool, Error>| #[trigger]
            self.returned_to_idle(idle, i) && match i {
                Err(e) => after == idle && fails(r, e),
                Ok(_) => exists|mid: Self, c: Result<(), Error>| #[trigger]
                    idle.commanded(
                        mid,
                        register_frame(cmd::WRITE_REGISTER_OR_MASK, reg::SYSTEM_CONFIG, 3),
                        c,
                    ) && match c {
                        Err(e) => after == mid && fails(r, e),
                        Ok(_) => mid.sought(after, TS_WAIT_TRANSMIT, r),
                    },
            }
    }

    /// Whether the transceiver was armed; where it would not arm, and a protocol is configured,
    /// whether the front end was switched to it once more and the arming tried again.
    #[verifier::opaque]
    pub open spec fn transceiving(self, after: Self, r: Result<(), Error>) -> bool {
        exists|first: Self, a: Result<bool, Error>| #[trigger]
            self.arming(first, a) && match a {
                Err(e) => after == first && fails(r, e),
                Ok(true) => after == first && r is Ok,
                Ok(false) => match self.protocol {
                    None => after == first && fails(r, Error::NotReadyToTransmit),
                    Some((tx, rx)) => exists|again: Self, o: Result<(), Error>| #[trigger]
                        (Pn5180 {
                            recoveries: (self.recoveries + 1) as u32,
                            ..first
                        }).begun(again, tx, rx, opening(tx, rx), o) && match o {
                            Err(e) => after == again && fails(r, e),
                            Ok(_) => exists|b: Result<bool, Error>| #[trigger]
                                again.arming(after, b) && match b {
                                    Err(e) => fails(r, e),
                                    Ok(true) => r is Ok,
                                    Ok(false) => fails(r, Error::NotReadyToTransmit),
                                },
                        },
                },
            }
    }

    /// Whether the transceiver was armed and handed a frame.
    #[verifier::opaque]
    pub open spec fn data_sent(
        self,
        after: Self,
        valid_bits: u8,
        data: Seq<u8>,
        r: Result<(), Error>,
    ) -> bool {
        exists|ready: Self, t: Result<(), Error>| #[trigger]
            self.transceiving(ready, t) && match t {
                Err(e) => after == ready && fails(r, e),
                Ok(_) => ready.sent(after, seq![cmd::SEND_DATA, valid_bits] + data, r),
            }
    }

    /// Whether a frame was waited for: the interrupts are read every 100 microseconds until one
    /// says that a frame was received, whose length is read then.
    #[verifier::opaque]
    pub open spec fn awaited(
        self,
        after: Self,
        timeout_us: u32,
        r: Result<Option<usize>, Error>,
    ) -> bool {
        exists|n: nat, mid: Self|
            {
                &&& #[trigger] self.watched(mid, reg::IRQ_STATUS, 1, 2, 1, n)
                &&& n <= timeout_us / 100
                &&& if n == timeout_us / 100 {
                    after == mid && r == Ok::<Option<usize>, Error>(None)
                } else {
                    exists|seen: Self, v: Result<u32, Error>| #[trigger]
                        mid.consulted(seen, reg::IRQ_STATUS, v) && match v {
                            Err(e) => after == seen && fails(r, e),
                            Ok(v) => v % 2 == 1 && exists|w: Result<u32, Error>| #[trigger]
                                seen.consulted(after, reg::RX_STATUS, w) && match w {
                                    Err(e) => fails(r, e),
                                    Ok(w) => r == Ok::<Option<usize>, Error>(
                                        Some((w % 512) as usize),
                                    ),
                                },
                        }
                }
            }
    }

    /// Whether a received frame was fetched into a buffer that held `was`.
    pub open spec fn fetched(
        self,
        after: Self,
        was: Seq<u8>,
        now: Seq<u8>,
        r: Result<(), Error>,
    ) -> bool {
        self.exchanged(after, seq![cmd::READ_DATA, 0u8], was, now, r)
    }

    /// Whether the interrupts were cleared, a frame sent, and an answer waited for.
    #[verifier::opaque]
    pub open spec fn called(
        self,
        after: Self,
        valid_bits: u8,
        data: Seq<u8>,
        r: Result<Option<usize>, Error>,
    ) -> bool {
        exists|clear: Self, c: Result<(), Error>| #[trigger]
            self.commanded(clear, irqs_cleared(), c) && match c {
                Err(e) => after == clear && fails(r, e),
                Ok(_) => exists|out: Self, s: Result<(), Error>| #[trigger]
                    clear.data_sent(out, valid_bits, data, s) && match s {
                        Err(e) => after == out && fails(r, e),
                        Ok(_) => out.awaited(after, 20_000, r),
                    },
            }
    }

    /// Whether a single-slot inventory was run: the frame that was announced is fetched, as far
    /// as it fits into the buffer, and its length returned; none at all is a length of zero.
    #[verifier::opaque]
    pub open spec fn took_one(
        self,
        after: Self,
        high: bool,
        was: Seq<u8>,
        now: Seq<u8>,
        r: Result<usize, Error>,
    ) -> bool {
        let request = single_slot_request(high);
        &&& now.len() == was.len()
        &&& exists|mid: Self, a: Result<Option<usize>, Error>| #[trigger]
            self.called(mid, 0, request, a) && match a {
                Err(e) => after == mid && now == was && fails(r, e),
                Ok(len) => {
                    let n = fitting(len, was.len());
                    if n == 0 {
                        after == mid && now == was && r == Ok::<usize, Error>(0)
                    } else {
                        &&& now.skip(n) == was.skip(n)
                        &&& exists|f: Result<(), Error>| #[trigger]
                            mid.fetched(after, was.take(n), now.take(n), f) && match f {
                                Err(e) => fails(r, e),
                                Ok(_) => r == Ok::<usize, Error>(n as usize),
                            }
                    }
                },
            }
    }

    /// Whether a card was asked for, and its two bytes of answer fetched where two or more were
    /// announced.
    #[verifier::opaque]
    pub open spec fn requested(
        self,
        after: Self,
        request: u8,
        r: Result<Option<[u8; 2]>, Error>,
    ) -> bool {
        exists|mid: Self, a: Result<Option<usize>, Error>| #[trigger]
            self.called(mid, 7, short_frame(request), a) && match a {
                Err(e) => after == mid && fails(r, e),
                Ok(len) => if len is Some && len->0 >= 2 {
                    exists|was: Seq<u8>, now: Seq<u8>, f: Result<(), Error>| #[trigger]
                        mid.fetched(after, was, now, f) && was.len() == 2 && match f {
                            Err(e) => fails(r, e),
                            Ok(_) => r is Ok && r->Ok_0 is Some && (r->Ok_0)->0@ == now,
                        }
                } else {
                    after == mid && r == Ok::<Option<[u8; 2]>, Error>(None)
                },
            }
    }

    /// Whether one attempt was made at identifying a card: it is asked for, and where it answers,
    /// an anticollision level is run; the five bytes of it are fetched where as many were
    /// announced.
    #[verifier::opaque]
    pub open spec fn attempted(self, after: Self, r: Result<Option<CardUid>, Error>) -> bool {
        exists|here: Self, a: Result<Option<[u8; 2]>, Error>| #[trigger]
            self.requested(here, 0x26, a) && match a {
                Err(e) => after == here && fails(r, e),
                Ok(None) => after == here && r == Ok::<Option<CardUid>, Error>(None),
                Ok(Some(_)) => exists|mid: Self, n: Result<Option<usize>, Error>| #[trigger]
                    here.called(mid, 0, first_level(), n) && match n {
                        Err(e) => after == mid && fails(r, e),
                        Ok(len) => if len is Some && len->0 >= 5 {
                            exists|was: Seq<u8>, now: Seq<u8>, f: Result<(), Error>| #[trigger]
                                mid.fetched(after, was, now, f) && was.len() == 5 && match f {
                                    Err(e) => fails(r, e),
                                    Ok(_) => r is Ok && pn5180::identifies_card(now, r->Ok_0),
                                }
                        } else {
                            after == mid && r == Ok::<Option<CardUid>, Error>(None)
                        },
                    },
            }
    }

    /// Whether `n` attempts were made, none of which failed or found a card.
    #[verifier::opaque]
    pub open spec fn missed(self, after: Self, n: nat) -> bool
        decreases n,
    {
        if n == 0 {
            after == self
        } else {
            exists|mid: Self|
                self.missed(mid, (n - 1) as nat) && #[trigger] mid.attempted(after, Ok(None))
        }
    }

    /// Whether a slot was listened to: a frame is fetched where one of 10 to [`MAX_FRAME`] bytes
    /// was announced, and skipped otherwise.
    #[verifier::opaque]
    pub open spec fn slot_heard(self, after: Self, r: Result<Option<Seq<u8>>, Error>) -> bool {
        exists|mid: Self, a: Result<Option<usize>, Error>| #[trigger]
            self.awaited(mid, 10_000, a) && match a {
                Err(e) => after == mid && fails(r, e),
                Ok(len) => if len is Some && 10 <= len->0 <= MAX_FRAME {
                    exists|was: Seq<u8>, now: Seq<u8>, f: Result<(), Error>| #[trigger]
                        mid.fetched(after, was, now, f) && was.len() == len->0 && match f {
                            Err(e) => fails(r, e),
                            Ok(_) => r == Ok::<Option<Seq<u8>>, Error>(Some(now)),
                        }
                } else {
                    after == mid && r == Ok::<Option<Seq<u8>>, Error>(None)
                },
            }
    }

    /// Whether the next slot was stepped to with a bare EOF, or why it was not.
    #[verifier::opaque]
    pub open spec fn slot_stepped(self, after: Self, r: Result<(), Error>) -> bool {
        exists|eof: Self, a: Result<(), Error>| #[trigger]
            self.commanded(eof, eof_only(), a) && match a {
                Err(e) => after == eof && fails(r, e),
                Ok(_) => exists|clear: Self, b: Result<(), Error>| #[trigger]
                    eof.commanded(clear, irqs_cleared(), b) && match b {
                        Err(e) => after == clear && fails(r, e),
                        Ok(_) => clear.data_sent(after, 0, Seq::empty(), r),
                    },
            }
    }

    /// Whether `n` of the sixteen slots were gone through, and which frames were fetched in them.
    #[verifier::opaque]
    pub open spec fn gone_through(self, after: Self, n: nat, answers: Seq<Seq<u8>>) -> bool
        decreases n,
    {
        if n == 0 {
            after == self && answers == Seq::<Seq<u8>>::empty()
        } else {
            exists|mid: Self, at: Self, answer: Option<Seq<u8>>|
                {
                    &&& #[trigger] mid.slot_heard(at, Ok(answer))
                    &&& if n < 16 {
                        at.slot_stepped(after, Ok(()))
                    } else {
                        after == at
                    }
                    &&& match answer {
                        Some(frame) => answers.len() > 0 && answers.last() == frame
                            && self.gone_through(mid, (n - 1) as nat, answers.drop_last()),
                        None => self.gone_through(mid, (n - 1) as nat, answers),
                    }
                }
        }
    }

    /// Whether an inventory was opened, or why it was not: the transmitter is configured, the
    /// interrupts are cleared and the request for sixteen slots is sent.
    #[verifier::opaque]
    pub open spec fn inventory_opened(self, after: Self, r: Result<(), Error>) -> bool {
        exists|loaded: Self, a: Result<(), Error>| #[trigger]
            self.commanded(loaded, tags_configured(), a) && match a {
                Err(e) => after == loaded && fails(r, e),
                Ok(_) => exists|clear: Self, b: Result<(), Error>| #[trigger]
                    loaded.commanded(clear, irqs_cleared(), b) && match b {
                        Err(e) => after == clear && fails(r, e),
                        Ok(_) => clear.data_sent(after, 0, slots_request(), r),
                    },
            }
    }

    /// A chip that nothing was said to yet.
    pub open spec fn fresh(self) -> bool {
        &&& self.protocol is None
        &&& self.recoveries == 0
        &&& !self.saw_busy_high
    }

    pub fn new(spi: SPI, busy: BUSY, delay: D) -> (r: Self)
        ensures
            r.fresh(),
            r.spi == spi,
            r.busy == Some(busy),
            r.delay == delay,
    {
        Pn5180 {
            spi,
            busy: Some(busy),
            delay,
            protocol: None,
            recoveries: 0,
            saw_busy_high: false,
        }
    }

    /// Construct without a BUSY line, substituting a fixed delay.
    pub fn without_busy(spi: SPI, delay: D) -> (r: Self)
        ensures
            r.fresh(),
            r.spi == spi,
            r.busy is None,
            r.delay == delay,
    {
        Pn5180 {
            spi,
            busy: None,
            delay,
            protocol: None,
            recoveries: 0,
            saw_busy_high: false,
        }
    }

    /// Has BUSY ever been seen high? False after several commands means the chip is not
    /// acknowledging anything.
    pub fn saw_busy_high(&self) -> (r: bool)
        ensures
            r == self.saw_busy_high,
    {
        self.saw_busy_high
    }

    /// How many times the transceiver has needed recovering.
    pub fn recoveries(&self) -> (r: u32)
        ensures
            r == self.recoveries,
    {
        self.recoveries
    }

    /// Whether the BUSY line was asked for its level, and nothing else happened.
    pub open spec fn level_asked(self, after: Self, level: Option<bool>) -> bool {
        if self.busy is None {
            after == self && level is None
        } else {
            &&& after == (Pn5180 { busy: after.busy, ..self })
            &&& after.busy is Some
            &&& after.polls() == self.polls().push(Poll::High(level))
        }
    }

    /// Current BUSY level, or `None` if no BUSY pin is wired or it cannot be read.
    pub fn busy_level(&mut self) -> (r: Option<bool>)
        ensures
            old(self).level_asked(*final(self), r),
    {
        match &mut self.busy {
            None => None,
            Some(pin) => pin.is_high(),
        }
    }

    /// Let some microseconds pass.
    fn wait_us(&mut self, us: u32)
        ensures
            old(self).paused(*final(self), us),
    {
        self.delay.delay_us(us);
    }

    /// Block until BUSY is low, or give up.
    ///
    /// With a BUSY pin it is polled until it is low; a poll that fails is an error, and so are
    /// [`BUSY_TIMEOUT_STEPS`] polls that find it high.
    pub fn wait_idle(&mut self) -> (r: Result<(), Error>)
        ensures
            old(self).idled(*final(self), r),
            final(self).spi == old(self).spi,
            final(self).busy is Some == old(self).busy is Some,
            final(self).saw_busy_high == old(self).saw_busy_high,
            final(self).protocol == old(self).protocol,
            final(self).recoveries == old(self).recoveries,
            r is Err ==> final(self).faulted(r->Err_0) && (r->Err_0 == Error::Pin || r->Err_0
                == Error::BusyTimeout),
    {
        proof {
            reveal(Pn5180::idled);
        }
        if self.busy.is_none() {
            self.wait_us(NO_BUSY_SETTLE_US);
            return Ok(());
        }
        let ghost before = *self;
        let mut k: u32 = 0;
        proof {
            lemma_once_more(0, 100u32);
            lemma_once_more(0, Poll::Low(Some(false)));
            assert(self.waits() =~= before.waits() + times(0, 100u32));
            assert(self.polls() =~= before.polls() + times(0, Poll::Low(Some(false))));
        }
        while k < BUSY_TIMEOUT_STEPS
            invariant
                k <= BUSY_TIMEOUT_STEPS,
                before == *old(self),
                before.busy is Some,
                self.busy is Some,
                *self == (Pn5180 { busy: self.busy, delay: self.delay, ..before }),
                self.waits() == before.waits() + times(k as nat, 100u32),
                self.polls() == before.polls() + times(k as nat, Poll::Low(Some(false))),
            decreases BUSY_TIMEOUT_STEPS - k,
        {
            proof {
                reveal(Pn5180::idled);
            }
            let low: Option<bool> = match &mut self.busy {
                Some(pin) => pin.is_low(),
                None => None,
            };
            match low {
                None => {
                    return Err(Error::Pin);
                },
                Some(true) => {
                    return Ok(());
                },
                Some(false) => {
                    self.wait_us(100);
                    proof {
                        lemma_once_more(k as nat, 100u32);
                        lemma_once_more(k as nat, Poll::Low(Some(false)));
                        assert(self.waits() =~= before.waits() + times((k + 1) as nat, 100u32));
                        assert(self.polls() =~= before.polls() + times(
                            (k + 1) as nat,
                            Poll::Low(Some(false)),
                        ));
                    }
                },
            }
            k += 1;
        }
        proof {
            let high = times(BUSY_TIMEOUT_STEPS as nat, Poll::Low(Some(false)));
            assert(self.polls().subrange(
                self.polls().len() - high.len(),
                self.polls().len() as int,
            ) =~= high);
        }
        Err(Error::BusyTimeout)
    }

    /// Wait for BUSY to rise, which is how the chip acknowledges it has taken the command.
    /// Absence of a rise is not fatal, since short commands can complete before we look.
    pub fn wait_taken(&mut self)
        ensures
            old(self).acknowledged(*final(self)),
            final(self).spi == old(self).spi,
            final(self).busy is Some == old(self).busy is Some,
            final(self).protocol == old(self).protocol,
            final(self).recoveries == old(self).recoveries,
    {
        proof {
            reveal(Pn5180::acknowledged);
        }
        if self.busy.is_none() {
            return;
        }
        let ghost before = *self;
        let mut k: u32 = 0;
        proof {
            lemma_once_more(0, 10u32);
            lemma_once_more(0, Poll::High(Some(false)));
            assert(self.waits() =~= before.waits() + times(0, 10u32));
            assert(self.polls() =~= before.polls() + times(0, Poll::High(Some(false))));
        }
        while k < 100
            invariant
                k <= 100,
                before == *old(self),
                before.busy is Some,
                self.busy is Some,
                *self == (Pn5180 { busy: self.busy, delay: self.delay, ..before }),
                self.waits() == before.waits() + times(k as nat, 10u32),
                self.polls() == before.polls() + times(k as nat, Poll::High(Some(false))),
            decreases 100 - k,
        {
            proof {
                reveal(Pn5180::acknowledged);
            }
            match self.busy_level() {
                Some(true) => {
                    self.saw_busy_high = true;
                    return;
                },
                Some(false) => {
                    self.wait_us(10);
                    proof {
                        lemma_once_more(k as nat, 10u32);
                        lemma_once_more(k as nat, Poll::High(Some(false)));
                        assert(self.waits() =~= before.waits() + times((k + 1) as nat, 10u32));
                        assert(self.polls() =~= before.polls() + times(
                            (k + 1) as nat,
                            Poll::High(Some(false)),
                        ));
                    }
                },
                None => {
                    return;
                },
            }
            k += 1;
        }
    }

    /// Send one command frame.
    ///
    /// It goes out once BUSY is low, and success means that BUSY was low again afterwards.
    pub fn send(&mut self, frame: &[u8]) -> (r: Result<(), Error>)
        ensures
            old(self).sent(*final(self), frame@, r),
            final(self).busy is Some == old(self).busy is Some,
            final(self).protocol == old(self).protocol,
            final(self).recoveries == old(self).recoveries,
            match r {
                Ok(_) => final(self).bus() == old(self).bus().push(Frame::Sent(frame@)) && losses(
                    final(self).bus(),
                ) == losses(old(self).bus()),
                Err(Error::Spi) => final(self).faulted(Error::Spi) && final(self).bus()
                    == old(self).bus().push(Frame::Lost),
                Err(e) => final(self).faulted(e) && (final(self).bus() == old(self).bus()
                    || final(self).bus() == old(self).bus().push(Frame::Sent(frame@))),
            },
            r is Err ==> cut_short(
                old(self).bus(),
                final(self).bus(),
                seq![Frame::Sent(frame@)],
            ),
            heard(final(self).bus()) == heard(old(self).bus()),
            frame@.len() == 0 || frame@[0] != cmd::SEND_DATA ==> quiet(
                old(self).bus(),
                final(self).bus(),
            ),
            frame@.len() > 0 && frame@[0] == cmd::SEND_DATA && r is Ok ==> transmitted(
                final(self).bus(),
            ) == transmitted(old(self).bus()).push(frame@.skip(1)),
    {
        proof {
            reveal(Pn5180::sent);
            lemma_push(self.bus(), Frame::Sent(frame@));
            lemma_push(self.bus(), Frame::Lost);
            lemma_cut_short(self.bus(), Frame::Sent(frame@));
        }
        let i: Result<(), Error> = self.wait_idle();
        let ghost ready = *self;
        assert(old(self).idled(ready, i));
        i?;
        let ok: bool = self.spi.write(frame);
        let ghost out = *self;
        assert(ready.wrote(out, frame@, ok));
        if !ok {
            return Err(Error::Spi);
        }
        self.wait_taken();
        assert(out.acknowledged(*self));
        self.wait_idle()
    }

    /// Read a response frame. Must follow the command it belongs to.
    pub fn recv(&mut self, buf: &mut [u8]) -> (r: Result<(), Error>)
        ensures
            old(self).received(*final(self), old(buf)@, final(buf)@, r),
            final(buf)@.len() == old(buf)@.len(),
            final(self).busy is Some == old(self).busy is Some,
            final(self).protocol == old(self).protocol,
            final(self).recoveries == old(self).recoveries,
            match r {
                Ok(_) => final(self).bus() == old(self).bus().push(Frame::Got(final(buf)@))
                    && losses(final(self).bus()) == losses(old(self).bus()),
                Err(Error::Spi) => final(self).faulted(Error::Spi) && final(self).bus()
                    == old(self).bus().push(Frame::Lost),
                Err(e) => final(self).faulted(e) && {
                    ||| final(self).bus() == old(self).bus() && final(buf)@ == old(buf)@
                    ||| final(self).bus() == old(self).bus().push(Frame::Got(final(buf)@))
                },
            },
            transmitted(final(self).bus()) == transmitted(old(self).bus()),
            old(self).bus().len() == 0 || old(self).bus().last() != Frame::Sent(
                seq![cmd::READ_DATA, 0u8],
            ) ==> heard(final(self).bus()) == heard(old(self).bus()),
            old(self).bus().len() > 0 && old(self).bus().last() == Frame::Sent(
                seq![cmd::READ_DATA, 0u8],
            ) && r is Ok ==> heard(final(self).bus()) == heard(old(self).bus()).push(
                final(buf)@,
            ),
            old(self).bus().is_prefix_of(final(self).bus()),
            heard(old(self).bus()).is_prefix_of(heard(final(self).bus())),
    {
        proof {
            reveal(Pn5180::received);
            lemma_push(self.bus(), Frame::Lost);
        }
        let i: Result<(), Error> = self.wait_idle();
        let ghost ready = *self;
        assert(old(self).idled(ready, i));
        i?;
        let ok: bool = self.spi.read(buf);
        let ghost got = *self;
        assert(ready.took(got, buf@, ok));
        if !ok {
            return Err(Error::Spi);
        }
        proof {
            lemma_push(ready.bus(), Frame::Got(buf@));
        }
        self.wait_idle()
    }

    /// Send a question that sends nothing over the air, and read its answer.
    fn exchange(&mut self, question: &[u8], buf: &mut [u8]) -> (r: Result<(), Error>)
        requires
            question@.len() > 0,
            question@[0] != cmd::SEND_DATA,
            question@[0] != cmd::READ_DATA,
        ensures
            old(self).exchanged(*final(self), question@, old(buf)@, final(buf)@, r),
            old(self).kept(*final(self)),
            final(buf)@.len() == old(buf)@.len(),
            ({
                let asked = old(self).bus().push(Frame::Sent(question@));
                match r {
                    Ok(_) => final(self).bus() == asked.push(Frame::Got(final(buf)@)) && losses(
                        final(self).bus(),
                    ) == losses(old(self).bus()),
                    Err(e) => final(self).faulted(e) && {
                        ||| final(self).bus() == old(self).bus() && final(buf)@ == old(buf)@
                        ||| final(self).bus() == old(self).bus().push(Frame::Lost) && final(buf)@
                            == old(buf)@
                        ||| final(self).bus() == asked && final(buf)@ == old(buf)@
                        ||| final(self).bus() == asked.push(Frame::Lost)
                        ||| final(self).bus() == asked.push(Frame::Got(final(buf)@))
                    },
                }
            }),
    {
        proof {
            reveal(Pn5180::exchanged);
        }
        let c: Result<(), Error> = self.send(question);
        let ghost mid = *self;
        assert(old(self).sent(mid, question@, c));
        c?;
        assert(question@[0] != seq![cmd::READ_DATA, 0u8][0]);
        self.recv(buf)
    }

    /// Read `buf.len()` bytes of EEPROM into `buf`.
    pub fn read_eeprom(&mut self, addr: u8, buf: &mut [u8]) -> (r: Result<(), Error>)
        ensures
            old(self).kept(*final(self)),
            old(self).exchanged(
                *final(self),
                eeprom_question(addr, old(buf)@.len() as u8),
                old(buf)@,
                final(buf)@,
                r,
            ),
            ({
                let asked = old(self).bus().push(
                    Frame::Sent(eeprom_question(addr, old(buf)@.len() as u8)),
                );
                match r {
                    Ok(_) => final(self).bus() == asked.push(Frame::Got(final(buf)@)),
                    Err(e) => final(self).faulted(e) && {
                        ||| final(self).bus() == old(self).bus() && final(buf)@ == old(buf)@
                        ||| final(self).bus() == old(self).bus().push(Frame::Lost) && final(buf)@
                            == old(buf)@
                        ||| final(self).bus() == asked && final(buf)@ == old(buf)@
                        ||| final(self).bus() == asked.push(Frame::Lost)
                        ||| final(self).bus() == asked.push(Frame::Got(final(buf)@))
                    },
                }
            }),
            final(buf)@.len() == old(buf)@.len(),
    {
        let frame: [u8; 3] = [cmd::READ_EEPROM, addr, buf.len() as u8];
        assert(frame@ =~= seq![cmd::READ_EEPROM, addr, old(buf)@.len() as u8]);
        self.exchange(frame.as_slice(), buf)
    }

    pub fn read_register(&mut self, reg: u8) -> (r: Result<u32, Error>)
        ensures
            old(self).consulted(*final(self), reg, r),
    {
        let frame: [u8; 2] = [cmd::READ_REGISTER, reg];
        assert(frame@ =~= seq![cmd::READ_REGISTER, reg]);
        let mut got: Vec<u8> = Vec::new();
        got.push(0);
        got.push(0);
        got.push(0);
        got.push(0);
        let ghost was = got@;
        let c: Result<(), Error> = self.exchange(frame.as_slice(), got.as_mut_slice());
        assert(old(self).exchanged(*self, register_question(reg), was, got@, c));
        c?;
        Ok(wire::get32(got.as_slice(), 0))
    }

    /// Send a command with a 32-bit operand, low byte first.
    fn send_operand(&mut self, command: u8, reg: u8, value: u32) -> (r: Result<(), Error>)
        requires
            command != cmd::SEND_DATA,
        ensures
            old(self).commanded(*final(self), register_frame(command, reg, value), r),
    {
        let mut frame: Vec<u8> = Vec::new();
        frame.push(command);
        frame.push(reg);
        wire::put32(&mut frame, value);
        assert(frame@ =~= register_frame(command, reg, value));
        self.send(frame.as_slice())
    }

    pub fn write_register(&mut self, reg: u8, value: u32) -> (r: Result<(), Error>)
        ensures
            old(self).commanded(*final(self), register_frame(cmd::WRITE_REGISTER, reg, value), r),
    {
        self.send_operand(cmd::WRITE_REGISTER, reg, value)
    }

    pub fn write_register_or_mask(&mut self, reg: u8, mask: u32) -> (r: Result<(), Error>)
        ensures
            old(self).commanded(
                *final(self),
                register_frame(cmd::WRITE_REGISTER_OR_MASK, reg, mask),
                r,
            ),
    {
        self.send_operand(cmd::WRITE_REGISTER_OR_MASK, reg, mask)
    }

    pub fn write_register_and_mask(&mut self, reg: u8, mask: u32) -> (r: Result<(), Error>)
        ensures
            old(self).commanded(
                *final(self),
                register_frame(cmd::WRITE_REGISTER_AND_MASK, reg, mask),
                r,
            ),
    {
        self.send_operand(cmd::WRITE_REGISTER_AND_MASK, reg, mask)
    }

    /// (major, minor) of a version in EEPROM.
    ///
    /// `FF FF` is what an absent, unpowered or mis-wired chip returns. Treating it as a version
    /// number would make a dead reader look alive.
    fn version(&mut self, addr: u8) -> (r: Result<(u8, u8), Error>)
        ensures
            old(self).kept(*final(self)),
            Self::is_version(*old(self), *final(self), addr, r),
    {
        let mut buf: Vec<u8> = Vec::new();
        buf.push(0);
        buf.push(0);
        let ghost was = buf@;
        let c: Result<(), Error> = self.read_eeprom(addr, buf.as_mut_slice());
        assert(old(self).exchanged(*self, eeprom_question(addr, 2), was, buf@, c));
        c?;
        assert(buf@ =~= seq![buf@[0], buf@[1]]);
        if buf[0] == 0xff && buf[1] == 0xff {
            return Err(Error::NoResponse);
        }
        Ok((buf[1], buf[0]))
    }

    /// Whether `r` is the version that was read at `addr`.
    pub open spec fn is_version(
        before: Self,
        after: Self,
        addr: u8,
        r: Result<(u8, u8), Error>,
    ) -> bool {
        let question = eeprom_question(addr, 2);
        let asked = before.bus().push(Frame::Sent(question));
        &&& exists|was: Seq<u8>, now: Seq<u8>, c: Result<(), Error>| #[trigger]
            before.exchanged(after, question, was, now, c) && was.len() == 2 && match c {
                Err(e) => fails(r, e),
                Ok(_) => if now == seq![0xffu8, 0xffu8] {
                    fails(r, Error::NoResponse)
                } else {
                    r == Ok::<(u8, u8), Error>((now[1], now[0]))
                },
            }
        &&& match r {
            Ok((major, minor)) => !(major == 0xff && minor == 0xff) && after.bus() == asked.push(
                Frame::Got(seq![minor, major]),
            ),
            Err(Error::NoResponse) => after.bus() == asked.push(Frame::Got(seq![0xffu8, 0xffu8])),
            Err(e) => after.faulted(e),
        }
    }

    /// (major, minor) of the product version.
    pub fn product_version(&mut self) -> (r: Result<(u8, u8), Error>)
        ensures
            old(self).kept(*final(self)),
            Self::is_version(*old(self), *final(self), eeprom::PRODUCT_VERSION, r),
    {
        self.version(eeprom::PRODUCT_VERSION)
    }

    /// (major, minor) of the firmware version.
    pub fn firmware_version(&mut self) -> (r: Result<(u8, u8), Error>)
        ensures
            old(self).kept(*final(self)),
            Self::is_version(*old(self), *final(self), eeprom::FIRMWARE_VERSION, r),
    {
        self.version(eeprom::FIRMWARE_VERSION)
    }

    /// (major, minor) of the EEPROM version.
    pub fn eeprom_version(&mut self) -> (r: Result<(u8, u8), Error>)
        ensures
            old(self).kept(*final(self)),
            Self::is_version(*old(self), *final(self), eeprom::EEPROM_VERSION, r),
    {
        self.version(eeprom::EEPROM_VERSION)
    }

    /// 16-byte die identifier, unique per chip.
    pub fn die_id(&mut self, buf: &mut [u8; 16]) -> (r: Result<(), Error>)
        ensures
            old(self).kept(*final(self)),
            old(self).exchanged(
                *final(self),
                eeprom_question(eeprom::DIE_IDENTIFIER, 16),
                old(buf)@,
                final(buf)@,
                r,
            ),
            ({
                let asked = old(self).bus().push(
                    Frame::Sent(eeprom_question(eeprom::DIE_IDENTIFIER, 16)),
                );
                match r {
                    Ok(_) => final(self).bus() == asked.push(Frame::Got(final(buf)@)),
                    Err(e) => final(self).faulted(e) && {
                        ||| final(self).bus() == old(self).bus() && final(buf)@ == old(buf)@
                        ||| final(self).bus() == old(self).bus().push(Frame::Lost) && final(buf)@
                            == old(buf)@
                        ||| final(self).bus() == asked && final(buf)@ == old(buf)@
                        ||| final(self).bus() == asked.push(Frame::Lost)
                        ||| final(self).bus() == asked.push(Frame::Got(final(buf)@))
                    },
                }
            }),
    {
        let mut got: Vec<u8> = Vec::new();
        let mut i: usize = 0;
        while i < 16
            invariant
                i <= 16,
                got@ == buf@.take(i as int),
            decreases 16 - i,
        {
            got.push(buf[i]);
            assert(got@ =~= buf@.take(i + 1));
            i += 1;
        }
        assert(got@ =~= buf@);
        let r: Result<(), Error> = self.read_eeprom(eeprom::DIE_IDENTIFIER, got.as_mut_slice());
        *buf = wire::to_array(&got);
        r
    }

    /// Select a protocol's transmitter and receiver configuration from EEPROM.
    pub fn load_rf_config(&mut self, tx: u8, rx: u8) -> (r: Result<(), Error>)
        ensures
            old(self).commanded(*final(self), seq![cmd::LOAD_RF_CONFIG, tx, rx], r),
    {
        let frame: [u8; 3] = [cmd::LOAD_RF_CONFIG, tx, rx];
        assert(frame@ =~= seq![cmd::LOAD_RF_CONFIG, tx, rx]);
        self.send(frame.as_slice())
    }

    /// Energise the antenna. Nothing before this point draws RF current.
    pub fn field_on(&mut self) -> (r: Result<(), Error>)
        ensures
            old(self).commanded(*final(self), seq![cmd::RF_ON, 0u8], r),
    {
        let frame: [u8; 2] = [cmd::RF_ON, 0x00];
        assert(frame@ =~= seq![cmd::RF_ON, 0u8]);
        self.send(frame.as_slice())
    }

    pub fn field_off(&mut self) -> (r: Result<(), Error>)
        ensures
            old(self).commanded(*final(self), seq![cmd::RF_OFF, 0u8], r),
    {
        let frame: [u8; 2] = [cmd::RF_OFF, 0x00];
        assert(frame@ =~= seq![cmd::RF_OFF, 0u8]);
        self.send(frame.as_slice())
    }

    /// Blocking delay, so callers can pace probes without owning a second delay source.
    pub fn delay_ms(&mut self, ms: u32)
        requires
            ms * 1_000 <= u32::MAX,
        ensures
            old(self).paused(*final(self), (ms * 1_000) as u32),
    {
        self.wait_us(ms * 1000);
    }

    /// Clear every interrupt status bit.
    pub fn clear_all_irqs(&mut self) -> (r: Result<(), Error>)
        ensures
            old(self).commanded(
                *final(self),
                register_frame(cmd::WRITE_REGISTER, reg::IRQ_CLEAR, ALL_IRQS),
                r,
            ),
    {
        self.write_register(reg::IRQ_CLEAR, ALL_IRQS)
    }

    /// Snapshot of the three registers worth seeing when RF is not working:
    /// `(RF_STATUS, IRQ_STATUS, RX_STATUS)`.
    pub fn rf_debug(&mut self) -> (r: Result<(u32, u32, u32), Error>)
        ensures
            old(self).kept(*final(self)),
            old(self).surveyed(*final(self), r),
            match r {
                Ok((rf, irq, rx)) => {
                    let end = final(self).bus().len();
                    let a = response_at(final(self).bus(), end - 5);
                    let b = response_at(final(self).bus(), end - 3);
                    let c = response_at(final(self).bus(), end - 1);
                    &&& rf == wire::le32(a, 0)
                    &&& irq == wire::le32(b, 0)
                    &&& rx == wire::le32(c, 0)
                    &&& final(self).bus() == old(self).bus().push(
                        Frame::Sent(seq![cmd::READ_REGISTER, reg::RF_STATUS]),
                    ).push(Frame::Got(a)).push(
                        Frame::Sent(seq![cmd::READ_REGISTER, reg::IRQ_STATUS]),
                    ).push(Frame::Got(b)).push(
                        Frame::Sent(seq![cmd::READ_REGISTER, reg::RX_STATUS]),
                    ).push(Frame::Got(c))
                },
                Err(e) => final(self).faulted(e),
            },
    {
        let a: Result<u32, Error> = self.read_register(reg::RF_STATUS);
        let ghost one = *self;
        assert(old(self).consulted(one, reg::RF_STATUS, a));
        let rf: u32 = a?;
        let b: Result<u32, Error> = self.read_register(reg::IRQ_STATUS);
        let ghost two = *self;
        assert(one.consulted(two, reg::IRQ_STATUS, b));
        let irq: u32 = b?;
        let c: Result<u32, Error> = self.read_register(reg::RX_STATUS);
        assert(two.consulted(*self, reg::RX_STATUS, c));
        let rx: u32 = c?;
        Ok((rf, irq, rx))
    }

    /// Ask the transceiver to return to Idle, and report whether it got there.
    pub fn settle_to_idle(&mut self) -> (r: Result<bool, Error>)
        ensures
            old(self).kept(*final(self)),
            old(self).returned_to_idle(*final(self), r),
            match r {
                Ok(idle) => settled(old(self).bus(), final(self).bus(), idle) && losses(
                    final(self).bus(),
                ) == losses(old(self).bus()),
                Err(e) => final(self).faulted(e),
            },
    {
        proof {
            reveal(Pn5180::returned_to_idle);
        }
        self.write_register_and_mask(reg::SYSTEM_CONFIG, 0xffff_fff8)?;
        self.poll_state(TS_IDLE)
    }

    /// Read the transceive state until it is `state`, up to 500 times.
    fn poll_state(&mut self, state: u32) -> (r: Result<bool, Error>)
        ensures
            old(self).kept(*final(self)),
            old(self).sought(*final(self), state, r),
            match r {
                Ok(reached) => polled(
                    final(self).bus(),
                    old(self).bus().len(),
                    state,
                    reached,
                ) && losses(final(self).bus()) == losses(old(self).bus()),
                Err(e) => final(self).faulted(e),
            },
    {
        let ghost before = *self;
        proof {
            reveal(Pn5180::sought);
            reveal_with_fuel(Pn5180::watched, 1);
        }
        let mut i: u32 = 0;
        while i < 500
            invariant
                i <= 500,
                before == *old(self),
                before.watched(*self, reg::RF_STATUS, 0x100_0000, 8, state as int, i as nat),
                before.kept(*self),
                losses(self.bus()) == losses(before.bus()),
                self.bus().len() == before.bus().len() + 2 * i,
                only_reads(self.bus(), before.bus().len(), reg::RF_STATUS),
                forall|j: int|
                    before.bus().len() <= j < self.bus().len() && self.bus()[j] is Got
                        ==> #[trigger] state_at(self.bus(), j) != state,
            decreases 500 - i,
        {
            let ghost mid = *self;
            let ghost so_far = self.bus();
            let v: Result<u32, Error> = self.read_register(reg::RF_STATUS);
            let ghost read = *self;
            proof {
                let r: Result<bool, Error> = match v {
                    Ok(_) => Ok(true),
                    Err(e) => Err(e),
                };
                if v is Err || v->Ok_0 as int / 0x100_0000 % 8 == state {
                    lemma_sought(before, mid, read, state, i as nat, v, r);
                }
            }
            let status: u32 = v?;
            assert(mid.consulted(read, reg::RF_STATUS, Ok(status)));
            assert(last_state(self.bus()) == status as int / 0x100_0000 % 8);
            assert forall|j: int|
                before.bus().len() <= j < self.bus().len() - 1 && self.bus()[j] is Got implies
            #[trigger] state_at(self.bus(), j) != state by {
                assert(self.bus()[j] == so_far[j]);
                assert(state_at(so_far, j) != state);
            }
            assert(self.bus().len() == so_far.len() + 2);
            if transceive_state(status) == state {
                return Ok(true);
            }
            self.wait_us(100);
            assert(before.watched(
                *self,
                reg::RF_STATUS,
                0x100_0000,
                8,
                state as int,
                (i + 1) as nat,
            )) by {
                reveal_with_fuel(Pn5180::watched, 1);
                assert(read.paused(*self, 100));
            }
            i += 1;
        }
        Ok(false)
    }

    /// One attempt at getting to WaitTransmit. `false` means it did not get there.
    pub fn try_arm(&mut self) -> (r: Result<bool, Error>)
        ensures
            old(self).kept(*final(self)),
            old(self).arming(*final(self), r),
            match r {
                Ok(ready) => {
                    &&& armed(old(self).bus(), final(self).bus(), ready)
                    &&& ready == (last_state(final(self).bus()) == TS_WAIT_TRANSMIT)
                    &&& losses(final(self).bus()) == losses(old(self).bus())
                },
                Err(e) => final(self).faulted(e),
            },
    {
        proof {
            reveal(Pn5180::arming);
        }
        let idle: bool = self.settle_to_idle()?;
        let ghost mid = self.bus();
        assert(settled(old(self).bus(), mid, idle));
        self.write_register_or_mask(reg::SYSTEM_CONFIG, 0x0000_0003)?;
        self.poll_state(TS_WAIT_TRANSMIT)
    }

    /// Switch the front end to a protocol, from a known state.
    ///
    /// Dropping the field and returning the command field to Idle first is what makes the
    /// switch survivable: reconfiguring with the field up wedges the state machine.
    pub fn begin_protocol(&mut self, tx: u8, rx: u8) -> (r: Result<(), Error>)
        ensures
            old(self).begun(*final(self), tx, rx, opening(tx, rx), r),
    {
        self.protocol = Some((tx, rx));
        let ghost start = *self;
        let ghost steps = opening(tx, rx);
        proof {
            lemma_start(start, steps);
        }
        let a: Result<(), Error> = self.write_register_and_mask(reg::SYSTEM_CONFIG, 0xffff_fff8);
        let ghost s1 = *self;
        proof {
            lemma_next(start, start, s1, steps, 0, a);
        }
        a?;
        let b: Result<(), Error> = self.field_off();
        let ghost s2 = *self;
        proof {
            lemma_next(start, s1, s2, steps, 1, b);
        }
        b?;
        self.wait_us(10_000);
        let ghost s3 = *self;
        proof {
            lemma_next(start, s2, s3, steps, 2, Ok(()));
        }
        let c: Result<(), Error> = self.load_rf_config(tx, rx);
        let ghost s4 = *self;
        proof {
            lemma_next(start, s3, s4, steps, 3, c);
        }
        c?;
        let d: Result<(), Error> = self.field_on();
        let ghost s5 = *self;
        proof {
            lemma_next(start, s4, s5, steps, 4, d);
        }
        d?;
        // Let the field ramp before anything tries to transmit into it.
        self.wait_us(10_000);
        proof {
            lemma_next(start, s5, *self, steps, 5, Ok(()));
        }
        Ok(())
    }

    /// Configure the RF front end for ISO 15693 and switch the field on.
    ///
    /// 0x0d / 0x8d are the ASK100 26 kbit/s transmitter and receiver profiles.
    pub fn begin_iso15693(&mut self) -> (r: Result<(), Error>)
        ensures
            old(self).begun(*final(self), 0x0d, 0x8d, opening(0x0d, 0x8d), r),
    {
        self.begin_protocol(0x0d, 0x8d)
    }

    /// Arm the transceiver, recovering the front end if it will not arm.
    ///
    /// Reaching Idle is not sufficient: after a poll that finds nothing, the machine settles to
    /// Idle and may refuse to advance to WaitTransmit until the field is cycled.
    pub fn begin_transceive(&mut self) -> (r: Result<(), Error>)
        requires
            old(self).recoveries < u32::MAX,
        ensures
            old(self).transceiving(*final(self), r),
            final(self).protocol == old(self).protocol,
            quiet(old(self).bus(), final(self).bus()),
            old(self).bus().is_prefix_of(final(self).bus()),
            final(self).recoveries == old(self).recoveries || (final(self).recoveries
                == old(self).recoveries + 1 && old(self).protocol is Some),
            match r {
                Ok(_) => last_state(final(self).bus()) == TS_WAIT_TRANSMIT && losses(
                    final(self).bus(),
                ) == losses(old(self).bus()),
                Err(Error::NotReadyToTransmit) => last_state(final(self).bus()) != TS_WAIT_TRANSMIT
                    && (final(self).recoveries == old(self).recoveries + 1
                    <==> old(self).protocol is Some),
                Err(e) => final(self).faulted(e),
            },
    {
        proof {
            reveal(Pn5180::transceiving);
        }
        if self.try_arm()? {
            return Ok(());
        }
        if let Some((tx, rx)) = self.protocol {
            self.recoveries = self.recoveries + 1;
            self.begin_protocol(tx, rx)?;
            if self.try_arm()? {
                return Ok(());
            }
        }
        Err(Error::NotReadyToTransmit)
    }

    /// Transmit a frame, with the count of valid bits in its final byte; 0 means all of them.
    /// `data` may be empty, which sends a bare EOF.
    pub fn send_data_bits(&mut self, data: &[u8], valid_bits: u8) -> (r: Result<(), Error>)
        requires
            data@.len() <= MAX_FRAME,
            old(self).recoveries < u32::MAX,
        ensures
            old(self).data_sent(*final(self), valid_bits, data@, r),
            final(self).protocol == old(self).protocol,
            old(self).recoveries <= final(self).recoveries <= old(self).recoveries + 1,
            heard(final(self).bus()) == heard(old(self).bus()),
            old(self).bus().is_prefix_of(final(self).bus()),
            match r {
                Ok(_) => {
                    &&& transmitted(final(self).bus()) == transmitted(old(self).bus()).push(
                        seq![valid_bits] + data@,
                    )
                    &&& final(self).bus().len() > old(self).bus().len()
                    &&& final(self).bus().last() == Frame::Sent(
                        seq![cmd::SEND_DATA, valid_bits] + data@,
                    )
                    &&& last_state(final(self).bus().drop_last()) == TS_WAIT_TRANSMIT
                    &&& losses(final(self).bus()) == losses(old(self).bus())
                },
                Err(e) => final(self).stuck(e),
            },
    {
        proof {
            reveal(Pn5180::data_sent);
        }
        let t: Result<(), Error> = self.begin_transceive();
        assert(old(self).transceiving(*self, t));
        t?;
        let mut frame: Vec<u8> = Vec::new();
        frame.push(cmd::SEND_DATA);
        frame.push(valid_bits);
        let mut i: usize = 0;
        while i < data.len()
            invariant
                i <= data.len(),
                frame@ == seq![cmd::SEND_DATA, valid_bits] + data@.take(i as int),
            decreases data.len() - i,
        {
            frame.push(data[i]);
            assert(frame@ =~= seq![cmd::SEND_DATA, valid_bits] + data@.take(i + 1));
            i += 1;
        }
        assert(frame@.skip(1) =~= seq![valid_bits] + data@);
        assert(frame@ =~= seq![cmd::SEND_DATA, valid_bits] + data@);
        let ghost ready = self.bus();
        assert(ready.push(Frame::Sent(frame@)).drop_last() =~= ready);
        self.send(frame.as_slice())
    }

    /// Transmit a frame of whole bytes.
    pub fn send_data(&mut self, data: &[u8]) -> (r: Result<(), Error>)
        requires
            data@.len() <= MAX_FRAME,
            old(self).recoveries < u32::MAX,
        ensures
            old(self).data_sent(*final(self), 0, data@, r),
            final(self).protocol == old(self).protocol,
            old(self).recoveries <= final(self).recoveries <= old(self).recoveries + 1,
            heard(final(self).bus()) == heard(old(self).bus()),
            old(self).bus().is_prefix_of(final(self).bus()),
            match r {
                Ok(_) => {
                    &&& transmitted(final(self).bus()) == transmitted(old(self).bus()).push(
                        seq![0u8] + data@,
                    )
                    &&& final(self).bus().len() > old(self).bus().len()
                    &&& final(self).bus().last() == Frame::Sent(
                        seq![cmd::SEND_DATA, 0u8] + data@,
                    )
                    &&& last_state(final(self).bus().drop_last()) == TS_WAIT_TRANSMIT
                    &&& losses(final(self).bus()) == losses(old(self).bus())
                },
                Err(e) => final(self).stuck(e),
            },
    {
        self.send_data_bits(data, 0)
    }

    /// How many bytes the receiver is holding: bits 8 to 0 of `RX_STATUS`.
    pub fn rx_len(&mut self) -> (r: Result<usize, Error>)
        ensures
            old(self).kept(*final(self)),
            exists|w: Result<u32, Error>| #[trigger]
                old(self).consulted(*final(self), reg::RX_STATUS, w) && match w {
                    Err(e) => fails(r, e),
                    Ok(w) => r == Ok::<usize, Error>((w % 512) as usize),
                },
            match r {
                Ok(n) => {
                    &&& n == wire::le32(response(final(self).bus()), 0) % 512
                    &&& losses(final(self).bus()) == losses(old(self).bus())
                    &&& final(self).bus() == old(self).bus().push(
                        Frame::Sent(seq![cmd::READ_REGISTER, reg::RX_STATUS]),
                    ).push(Frame::Got(response(final(self).bus())))
                },
                Err(e) => final(self).faulted(e),
            },
    {
        let w: Result<u32, Error> = self.read_register(reg::RX_STATUS);
        assert(old(self).consulted(*self, reg::RX_STATUS, w));
        Ok((w? % 512) as usize)
    }

    /// Wait for a frame, and return its length. `None` means nothing answered, which for an
    /// inventory slot is the ordinary case rather than an error.
    pub fn await_frame(&mut self, timeout_us: u32) -> (r: Result<Option<usize>, Error>)
        ensures
            old(self).kept(*final(self)),
            old(self).awaited(*final(self), timeout_us, r),
            r is Ok ==> losses(final(self).bus()) == losses(old(self).bus()),
            match r {
                Ok(Some(n)) => {
                    let end = final(self).bus().len();
                    &&& end >= old(self).bus().len() + 4
                    &&& only_reads(
                        final(self).bus().take(end - 2),
                        old(self).bus().len(),
                        reg::IRQ_STATUS,
                    )
                    &&& wire::le32(response_at(final(self).bus(), end - 3), 0) % 2 == 1
                    &&& final(self).bus()[end - 2] == Frame::Sent(
                        seq![cmd::READ_REGISTER, reg::RX_STATUS],
                    )
                    &&& n == wire::le32(response(final(self).bus()), 0) % 512
                },
                Ok(None) => {
                    &&& final(self).bus().len() == old(self).bus().len() + 2 * (timeout_us / 100)
                    &&& only_reads(
                        final(self).bus(),
                        old(self).bus().len(),
                        reg::IRQ_STATUS,
                    )
                    &&& forall|i: int|
                        old(self).bus().len() <= i < final(self).bus().len()
                            && final(self).bus()[i] is Got ==> wire::le32(
                            #[trigger] response_at(final(self).bus(), i),
                            0,
                        ) % 2 == 0
                },
                Err(e) => final(self).faulted(e),
            },
    {
        let ghost before = *self;
        let steps: u32 = timeout_us / 100;
        proof {
            reveal(Pn5180::awaited);
            reveal_with_fuel(Pn5180::watched, 1);
        }
        let mut i: u32 = 0;
        while i < steps
            invariant
                i <= steps,
                steps == timeout_us / 100,
                before == *old(self),
                before.watched(*self, reg::IRQ_STATUS, 1, 2, 1, i as nat),
                before.kept(*self),
                losses(self.bus()) == losses(before.bus()),
                self.bus().len() == before.bus().len() + 2 * i,
                only_reads(self.bus(), before.bus().len(), reg::IRQ_STATUS),
                forall|j: int|
                    before.bus().len() <= j < self.bus().len() && self.bus()[j] is Got
                        ==> wire::le32(#[trigger] response_at(self.bus(), j), 0) % 2 == 0,
            decreases steps - i,
        {
            // Bit 0 means that a frame has been received.
            let ghost mid = *self;
            let ghost so_far = self.bus();
            let v: Result<u32, Error> = self.read_register(reg::IRQ_STATUS);
            let ghost read = *self;
            proof {
                if v is Err {
                    let r: Result<Option<usize>, Error> = Err(v->Err_0);
                    lemma_awaited(before, mid, read, read, timeout_us, i as nat, v, r);
                }
            }
            let status: u32 = v?;
            assert forall|j: int| before.bus().len() <= j < so_far.len() implies response_at(
                so_far,
                j,
            ) == #[trigger] response_at(self.bus(), j) by {}
            let ghost polls = self.bus();
            if status % 2 != 0 {
                let n: Result<usize, Error> = self.rx_len();
                proof {
                    let r: Result<Option<usize>, Error> = match n {
                        Ok(n) => Ok(Some(n)),
                        Err(e) => Err(e),
                    };
                    lemma_awaited(before, mid, read, *self, timeout_us, i as nat, v, r);
                }
                let n: usize = n?;
                assert(self.bus().take(polls.len() as int) =~= polls);
                return Ok(Some(n));
            }
            self.wait_us(100);
            assert(before.watched(*self, reg::IRQ_STATUS, 1, 2, 1, (i + 1) as nat)) by {
                reveal_with_fuel(Pn5180::watched, 1);
                assert(read.paused(*self, 100));
            }
            i += 1;
        }
        Ok(None)
    }

    /// Fetch a received frame.
    pub fn read_data(&mut self, buf: &mut [u8]) -> (r: Result<(), Error>)
        ensures
            old(self).fetched(*final(self), old(buf)@, final(buf)@, r),
            r is Ok ==> losses(final(self).bus()) == losses(old(self).bus()),
            final(buf)@.len() == old(buf)@.len(),
            final(self).protocol == old(self).protocol,
            final(self).recoveries == old(self).recoveries,
            transmitted(final(self).bus()) == transmitted(old(self).bus()),
            old(self).bus().is_prefix_of(final(self).bus()),
            heard(old(self).bus()).is_prefix_of(heard(final(self).bus())),
            match r {
                Ok(_) => heard(final(self).bus()) == heard(old(self).bus()).push(final(buf)@),
                Err(e) => final(self).faulted(e),
            },
    {
        proof {
            reveal(Pn5180::exchanged);
        }
        let frame: [u8; 2] = [cmd::READ_DATA, 0x00];
        assert(frame@ =~= seq![cmd::READ_DATA, 0u8]);
        let c: Result<(), Error> = self.send(frame.as_slice());
        assert(old(self).sent(*self, seq![cmd::READ_DATA, 0u8], c));
        c?;
        self.recv(buf)
    }

    /// Fetch a received frame of `len` bytes.
    fn fetch(&mut self, len: usize) -> (r: Result<Vec<u8>, Error>)
        ensures
            exists|was: Seq<u8>, now: Seq<u8>, f: Result<(), Error>| #[trigger]
                old(self).fetched(*final(self), was, now, f) && was.len() == len && match f {
                    Err(e) => fails(r, e),
                    Ok(_) => r is Ok && r->Ok_0@ == now,
                },
            r is Ok ==> losses(final(self).bus()) == losses(old(self).bus()),
            final(self).protocol == old(self).protocol,
            final(self).recoveries == old(self).recoveries,
            transmitted(final(self).bus()) == transmitted(old(self).bus()),
            old(self).bus().is_prefix_of(final(self).bus()),
            heard(old(self).bus()).is_prefix_of(heard(final(self).bus())),
            match r {
                Ok(b) => b@.len() == len && heard(final(self).bus()) == heard(
                    old(self).bus(),
                ).push(b@),
                Err(e) => final(self).faulted(e),
            },
    {
        let mut buf: Vec<u8> = Vec::new();
        let mut i: usize = 0;
        while i < len
            invariant
                i <= len,
                buf@.len() == i,
            decreases len - i,
        {
            buf.push(0);
            i += 1;
        }
        let ghost was = buf@;
        let f: Result<(), Error> = self.read_data(buf.as_mut_slice());
        assert(old(self).fetched(*self, was, buf@, f));
        f?;
        Ok(buf)
    }

    /// Clear the interrupts, send a frame, and wait for an answer.
    fn call(&mut self, data: &[u8], valid_bits: u8) -> (r: Result<Option<usize>, Error>)
        requires
            data@.len() <= MAX_FRAME,
            old(self).recoveries < u32::MAX,
        ensures
            old(self).called(*final(self), valid_bits, data@, r),
            r is Ok ==> losses(final(self).bus()) == losses(old(self).bus()),
            final(self).protocol == old(self).protocol,
            old(self).recoveries <= final(self).recoveries <= old(self).recoveries + 1,
            heard(final(self).bus()) == heard(old(self).bus()),
            match r {
                Ok(_) => transmitted(final(self).bus()) == transmitted(old(self).bus()).push(
                    seq![valid_bits] + data@,
                ),
                Err(e) => final(self).stuck(e),
            },
    {
        proof {
            reveal(Pn5180::called);
        }
        let c: Result<(), Error> = self.clear_all_irqs();
        let ghost clear = *self;
        assert(old(self).commanded(clear, irqs_cleared(), c));
        c?;
        let s: Result<(), Error> = self.send_data_bits(data, valid_bits);
        assert(clear.data_sent(*self, valid_bits, data@, s));
        s?;
        self.await_frame(20_000)
    }

    /// One single-slot inventory, returning the raw response length and bytes.
    ///
    /// One slot, no EOF stepping, no parsing: it separates "no tag is answering" from "the
    /// anticollision round is wrong".
    pub fn inventory_single_raw(&mut self, buf: &mut [u8], data_rate_high: bool) -> (r: Result<
        usize,
        Error,
    >)
        requires
            old(self).recoveries < u32::MAX,
        ensures
            old(self).took_one(*final(self), data_rate_high, old(buf)@, final(buf)@, r),
            r is Ok ==> losses(final(self).bus()) == losses(old(self).bus()),
            final(self).protocol == old(self).protocol,
            old(self).recoveries <= final(self).recoveries <= old(self).recoveries + 1,
            final(buf)@.len() == old(buf)@.len(),
            match r {
                Ok(n) => {
                    &&& transmitted(final(self).bus()) == transmitted(old(self).bus()).push(
                        seq![
                            0u8,
                            if data_rate_high {
                                0x26u8
                            } else {
                                0x24u8
                            },
                            0x01u8,
                            0x00u8,
                        ],
                    )
                    &&& n <= old(buf)@.len()
                    &&& n == 0 ==> heard(final(self).bus()) == heard(old(self).bus())
                        && final(buf)@ == old(buf)@
                    &&& n > 0 ==> heard(final(self).bus()) == heard(old(self).bus()).push(
                        final(buf)@.take(n as int),
                    ) && final(buf)@.skip(n as int) == old(buf)@.skip(n as int)
                },
                Err(e) => final(self).stuck(e),
            },
    {
        proof {
            reveal(Pn5180::took_one);
        }
        let flags: u8 = if data_rate_high {
            0x26
        } else {
            0x24
        };
        let request: [u8; 3] = [flags, 0x01, 0x00];
        assert(request@ =~= single_slot_request(data_rate_high));
        assert(seq![0u8] + request@ =~= seq![0u8, flags, 0x01u8, 0x00u8]);
        let a: Result<Option<usize>, Error> = self.call(request.as_slice(), 0);
        let ghost mid = *self;
        assert(old(self).called(mid, 0, request@, a));
        match a? {
            None => Ok(0),
            Some(len) => {
                let len: usize = if len < buf.len() {
                    len
                } else {
                    buf.len()
                };
                assert(fitting(a->Ok_0, old(buf)@.len()) == len);
                if len == 0 {
                    return Ok(0);
                }
                let mut part: Vec<u8> = Vec::new();
                let mut i: usize = 0;
                while i < len
                    invariant
                        i <= len <= buf@.len(),
                        part@ == buf@.take(i as int),
                    decreases len - i,
                {
                    part.push(buf[i]);
                    assert(part@ =~= buf@.take(i + 1));
                    i += 1;
                }
                let f: Result<(), Error> = self.read_data(part.as_mut_slice());
                let mut k: usize = 0;
                while k < len
                    invariant
                        k <= len <= buf@.len(),
                        part@.len() == len,
                        buf@.len() == old(buf)@.len(),
                        forall|j: int| 0 <= j < k ==> #[trigger] buf@[j] == part@[j],
                        forall|j: int| k <= j < buf@.len() ==> #[trigger] buf@[j] == old(buf)@[j],
                    decreases len - k,
                {
                    buf[k] = part[k];
                    k += 1;
                }
                assert(buf@.take(len as int) =~= part@);
                assert(buf@.skip(len as int) =~= old(buf)@.skip(len as int));
                assert(mid.fetched(*self, old(buf)@.take(len as int), buf@.take(len as int), f));
                f?;
                Ok(len)
            },
        }
    }

    /// Configure the front end for ISO 14443A and switch the field on. Its short frames carry
    /// no CRC in either direction.
    pub fn begin_iso14443a(&mut self) -> (r: Result<(), Error>)
        ensures
            old(self).begun(*final(self), 0x00, 0x80, opening_for_cards(), r),
    {
        let ghost steps = opening_for_cards();
        let ghost start = Pn5180 { protocol: Some((0x00u8, 0x80u8)), ..*self };
        let o: Result<(), Error> = self.begin_protocol(0x00, 0x80);
        let ghost s6 = *self;
        proof {
            assert(steps.take(6) =~= opening(0x00, 0x80));
            assert(start.followed(s6, steps.take(6), o));
            if o is Err {
                lemma_rest_is_skipped(start, s6, steps, 6, o);
            } else {
                reveal(Pn5180::followed);
            }
        }
        o?;
        let a: Result<(), Error> = self.write_register_and_mask(reg::CRC_TX_CONFIG, 0xffff_fffe);
        let ghost s7 = *self;
        proof {
            lemma_next(start, s6, s7, steps, 6, a);
        }
        a?;
        let b: Result<(), Error> = self.write_register_and_mask(reg::CRC_RX_CONFIG, 0xffff_fffe);
        proof {
            lemma_next(start, s7, *self, steps, 7, b);
        }
        b
    }

    /// `REQA` (0x26) or `WUPA` (0x52), returning the card's ATQA. These are short frames of
    /// seven bits.
    pub fn reqa_or_wupa(&mut self, request: u8) -> (r: Result<Option<[u8; 2]>, Error>)
        requires
            old(self).recoveries < u32::MAX,
        ensures
            old(self).requested(*final(self), request, r),
            r is Ok ==> losses(final(self).bus()) == losses(old(self).bus()),
            final(self).protocol == old(self).protocol,
            old(self).recoveries <= final(self).recoveries <= old(self).recoveries + 1,
            heard(old(self).bus()).is_prefix_of(heard(final(self).bus())),
            match r {
                Ok(answer) => {
                    &&& transmitted(final(self).bus()) == transmitted(old(self).bus()).push(
                        seq![7u8, request],
                    )
                    &&& answer is None ==> heard(final(self).bus()) == heard(old(self).bus())
                    &&& answer is Some ==> heard(final(self).bus()) == heard(
                        old(self).bus(),
                    ).push(answer->0@)
                },
                Err(e) => final(self).stuck(e),
            },
    {
        proof {
            reveal(Pn5180::requested);
        }
        let frame: [u8; 1] = [request];
        assert(frame@ =~= seq![request]);
        assert(seq![7u8] + frame@ =~= seq![7u8, request]);
        let a: Result<Option<usize>, Error> = self.call(frame.as_slice(), 7);
        assert(old(self).called(*self, 7, short_frame(request), a));
        match a? {
            Some(len) => {
                if len >= 2 {
                    let got: Vec<u8> = self.fetch(2)?;
                    Ok(Some(wire::to_array(&got)))
                } else {
                    Ok(None)
                }
            },
            None => Ok(None),
        }
    }

    /// Send an ISO 14443A `REQA` and return the card's ATQA.
    ///
    /// A card answering proves the antenna radiates and the receive path works, which separates
    /// "the reader is broken" from "that tag speaks a different protocol".
    pub fn probe_iso14443a(&mut self) -> (r: Result<Option<[u8; 2]>, Error>)
        requires
            old(self).recoveries < u32::MAX,
        ensures
            exists|mid: Self, b: Result<(), Error>| #[trigger]
                old(self).begun(mid, 0x00, 0x80, opening_for_cards(), b) && match b {
                    Err(e) => *final(self) == mid && fails(r, e),
                    Ok(_) => mid.requested(*final(self), 0x26, r),
                },
            final(self).protocol == Some((0x00u8, 0x80u8)),
            old(self).recoveries <= final(self).recoveries <= old(self).recoveries + 1,
            match r {
                Ok(answer) => {
                    &&& transmitted(final(self).bus()) == transmitted(old(self).bus()).push(
                        seq![7u8, 0x26u8],
                    )
                    &&& answer is None ==> heard(final(self).bus()) == heard(old(self).bus())
                    &&& answer is Some ==> heard(final(self).bus()) == heard(
                        old(self).bus(),
                    ).push(answer->0@)
                },
                Err(e) => final(self).stuck(e),
            },
    {
        let b: Result<(), Error> = self.begin_iso14443a();
        assert(old(self).begun(*self, 0x00, 0x80, opening_for_cards(), b));
        b?;
        self.reqa_or_wupa(0x26)
    }

    /// What polling for a card does: the front end is switched over, and up to
    /// [`CARD_ATTEMPTS`] requests go out. A card is the last thing heard, in answer to the
    /// anticollision command; no card means that every request went out and nothing heard since
    /// identifies one. Either way no transfer failed.
    pub open spec fn card_polled(
        before: Self,
        after: Self,
        r: Result<Option<CardUid>, Error>,
    ) -> bool {
        let asked = requests(transmitted(before.bus()));
        let heard_before = heard(before.bus());
        let heard_after = heard(after.bus());
        &&& after.protocol == Some((0x00u8, 0x80u8))
        &&& before.recoveries <= after.recoveries <= before.recoveries + 6
        &&& exists|ready: Self, b: Result<(), Error>| #[trigger]
            before.begun(ready, 0x00, 0x80, opening_for_cards(), b) && match b {
                Err(e) => after == ready && fails(r, e),
                Ok(_) => exists|last: Self, n: nat| #[trigger]
                    ready.missed(last, n) && n <= CARD_ATTEMPTS && if n == CARD_ATTEMPTS {
                        after == last && r == Ok::<Option<CardUid>, Error>(None)
                    } else {
                        last.attempted(after, r) && r != Ok::<Option<CardUid>, Error>(None)
                    },
            }
        &&& r is Ok ==> losses(after.bus()) == losses(before.bus())
        &&& match r {
            Ok(Some(uid)) => {
                &&& heard_after.len() > heard_before.len()
                &&& pn5180::identifies_card(heard_after.last(), Some(uid))
                &&& transmitted(after.bus()).last() == seq![0u8, 0x93u8, 0x20u8]
                &&& asked < requests(transmitted(after.bus())) <= asked + CARD_ATTEMPTS
            },
            Ok(None) => {
                &&& requests(transmitted(after.bus())) == asked + CARD_ATTEMPTS
                &&& forall|k: int|
                    heard_before.len() <= k < heard_after.len() ==> !pn5180::is_anticollision(
                        #[trigger] heard_after[k],
                    )
            },
            Err(e) => after.stuck(e),
        }
    }

    /// One attempt at identifying a card.
    fn attempt(&mut self) -> (r: Result<Option<CardUid>, Error>)
        requires
            old(self).recoveries + 2 <= u32::MAX,
        ensures
            old(self).attempted(*final(self), r),
            r is Ok ==> losses(final(self).bus()) == losses(old(self).bus()),
            final(self).protocol == old(self).protocol,
            old(self).recoveries <= final(self).recoveries <= old(self).recoveries + 2,
            heard(old(self).bus()).is_prefix_of(heard(final(self).bus())),
            match r {
                Ok(found) => {
                    &&& requests(transmitted(final(self).bus())) == requests(
                        transmitted(old(self).bus()),
                    ) + 1
                    &&& found is Some ==> heard(final(self).bus()).len() > heard(
                        old(self).bus(),
                    ).len() && pn5180::identifies_card(heard(final(self).bus()).last(), found)
                        && transmitted(final(self).bus()).last() == seq![0u8, 0x93u8, 0x20u8]
                    &&& found is None ==> forall|k: int|
                        heard(old(self).bus()).len() <= k < heard(final(self).bus()).len()
                            ==> !pn5180::is_anticollision(#[trigger] heard(final(self).bus())[k])
                },
                Err(e) => final(self).stuck(e),
            },
    {
        proof {
            reveal(Pn5180::attempted);
            lemma_requests_push(transmitted(self.bus()), seq![7u8, 0x26u8]);
        }
        let a: Result<Option<[u8; 2]>, Error> = self.reqa_or_wupa(0x26);
        let ghost here = *self;
        assert(old(self).requested(here, 0x26, a));
        if a?.is_none() {
            return Ok(None);
        }
        // ANTICOLLISION, cascade level 1: no CRC, whole bytes.
        let level: [u8; 2] = [0x93, 0x20];
        assert(level@ =~= seq![0x93u8, 0x20u8]);
        assert(seq![0u8] + level@ =~= seq![0u8, 0x93u8, 0x20u8]);
        proof {
            lemma_requests_push(transmitted(self.bus()), seq![0u8, 0x93u8, 0x20u8]);
            assert(seq![0u8, 0x93u8, 0x20u8].len() != seq![7u8, 0x26u8].len());
        }
        let n: Result<Option<usize>, Error> = self.call(level.as_slice(), 0);
        assert(here.called(*self, 0, first_level(), n));
        match n? {
            Some(len) => {
                if len >= 5 {
                    let buf: Vec<u8> = self.fetch(5)?;
                    Ok(pn5180::parse_anticollision(buf.as_slice()))
                } else {
                    Ok(None)
                }
            },
            None => Ok(None),
        }
    }

    /// Identify a single ISO 14443A card: `REQA`, then one anticollision level.
    ///
    /// Several attempts before concluding the card is gone: the field is cycled once per poll,
    /// so a card sitting perfectly still has to power up from cold every time. Two cards in the
    /// field collide and read as nothing: no identity rather than a wrong one.
    pub fn iso14443a_uid(&mut self) -> (r: Result<Option<CardUid>, Error>)
        requires
            old(self).recoveries + 6 <= u32::MAX,
        ensures
            Self::card_polled(*old(self), *final(self), r),
    {
        let ghost h0 = heard(self.bus());
        let ghost r0 = requests(transmitted(self.bus()));
        let ghost count = self.recoveries;
        let b: Result<(), Error> = self.begin_iso14443a();
        let ghost ready = *self;
        assert(old(self).begun(ready, 0x00, 0x80, opening_for_cards(), b));
        b?;
        proof {
            reveal_with_fuel(Pn5180::missed, 1);
        }
        let mut tried: u32 = 0;
        while tried < CARD_ATTEMPTS
            invariant
                tried <= CARD_ATTEMPTS,
                old(self).begun(ready, 0x00, 0x80, opening_for_cards(), b),
                b is Ok,
                ready.missed(*self, tried as nat),
                losses(self.bus()) == losses(old(self).bus()),
                h0 == heard(old(self).bus()),
                r0 == requests(transmitted(old(self).bus())),
                count == old(self).recoveries,
                self.protocol == Some((0x00u8, 0x80u8)),
                count + 6 <= u32::MAX,
                count <= self.recoveries <= count + 2 * tried,
                h0.is_prefix_of(heard(self.bus())),
                requests(transmitted(self.bus())) == r0 + tried,
                forall|k: int|
                    h0.len() <= k < heard(self.bus()).len() ==> !pn5180::is_anticollision(
                        #[trigger] heard(self.bus())[k],
                    ),
            decreases CARD_ATTEMPTS - tried,
        {
            let ghost last = *self;
            let r: Result<Option<CardUid>, Error> = self.attempt();
            match r {
                Ok(None) => {
                    assert(last.attempted(*self, Ok(None)));
                    assert(ready.missed(*self, (tried + 1) as nat)) by {
                        reveal_with_fuel(Pn5180::missed, 1);
                    }
                    proof {
                        assert forall|k: int| h0.len() <= k < heard(self.bus()).len() implies
                            !pn5180::is_anticollision(#[trigger] heard(self.bus())[k]) by {
                            if k < heard(last.bus()).len() {
                                assert(heard(last.bus())[k] == heard(self.bus())[k]);
                            }
                        }
                    }
                },
                _ => {
                    return r;
                },
            }
            tried += 1;
        }
        Ok(None)
    }

    /// Find every tag in the field, with anticollision.
    ///
    /// The single-slot alternative reads nothing with two tags present: they collide and
    /// neither answers.
    pub fn inventory(&mut self, out: &mut [Uid]) -> (r: Result<usize, Error>)
        requires
            old(self).recoveries + 16 <= u32::MAX,
        ensures
            Self::inventoried(*old(self), *final(self), old(out)@, final(out)@, r),
    {
        self.inventory_16slot(out)
    }

    /// Whether all sixteen slots were gone through: one inventory request and a bare EOF for each
    /// further slot went out, between two loads of the transmitter configuration.
    pub open spec fn swept(before: Self, after: Self) -> bool {
        let answers = heard(after.bus()).skip(heard(before.bus()).len() as int);
        let load = Frame::Sent(seq![cmd::LOAD_RF_CONFIG, 0x0du8, 0x8du8]);
        &&& transmitted(after.bus()) == stepped(
            transmitted(before.bus()).push(seq![0u8, 0x06u8, 0x01u8, 0x00u8]),
            15,
        )
        &&& after.bus().len() > before.bus().len()
        &&& after.bus()[before.bus().len() as int] == load
        &&& after.bus().last() == load
        &&& exists|open: Self, done: Self|
            {
                &&& #[trigger] before.inventory_opened(open, Ok(()))
                &&& #[trigger] open.gone_through(done, 16, answers)
                &&& done.commanded(after, tags_configured(), Ok(()))
            }
    }

    /// Whether the tags of a round that was opened did not fit: some slots were gone through, and
    /// the frame fetched in the next one identifies one tag more than there is room for.
    pub open spec fn overran(before: Self, after: Self, room: nat) -> bool {
        let answers = heard(after.bus()).skip(heard(before.bus()).len() as int);
        &&& distinct_tags(answers).len() > room
        &&& answers.len() > 0
        &&& exists|open: Self, mid: Self, n: nat|
            {
                &&& #[trigger] before.inventory_opened(open, Ok(()))
                &&& #[trigger] open.gone_through(mid, n, answers.drop_last())
                &&& n < 16
                &&& mid.slot_heard(after, Ok(Some(answers.last())))
            }
    }

    /// Whether a round broke off with an error: while it was opened, while a slot was listened to
    /// or the next one stepped to, or at the end.
    pub open spec fn broke_off(before: Self, after: Self, e: Error) -> bool {
        ||| before.inventory_opened(after, Err(e))
        ||| exists|open: Self, mid: Self, n: nat, answers: Seq<Seq<u8>>|
            {
                &&& #[trigger] before.inventory_opened(open, Ok(()))
                &&& #[trigger] open.gone_through(mid, n, answers)
                &&& mid.fell_short(after, n, e)
            }
    }

    /// Whether what follows `n` slots failed.
    pub open spec fn fell_short(self, after: Self, n: nat, e: Error) -> bool {
        if n >= 16 {
            self.commanded(after, tags_configured(), Err(e))
        } else {
            ||| self.slot_heard(after, Err(e))
            ||| exists|at: Self, answer: Option<Seq<u8>>| #[trigger]
                self.slot_heard(at, Ok(answer)) && n < 15 && at.slot_stepped(after, Err(e))
        }
    }

    /// What an inventory round does: one request and a bare EOF for each further slot go out;
    /// the tags that answered in between are collected, each once. More of them than there is
    /// room for is an error.
    pub open spec fn inventoried(
        before: Self,
        after: Self,
        out: Seq<Uid>,
        filled: Seq<Uid>,
        r: Result<usize, Error>,
    ) -> bool {
        let answers = heard(after.bus()).skip(heard(before.bus()).len() as int);
        &&& after.protocol == before.protocol
        &&& before.recoveries <= after.recoveries <= before.recoveries + 16
        &&& heard(before.bus()).is_prefix_of(heard(after.bus()))
        &&& filled.len() == out.len()
        &&& match r {
            Ok(n) => {
                &&& Self::swept(before, after)
                &&& losses(after.bus()) == losses(before.bus())
                &&& n <= out.len()
                &&& filled.take(n as int) == distinct_tags(answers)
                &&& filled.skip(n as int) == out.skip(n as int)
            },
            Err(Error::Overflow) => Self::overran(before, after, out.len()),
            Err(e) => after.stuck(e) && Self::broke_off(before, after, e),
        }
    }

    /// Listen to a slot.
    fn hear_slot(&mut self) -> (r: Result<Option<Vec<u8>>, Error>)
        ensures
            old(self).slot_heard(
                *final(self),
                match r {
                    Ok(b) => Ok(bytes_of(b)),
                    Err(e) => Err(e),
                },
            ),
            final(self).protocol == old(self).protocol,
            final(self).recoveries == old(self).recoveries,
            transmitted(final(self).bus()) == transmitted(old(self).bus()),
            old(self).bus().is_prefix_of(final(self).bus()),
            heard(old(self).bus()).is_prefix_of(heard(final(self).bus())),
            r is Ok ==> losses(final(self).bus()) == losses(old(self).bus()),
            match r {
                Ok(Some(b)) => heard(final(self).bus()) == heard(old(self).bus()).push(b@),
                Ok(None) => heard(final(self).bus()) == heard(old(self).bus()),
                Err(e) => final(self).faulted(e),
            },
    {
        proof {
            reveal(Pn5180::slot_heard);
        }
        // A tag replies within about 4 ms at 26 kbit/s; 10 ms is slack for one at the edge of the
        // field.
        let a: Result<Option<usize>, Error> = self.await_frame(10_000);
        let ghost mid = *self;
        assert(old(self).awaited(mid, 10_000, a));
        match a? {
            Some(len) => {
                if 10 <= len && len <= MAX_FRAME {
                    Ok(Some(self.fetch(len)?))
                } else {
                    Ok(None)
                }
            },
            None => Ok(None),
        }
    }

    /// Step to the next slot with a bare EOF.
    fn step_slot(&mut self) -> (r: Result<(), Error>)
        requires
            old(self).recoveries < u32::MAX,
        ensures
            old(self).slot_stepped(*final(self), r),
            r is Ok ==> losses(final(self).bus()) == losses(old(self).bus()),
            final(self).protocol == old(self).protocol,
            old(self).recoveries <= final(self).recoveries <= old(self).recoveries + 1,
            heard(final(self).bus()) == heard(old(self).bus()),
            old(self).bus().is_prefix_of(final(self).bus()),
            match r {
                Ok(_) => transmitted(final(self).bus()) == transmitted(old(self).bus()).push(
                    seq![0u8],
                ),
                Err(e) => final(self).stuck(e),
            },
    {
        proof {
            reveal(Pn5180::slot_stepped);
        }
        let a: Result<(), Error> = self.write_register_and_mask(reg::TX_CONFIG, TX_CONFIG_EOF_ONLY);
        let ghost eof = *self;
        assert(old(self).commanded(eof, eof_only(), a));
        a?;
        let b: Result<(), Error> = self.clear_all_irqs();
        assert(eof.commanded(*self, irqs_cleared(), b));
        b?;
        let nothing: [u8; 0] = [];
        assert(nothing@ =~= Seq::<u8>::empty());
        assert(seq![0u8] + nothing@ =~= seq![0u8]);
        self.send_data(nothing.as_slice())
    }

    /// Open an inventory round of sixteen slots.
    fn open_inventory(&mut self) -> (r: Result<(), Error>)
        requires
            old(self).recoveries < u32::MAX,
        ensures
            old(self).inventory_opened(*final(self), r),
            r is Ok ==> losses(final(self).bus()) == losses(old(self).bus()),
            final(self).protocol == old(self).protocol,
            old(self).recoveries <= final(self).recoveries <= old(self).recoveries + 1,
            heard(final(self).bus()) == heard(old(self).bus()),
            match r {
                Ok(_) => {
                    &&& transmitted(final(self).bus()) == transmitted(old(self).bus()).push(
                        seq![0u8, 0x06u8, 0x01u8, 0x00u8],
                    )
                    &&& old(self).bus().push(
                        Frame::Sent(seq![cmd::LOAD_RF_CONFIG, 0x0du8, 0x8du8]),
                    ).is_prefix_of(final(self).bus())
                },
                Err(e) => final(self).stuck(e),
            },
    {
        proof {
            reveal(Pn5180::inventory_opened);
        }
        // Start from a known transmitter configuration: a previous round leaves it in EOF-only
        // mode, and a data frame sent in that state goes out as nothing.
        let a: Result<(), Error> = self.load_rf_config(0x0d, 0x8d);
        let ghost loaded = *self;
        assert(old(self).commanded(loaded, tags_configured(), a));
        a?;
        let b: Result<(), Error> = self.clear_all_irqs();
        assert(loaded.commanded(*self, irqs_cleared(), b));
        b?;
        let request: [u8; 3] = [0x06, 0x01, 0x00];
        assert(request@ =~= slots_request());
        assert(seq![0u8] + request@ =~= seq![0u8, 0x06u8, 0x01u8, 0x00u8]);
        self.send_data(request.as_slice())
    }

    /// Run one 16-slot inventory round, collecting every tag that answers.
    ///
    /// Sixteen slots rather than one is the reason a single reader can serve both devices.
    /// Slots that stay silent, or that collide, are skipped rather than retried: the caller
    /// polls again in a second. Returns the number of identifiers written to `out`.
    pub fn inventory_16slot(&mut self, out: &mut [Uid]) -> (r: Result<usize, Error>)
        requires
            old(self).recoveries + 16 <= u32::MAX,
        ensures
            Self::inventoried(*old(self), *final(self), old(out)@, final(out)@, r),
    {
        let ghost before = *self;
        let ghost h0 = heard(self.bus());
        let ghost opening = transmitted(self.bus()).push(seq![0u8, 0x06u8, 0x01u8, 0x00u8]);
        let ghost loaded = self.bus().push(Frame::Sent(seq![cmd::LOAD_RF_CONFIG, 0x0du8, 0x8du8]));
        let o: Result<(), Error> = self.open_inventory();
        let ghost open = *self;
        o?;
        proof {
            assert(o->Ok_0 == ());
            assert(o == Ok::<(), Error>(()));
        }

        let mut found: usize = 0;
        let ghost mut answers: Seq<Seq<u8>> = Seq::empty();
        assert(h0 + answers =~= h0);
        assert(out@.take(0) =~= distinct_tags(answers));
        proof {
            reveal_with_fuel(Pn5180::gone_through, 1);
        }
        let mut slot: u32 = 0;
        while slot < 16
            invariant
                slot <= 16,
                found <= out@.len(),
                out@.len() == old(out)@.len(),
                before.recoveries + 16 <= u32::MAX,
                before == *old(self),
                before.inventory_opened(open, Ok(())),
                open.gone_through(*self, slot as nat, answers),
                losses(self.bus()) == losses(before.bus()),
                h0 == heard(before.bus()),
                self.protocol == before.protocol,
                before.recoveries <= self.recoveries <= before.recoveries + 1 + slot,
                slot == 16 ==> self.recoveries <= before.recoveries + 16,
                loaded == before.bus().push(
                    Frame::Sent(seq![cmd::LOAD_RF_CONFIG, 0x0du8, 0x8du8]),
                ),
                loaded.is_prefix_of(self.bus()),
                heard(self.bus()) == h0 + answers,
                transmitted(self.bus()) == stepped(
                    opening,
                    if slot < 16 {
                        slot as nat
                    } else {
                        15
                    },
                ),
                out@.take(found as int) == distinct_tags(answers),
                out@.skip(found as int) == old(out)@.skip(found as int),
            decreases 16 - slot,
        {
            let ghost mid = *self;
            let ghost earlier = answers;
            let h: Result<Option<Vec<u8>>, Error> = self.hear_slot();
            let ghost at = *self;
            proof {
                if h is Err {
                    assert(mid.slot_heard(at, Err(h->Err_0)));
                    assert(mid.fell_short(at, slot as nat, h->Err_0));
                }
            }
            let heard_now: Option<Vec<u8>> = h?;
            assert(mid.slot_heard(at, Ok(bytes_of(heard_now))));
            if let Some(buf) = heard_now {
                proof {
                    answers = answers.push(buf@);
                    assert(h0 + earlier.push(buf@) =~= (h0 + earlier).push(buf@));
                    assert(answers.drop_last() =~= earlier);
                }
                let parsed: Option<Uid> = pn5180::parse_inventory_response(buf.as_slice());
                proof {
                    lemma_tag_of(buf@, parsed);
                }
                if let Some(uid) = parsed {
                    // A tag can answer more than once if the field flickers, and a duplicate
                    // would look like a third device.
                    let known: &[Uid] = vstd::slice::slice_subrange(&*out, 0, found);
                    assert(known@ =~= out@.take(found as int));
                    if !pn5180::holds_tag(known, &uid) {
                        if found == out.len() {
                            assert(heard(self.bus()).skip(h0.len() as int) =~= answers);
                            assert(open.gone_through(mid, slot as nat, answers.drop_last()));
                            return Err(Error::Overflow);
                        }
                        let ghost had = out@;
                        out[found] = uid;
                        found += 1;
                        assert(out@.take(found as int) =~= had.take(found - 1).push(uid));
                        assert(out@.skip(found as int) =~= had.skip(found - 1).skip(1));
                        assert(old(out)@.skip(found as int) =~= old(out)@.skip(found - 1).skip(1));
                    }
                }
            }
            // Not needed after the last slot.
            if slot < 15 {
                let n: Result<(), Error> = self.step_slot();
                proof {
                    if n is Err {
                        assert(at.slot_stepped(*self, Err(n->Err_0)));
                        assert(mid.fell_short(*self, slot as nat, n->Err_0));
                    } else {
                        assert(n->Ok_0 == ());
                        assert(n == Ok::<(), Error>(()));
                    }
                }
                n?;
            }
            assert(open.gone_through(*self, (slot + 1) as nat, answers)) by {
                reveal_with_fuel(Pn5180::gone_through, 1);
                assert(open.gone_through(mid, slot as nat, earlier));
            }
            slot += 1;
        }
        let ghost done = *self;
        // Leave the transmitter able to send data again.
        let last: Result<(), Error> = self.load_rf_config(0x0d, 0x8d);
        proof {
            if last is Err {
                assert(done.commanded(*self, tags_configured(), Err(last->Err_0)));
                assert(done.fell_short(*self, 16, last->Err_0));
            }
        }
        last?;
        proof {
            assert(last->Ok_0 == ());
            assert(last == Ok::<(), Error>(()));
            assert(done.commanded(*self, tags_configured(), Ok(())));
        }
        assert(heard(self.bus()).skip(h0.len() as int) =~= answers);
        assert(self.bus()[before.bus().len() as int] == loaded.last());
        assert(open.gone_through(done, 16, answers));
        Ok(found)
    }
}

/// What BUSY showed while it was waited for to be low, from the wait's first poll on.
proof fn lemma_idled<S: SpiBus, B: BusyPin, D: Delay>(
    a: Pn5180<S, B, D>,
    b: Pn5180<S, B, D>,
    r: Result<(), Error>,
)
    requires
        a.idled(b, r),
        a.busy is Some,
    ensures
        a.polls().is_prefix_of(b.polls()),
        a.polls().len() < b.polls().len(),
        b.bus() == a.bus(),
        b.busy is Some,
        r is Ok ==> b.polls().last() == Poll::Low(Some(true)),
        b.polls()[a.polls().len() as int] == Poll::Low(None) ==> r == Err::<(), Error>(Error::Pin),
        (forall|i: int|
            a.polls().len() <= i < b.polls().len() ==> #[trigger] b.polls()[i] == Poll::Low(
                Some(false),
            )) ==> r == Err::<(), Error>(Error::BusyTimeout) && b.polls().len() == a.polls().len()
            + BUSY_TIMEOUT_STEPS,
{
    reveal(Pn5180::idled);
    assert(a.polls() =~= b.polls().subrange(0, a.polls().len() as int));
    let last = b.polls().len() - 1;
    let first = a.polls().len() as int;
    assert(b.polls()[last] == b.polls()[last]);
    assert(b.polls()[first] == b.polls()[first]);
}

/// What BUSY showed while a command was sent, and what that came to.
proof fn lemma_handshake<S: SpiBus, B: BusyPin, D: Delay>(
    a: Pn5180<S, B, D>,
    b: Pn5180<S, B, D>,
    frame: Seq<u8>,
    r: Result<(), Error>,
)
    requires
        a.sent(b, frame, r),
        a.busy is Some,
    ensures
        r is Ok ==> b.polls().last() == Poll::Low(Some(true)),
        a.polls().len() < b.polls().len(),
        b.polls()[a.polls().len() as int] == Poll::Low(None) ==> r == Err::<(), Error>(Error::Pin)
            && b.bus() == a.bus(),
        (forall|i: int|
            a.polls().len() <= i < b.polls().len() ==> #[trigger] b.polls()[i] == Poll::Low(
                Some(false),
            )) ==> r == Err::<(), Error>(Error::BusyTimeout) && b.bus() == a.bus()
            && b.polls().len() == a.polls().len() + BUSY_TIMEOUT_STEPS,
{
    reveal(Pn5180::sent);
    let (ready, i) = choose|ready: Pn5180<S, B, D>, i: Result<(), Error>| #[trigger]
        a.idled(ready, i) && match i {
            Err(e) => b == ready && fails(r, e),
            Ok(_) => exists|out: Pn5180<S, B, D>, ok: bool| #[trigger]
                ready.wrote(out, frame, ok) && if ok {
                    exists|up: Pn5180<S, B, D>| #[trigger] out.acknowledged(up) && up.idled(b, r)
                } else {
                    b == out && fails(r, Error::Spi)
                },
        };
    lemma_idled(a, ready, i);
    if i is Ok {
        let (out, ok) = choose|out: Pn5180<S, B, D>, ok: bool| #[trigger]
            ready.wrote(out, frame, ok) && if ok {
                exists|up: Pn5180<S, B, D>| #[trigger] out.acknowledged(up) && up.idled(b, r)
            } else {
                b == out && fails(r, Error::Spi)
            };
        let k = ready.polls().len() - 1;
        let first = a.polls().len() as int;
        assert(out.polls() == ready.polls());
        assert(ready.polls()[k] == Poll::Low(Some(true)));
        if ok {
            let up = choose|up: Pn5180<S, B, D>| #[trigger] out.acknowledged(up) && up.idled(b, r);
            reveal(Pn5180::acknowledged);
            lemma_idled(up, b, r);
            assert(up.polls()[k] == ready.polls()[k]);
            assert(b.polls()[k] == up.polls()[k]);
            assert(up.polls()[first] == ready.polls()[first]);
            assert(b.polls()[first] == up.polls()[first]);
        }
        assert(b.polls()[k] == Poll::Low(Some(true)));
    }
}

/// A dead chip reports, it does not hang: where BUSY is high at every poll, the command comes to a
/// timeout after [`BUSY_TIMEOUT_STEPS`] of them, and nothing is transferred.
pub proof fn a_chip_that_stays_busy_is_not_spoken_to<S: SpiBus, B: BusyPin, D: Delay>(
    a: Pn5180<S, B, D>,
    b: Pn5180<S, B, D>,
    frame: Seq<u8>,
    r: Result<(), Error>,
)
    requires
        a.sent(b, frame, r),
        a.busy is Some,
        forall|i: int|
            a.polls().len() <= i < b.polls().len() ==> #[trigger] b.polls()[i] == Poll::Low(
                Some(false),
            ),
    ensures
        r == Err::<(), Error>(Error::BusyTimeout),
        b.polls().len() == a.polls().len() + BUSY_TIMEOUT_STEPS,
        b.bus() == a.bus(),
{
    lemma_handshake(a, b, frame, r);
}

/// Where BUSY cannot be read, the command comes to an error and nothing is transferred.
pub proof fn a_line_that_cannot_be_read_is_an_error<S: SpiBus, B: BusyPin, D: Delay>(
    a: Pn5180<S, B, D>,
    b: Pn5180<S, B, D>,
    frame: Seq<u8>,
    r: Result<(), Error>,
)
    requires
        a.sent(b, frame, r),
        a.busy is Some,
        b.polls()[a.polls().len() as int] == Poll::Low(None),
    ensures
        r == Err::<(), Error>(Error::Pin),
        b.bus() == a.bus(),
{
    lemma_handshake(a, b, frame, r);
}

/// A command that succeeded left BUSY low.
pub proof fn a_command_is_over_when_busy_is_low<S: SpiBus, B: BusyPin, D: Delay>(
    a: Pn5180<S, B, D>,
    b: Pn5180<S, B, D>,
    frame: Seq<u8>,
)
    requires
        a.sent(b, frame, Ok(())),
        a.busy is Some,
    ensures
        b.polls().last() == Poll::Low(Some(true)),
{
    lemma_handshake(a, b, frame, Ok(()));
}

/// A command carries its operand low byte first, and the frames of a change of protocol are those of
/// the chip's instruction set: the transceiver set to idle, the field off, the protocol loaded, the
/// field on, with ten milliseconds for each change of the field.
#[verifier::rlimit(60)]
pub proof fn the_frames_are_those_of_the_chip(tx: u8, rx: u8, value: u32)
    ensures
        register_frame(0x00, 0x0c, value).len() == 6,
        register_frame(0x00, 0x0c, value)[2] + 0x100 * register_frame(0x00, 0x0c, value)[3]
            + 0x1_0000 * register_frame(0x00, 0x0c, value)[4] + 0x100_0000 * register_frame(
            0x00,
            0x0c,
            value,
        )[5] == value,
        opening(tx, rx) == seq![
            Step::Tell(seq![0x02u8, 0x00u8, 0xf8u8, 0xffu8, 0xffu8, 0xffu8]),
            Step::Tell(seq![0x17u8, 0x00u8]),
            Step::Pause(10_000),
            Step::Tell(seq![0x11u8, tx, rx]),
            Step::Tell(seq![0x16u8, 0x00u8]),
            Step::Pause(10_000),
        ],
        opening_for_cards() == opening(0x00, 0x80) + seq![
            Step::Tell(seq![0x02u8, 0x19u8, 0xfeu8, 0xffu8, 0xffu8, 0xffu8]),
            Step::Tell(seq![0x02u8, 0x12u8, 0xfeu8, 0xffu8, 0xffu8, 0xffu8]),
        ],
        eof_only() == seq![0x02u8, 0x18u8, 0x3fu8, 0xfbu8, 0xffu8, 0xffu8],
        irqs_cleared() == seq![0x00u8, 0x03u8, 0xffu8, 0xffu8, 0x0fu8, 0x00u8],
        register_question(0x1d) == seq![0x04u8, 0x1du8],
        eeprom_question(0x10, 2) == seq![0x07u8, 0x10u8, 2u8],
        slots_request() == seq![0x06u8, 0x01u8, 0x00u8],
        single_slot_request(true) == seq![0x26u8, 0x01u8, 0x00u8],
        single_slot_request(false) == seq![0x24u8, 0x01u8, 0x00u8],
{
    let idle = register_frame(cmd::WRITE_REGISTER_AND_MASK, reg::SYSTEM_CONFIG, 0xffff_fff8);
    let plain_tx = register_frame(cmd::WRITE_REGISTER_AND_MASK, reg::CRC_TX_CONFIG, 0xffff_fffe);
    let plain_rx = register_frame(cmd::WRITE_REGISTER_AND_MASK, reg::CRC_RX_CONFIG, 0xffff_fffe);
    assert(idle =~= seq![0x02u8, 0x00u8, 0xf8u8, 0xffu8, 0xffu8, 0xffu8]);
    assert(plain_tx =~= seq![0x02u8, 0x19u8, 0xfeu8, 0xffu8, 0xffu8, 0xffu8]);
    assert(plain_rx =~= seq![0x02u8, 0x12u8, 0xfeu8, 0xffu8, 0xffu8, 0xffu8]);
    assert(eof_only() =~= seq![0x02u8, 0x18u8, 0x3fu8, 0xfbu8, 0xffu8, 0xffu8]);
    assert(irqs_cleared() =~= seq![0x00u8, 0x03u8, 0xffu8, 0xffu8, 0x0fu8, 0x00u8]);
    assert(opening_for_cards() =~= opening(0x00, 0x80) + seq![
        Step::Tell(plain_tx),
        Step::Tell(plain_rx),
    ]);
}

/// The tags found are those that answered, every one of them, and each once.
#[verifier::rlimit(60)]
pub proof fn every_tag_that_answered_is_found_once(answers: Seq<Seq<u8>>, uid: Uid)
    ensures
        distinct_tags(answers).contains(uid) <==> exists|k: int|
            0 <= k < answers.len() && (#[trigger] answers[k]).len() >= 10 && answers[k][0] % 2 == 0
                && answers[k][9] == 0xe0 && answers[k].subrange(2, 10) == uid.0@,
        forall|i: int, j: int|
            0 <= i < j < distinct_tags(answers).len() ==> distinct_tags(answers)[i]
                != distinct_tags(answers)[j],
        distinct_tags(answers).len() <= answers.len(),
    decreases answers.len(),
{
    if answers.len() > 0 {
        let before = answers.drop_last();
        let last = answers.last();
        every_tag_that_answered_is_found_once(before, uid);
        let rest = distinct_tags(before);
        let all = distinct_tags(answers);
        assert forall|k: int| 0 <= k < before.len() implies #[trigger] answers[k] == before[k] by {}
        assert(answers[answers.len() - 1] == last);
        let ids = last.len() >= 10 && last[0] % 2 == 0 && last[9] == 0xe0 && last.subrange(2, 10)
            == uid.0@;
        if pn5180::is_inventory_response(last) {
            let bytes = last.subrange(2, 10);
            let u = Uid([bytes[0], bytes[1], bytes[2], bytes[3], bytes[4], bytes[5], bytes[6], bytes[7]]);
            assert(u.0@ =~= bytes);
            let t = tag_of(last)->0;
            assert(t.0@ == bytes);
            if ids {
                pn5180::lemma_uid_by_bytes(t, uid);
            }
            if t == uid {
                assert(ids);
            }
            if !rest.contains(t) {
                assert(all == rest.push(t));
                assert(all[rest.len() as int] == t);
                assert forall|i: int, j: int| 0 <= i < j < all.len() implies all[i] != all[j] by {
                    if j == rest.len() {
                        assert(all[i] == rest[i]);
                        assert(rest.contains(rest[i]));
                    }
                }
                if rest.contains(uid) {
                    let i = choose|i: int| 0 <= i < rest.len() && rest[i] == uid;
                    assert(all[i] == uid);
                }
                if all.contains(uid) {
                    let i = choose|i: int| 0 <= i < all.len() && all[i] == uid;
                    if i < rest.len() {
                        assert(rest[i] == uid);
                    }
                }
            }
        }
        if exists|k: int|
            0 <= k < answers.len() && (#[trigger] answers[k]).len() >= 10 && answers[k][0] % 2 == 0
                && answers[k][9] == 0xe0 && answers[k].subrange(2, 10) == uid.0@ {
            let k = choose|k: int|
                0 <= k < answers.len() && (#[trigger] answers[k]).len() >= 10 && answers[k][0] % 2
                    == 0 && answers[k][9] == 0xe0 && answers[k].subrange(2, 10) == uid.0@;
            if k < before.len() {
                assert(before[k] == answers[k]);
            } else {
                assert(ids);
            }
        }
        if exists|k: int|
            0 <= k < before.len() && (#[trigger] before[k]).len() >= 10 && before[k][0] % 2 == 0
                && before[k][9] == 0xe0 && before[k].subrange(2, 10) == uid.0@ {
            let k = choose|k: int|
                0 <= k < before.len() && (#[trigger] before[k]).len() >= 10 && before[k][0] % 2
                    == 0 && before[k][9] == 0xe0 && before[k].subrange(2, 10) == uid.0@;
            assert(answers[k] == before[k]);
        }
    }
}

proof fn lemma_stepped_len(frames: Seq<Seq<u8>>, n: nat)
    ensures
        stepped(frames, n).len() == frames.len() + n,
        forall|i: int| 0 <= i < frames.len() ==> #[trigger] stepped(frames, n)[i] == frames[i],
        forall|i: int|
            frames.len() <= i < frames.len() + n ==> #[trigger] stepped(frames, n)[i] == seq![0u8],
    decreases n,
{
    if n > 0 {
        lemma_stepped_len(frames, (n - 1) as nat);
    }
}

/// An inventory that worked found just the tags that answered, whole, and each once: one request
/// went out, and fifteen times an empty frame for the next slot.
#[verifier::rlimit(60)]
pub proof fn an_inventory_finds_what_answered<S: SpiBus, B: BusyPin, D: Delay>(
    before: Pn5180<S, B, D>,
    after: Pn5180<S, B, D>,
    out: Seq<Uid>,
    filled: Seq<Uid>,
    n: usize,
    uid: Uid,
)
    requires
        Pn5180::inventoried(before, after, out, filled, Ok(n)),
    ensures
        n <= filled.len(),
        ({
            let old_frames = heard(before.bus()).len() as int;
            let frames = heard(after.bus());
            filled.take(n as int).contains(uid) <==> exists|k: int|
                old_frames <= k < frames.len() && (#[trigger] frames[k]).len() >= 10 && frames[k][0]
                    % 2 == 0 && frames[k][9] == 0xe0 && frames[k].subrange(2, 10) == uid.0@
        }),
        forall|i: int, j: int| 0 <= i < j < n ==> filled[i] != filled[j],
        ({
            let sent = transmitted(after.bus());
            let first = transmitted(before.bus()).len() as int;
            &&& sent.len() == first + 16
            &&& sent[first] == seq![0u8, 0x06u8, 0x01u8, 0x00u8]
            &&& forall|i: int| first < i < first + 16 ==> #[trigger] sent[i] == seq![0u8]
        }),
{
    let old_frames = heard(before.bus()).len() as int;
    let frames = heard(after.bus());
    let answers = frames.skip(old_frames);
    every_tag_that_answered_is_found_once(answers, uid);
    let found = filled.take(n as int);
    assert forall|i: int, j: int| 0 <= i < j < n implies filled[i] != filled[j] by {
        assert(found[i] != found[j]);
    }
    if exists|k: int|
        old_frames <= k < frames.len() && (#[trigger] frames[k]).len() >= 10 && frames[k][0] % 2
            == 0 && frames[k][9] == 0xe0 && frames[k].subrange(2, 10) == uid.0@ {
        let k = choose|k: int|
            old_frames <= k < frames.len() && (#[trigger] frames[k]).len() >= 10 && frames[k][0]
                % 2 == 0 && frames[k][9] == 0xe0 && frames[k].subrange(2, 10) == uid.0@;
        assert(answers[k - old_frames] == frames[k]);
    }
    if exists|k: int|
        0 <= k < answers.len() && (#[trigger] answers[k]).len() >= 10 && answers[k][0] % 2 == 0
            && answers[k][9] == 0xe0 && answers[k].subrange(2, 10) == uid.0@ {
        let k = choose|k: int|
            0 <= k < answers.len() && (#[trigger] answers[k]).len() >= 10 && answers[k][0] % 2 == 0
                && answers[k][9] == 0xe0 && answers[k].subrange(2, 10) == uid.0@;
        assert(frames[k + old_frames] == answers[k]);
    }
    lemma_stepped_len(transmitted(before.bus()).push(seq![0u8, 0x06u8, 0x01u8, 0x00u8]), 15);
}

/// A card that was found is the one that answered last: four bytes and their XOR. A field in which
/// none was found was asked three times, and nothing that answered was a card.
pub proof fn a_card_is_found_where_it_answered<S: SpiBus, B: BusyPin, D: Delay>(
    before: Pn5180<S, B, D>,
    after: Pn5180<S, B, D>,
    found: Option<CardUid>,
)
    requires
        Pn5180::card_polled(before, after, Ok(found)),
    ensures
        ({
            let frames = heard(after.bus());
            let first = heard(before.bus()).len() as int;
            match found {
                Some(uid) => {
                    let f = frames.last();
                    &&& frames.len() > first
                    &&& f.len() >= 5
                    &&& f.take(4) == uid.0@
                    &&& f[4] == f[0] ^ f[1] ^ f[2] ^ f[3]
                    &&& f[0] != 0x88
                },
                None => {
                    &&& requests(transmitted(after.bus())) == requests(transmitted(before.bus()))
                        + 3
                    &&& forall|k: int|
                        first <= k < frames.len() ==> (#[trigger] frames[k]).len() < 5 || frames[k][0]
                            == 0x88 || frames[k][4] != frames[k][0] ^ frames[k][1] ^ frames[k][2]
                            ^ frames[k][3]
                },
            }
        }),
        after.protocol == Some((0u8, 0x80u8)),
{
    let frames = heard(after.bus());
    let first = heard(before.bus()).len() as int;
    if found is None {
        assert forall|k: int| first <= k < frames.len() implies (#[trigger] frames[k]).len() < 5
            || frames[k][0] == 0x88 || frames[k][4] != frames[k][0] ^ frames[k][1] ^ frames[k][2]
            ^ frames[k][3] by {
            assert(!pn5180::is_anticollision(frames[k]));
        }
    }
}

/// A register is asked for by its number and read low byte first.
pub proof fn a_register_is_read_low_byte_first<S: SpiBus, B: BusyPin, D: Delay>(
    before: Pn5180<S, B, D>,
    after: Pn5180<S, B, D>,
    register: u8,
    v: u32,
)
    requires
        before.consulted(after, register, Ok(v)),
    ensures
        ({
            let n = before.bus().len() as int;
            let b = response_at(after.bus(), n + 1);
            &&& after.bus().len() == n + 2
            &&& after.bus()[n] == Frame::Sent(seq![0x04u8, register])
            &&& after.bus()[n + 1] == Frame::Got(b)
            &&& b.len() == 4
            &&& v == b[0] + 256 * (b[1] + 256 * (b[2] + 256 * b[3]))
        }),
{
}

/// The chip is waited for half a second, and no longer: five thousand looks at BUSY, a tenth of a
/// millisecond apart. Without a BUSY line five milliseconds pass instead.
pub proof fn the_chip_is_waited_for_half_a_second<S: SpiBus, B: BusyPin, D: Delay>(
    before: Pn5180<S, B, D>,
    after: Pn5180<S, B, D>,
    r: Result<(), Error>,
)
    requires
        before.idled(after, r),
    ensures
        before.busy is Some && r == Err::<(), Error>(Error::BusyTimeout) ==> after.waits()
            == before.waits() + times(5_000, 100u32) && after.polls() == before.polls() + times(
            5_000,
            Poll::Low(Some(false)),
        ),
        before.busy is Some && r is Ok ==> after.polls().len() > before.polls().len()
            && after.polls().last() == Poll::Low(Some(true)) && after.polls().len()
            <= before.polls().len() + 5_000,
        before.busy is None ==> r is Ok && after.waits() == before.waits().push(5_000),
        after.bus() == before.bus(),
{
    reveal(Pn5180::idled);
}

/// How long a frame is that was received, the chip says in the nine lowest bits of its status.
pub proof fn the_chip_says_how_long_a_frame_is<S: SpiBus, B: BusyPin, D: Delay>(
    before: Pn5180<S, B, D>,
    after: Pn5180<S, B, D>,
    timeout_us: u32,
    len: usize,
)
    requires
        before.awaited(after, timeout_us, Ok(Some(len))),
    ensures
        len < 512,
        response(after.bus()).len() == 4,
        len == wire::le32(response(after.bus()), 0) % 512,
{
    reveal(Pn5180::awaited);
}

} // verus!
