//! The reader at work: who the chip is, which tags and cards are in the field, and which
//! devices are put back.
use crate::pn5180::cmd;
use crate::pn5180::driver;
use crate::pn5180::driver::{BusyPin, Delay, Frame, Pn5180, SpiBus};
use crate::pn5180::eeprom;
use crate::pn5180::reg;
use crate::pn5180::Error;
use crate::text;
use vstd::prelude::*;

verus! {

/// Most tags we expect in the field at once. Two devices, plus slack so a stray tag shows up
/// in the log rather than being silently dropped.
pub const MAX_TAGS: usize = 4;

/// A register that nothing else uses.
pub const TIMER1_RELOAD: u8 = 0x0c;

/// The name of an error.
pub open spec fn error_word(e: Error) -> Seq<char> {
    match e {
        Error::Spi => "Spi"@,
        Error::Pin => "Pin"@,
        Error::BusyTimeout => "BusyTimeout"@,
        Error::NoResponse => "NoResponse"@,
        Error::Overflow => "Overflow"@,
        Error::NotReadyToTransmit => "NotReadyToTransmit"@,
    }
}

/// The name of an error.
pub fn error_name(e: &Error) -> (r: &'static str)
    ensures
        r@ == error_word(*e),
{
    match e {
        Error::Spi => "Spi",
        Error::Pin => "Pin",
        Error::BusyTimeout => "BusyTimeout",
        Error::NoResponse => "NoResponse",
        Error::Overflow => "Overflow",
        Error::NotReadyToTransmit => "NotReadyToTransmit",
    }
}

/// What the EEPROM holds at an address, as far as it could be read.
pub struct Entry {
    pub what: &'static str,
    pub addr: u8,
    pub len: u8,
    pub got: Result<Vec<u8>, Error>,
}

/// What the chip says of itself.
pub struct Identification {
    /// The BUSY level before anything was asked.
    pub idle: Option<bool>,
    pub entries: Vec<Entry>,
    /// Whether the BUSY pin could be read afterwards.
    pub wired: bool,
    /// Whether BUSY was ever seen high.
    pub acknowledged: bool,
    /// What a register holds after writing all ones to it.
    pub mask: Result<u32, Error>,
    /// What it holds after writing zero, where the mask has bits at all.
    pub zero: Option<Result<u32, Error>>,
    /// What it holds after writing a pattern within the mask.
    pub pattern: Option<Result<u32, Error>>,
    /// Two readings of the die identifier.
    pub dies: Option<([u8; 16], [u8; 16])>,
}

/// Bits of a pattern of alternating runs.
pub const PATTERN: u32 = 0xa5c3_5a5a;

/// How many of the lowest `n` bits are set.
pub open spec fn bits_set(v: u32, n: nat) -> nat
    decreases n,
{
    if n == 0 {
        0
    } else {
        v as nat % 2 + bits_set(v / 2, (n - 1) as nat)
    }
}

/// How many bits are set.
fn count_bits(v: u32) -> (r: u32)
    ensures
        r == bits_set(v, 32),
        r <= 32,
{
    let mut left: u32 = v;
    let mut n: u32 = 0;
    let mut i: u32 = 0;
    while i < 32
        invariant
            i <= 32,
            n <= i,
            bits_set(v, 32) == n + bits_set(left, (32 - i) as nat),
        decreases 32 - i,
    {
        n = n + left % 2;
        left = left / 2;
        i += 1;
    }
    n
}

/// The four places of the EEPROM that say who the chip is.
pub open spec fn places() -> Seq<(Seq<char>, u8, u8)> {
    seq![
        ("product "@, eeprom::PRODUCT_VERSION, 2u8),
        ("firmware"@, eeprom::FIRMWARE_VERSION, 2u8),
        ("eeprom  "@, eeprom::EEPROM_VERSION, 2u8),
        ("die id  "@, eeprom::DIE_IDENTIFIER, 16u8),
    ]
}

/// Whether the BUSY line was asked for its level.
#[verifier::opaque]
pub open spec fn level_read<S: SpiBus, B: BusyPin, D: Delay>(
    before: Pn5180<S, B, D>,
    after: Pn5180<S, B, D>,
    level: Option<bool>,
) -> bool {
    before.level_asked(after, level)
}

/// Whether an entry is what was read at a place of the EEPROM.
#[verifier::opaque]
pub open spec fn place_read<S: SpiBus, B: BusyPin, D: Delay>(
    before: Pn5180<S, B, D>,
    after: Pn5180<S, B, D>,
    e: Entry,
    place: (Seq<char>, u8, u8),
) -> bool {
    &&& before.kept(after)
    &&& e.what@ == place.0
    &&& e.addr == place.1
    &&& e.len == place.2
    &&& exists|was: Seq<u8>, now: Seq<u8>, c: Result<(), Error>| #[trigger]
        before.exchanged(after, driver::eeprom_question(e.addr, e.len), was, now, c) && was.len()
            == e.len && match c {
            Err(err) => e.got is Err && e.got->Err_0 == err,
            Ok(_) => e.got is Ok && e.got->Ok_0@ == now,
        }
    &&& match e.got {
        Ok(b) => b@.len() == e.len && after.bus() == before.bus().push(
            Frame::Sent(driver::eeprom_question(e.addr, e.len)),
        ).push(Frame::Got(b@)),
        Err(err) => after.faulted(err),
    }
}

/// Whether a value was written to the scratch register and `r` read back.
#[verifier::opaque]
pub open spec fn probed<S: SpiBus, B: BusyPin, D: Delay>(
    before: Pn5180<S, B, D>,
    after: Pn5180<S, B, D>,
    value: u32,
    r: Result<u32, Error>,
) -> bool {
    &&& before.kept(after)
    &&& exists|written: Pn5180<S, B, D>, c: Result<(), Error>| #[trigger]
        before.commanded(
            written,
            driver::register_frame(cmd::WRITE_REGISTER, TIMER1_RELOAD, value),
            c,
        ) && match c {
            Err(e) => after == written && driver::fails(r, e),
            Ok(_) => written.consulted(after, TIMER1_RELOAD, r),
        }
}

/// Whether the register was tested: with all ones, and where some of them stayed, with zero and
/// with a pattern within them.
#[verifier::opaque]
pub open spec fn register_tested<S: SpiBus, B: BusyPin, D: Delay>(
    before: Pn5180<S, B, D>,
    after: Pn5180<S, B, D>,
    mask: Result<u32, Error>,
    zero: Option<Result<u32, Error>>,
    pattern: Option<Result<u32, Error>>,
) -> bool {
    if mask is Ok && mask->Ok_0 != 0 {
        &&& zero is Some
        &&& pattern is Some
        &&& exists|one: Pn5180<S, B, D>, two: Pn5180<S, B, D>|
            {
                &&& #[trigger] probed(before, one, 0xffff_ffff, mask)
                &&& #[trigger] probed(one, two, 0, zero->0)
                &&& probed(two, after, PATTERN & mask->Ok_0, pattern->0)
            }
    } else {
        zero is None && pattern is None && probed(before, after, 0xffff_ffff, mask)
    }
}

/// Whether the die identifier was read twice, or why it was not.
#[verifier::opaque]
pub open spec fn dies_read<S: SpiBus, B: BusyPin, D: Delay>(
    before: Pn5180<S, B, D>,
    after: Pn5180<S, B, D>,
    dies: Option<([u8; 16], [u8; 16])>,
) -> bool {
    let question = driver::eeprom_question(eeprom::DIE_IDENTIFIER, 16);
    let blank = Seq::new(16, |i: int| 0u8);
    &&& before.kept(after)
    &&& exists|mid: Pn5180<S, B, D>, one: Seq<u8>, c: Result<(), Error>| #[trigger]
        before.exchanged(mid, question, blank, one, c) && match c {
            Err(_) => after == mid && dies is None,
            Ok(_) => exists|two: Seq<u8>, d: Result<(), Error>| #[trigger]
                mid.exchanged(after, question, blank, two, d) && match d {
                    Err(_) => dies is None,
                    Ok(_) => dies is Some && (dies->0).0@ == one && (dies->0).1@ == two,
                },
        }
}

/// Whether a chip went through these states while it was asked who it is, and the answers are
/// those of an identification: the level of BUSY, the four places of its EEPROM, the level of
/// BUSY again, the register and the die identifier.
pub open spec fn conversation<S: SpiBus, B: BusyPin, D: Delay>(p: Seq<Pn5180<S, B, D>>, id: Identification) -> bool {
    &&& p.len() == 9
    &&& id.entries@.len() == 4
    &&& level_read(p[0], p[1], id.idle)
    &&& place_read(p[1], p[2], id.entries@[0], places()[0])
    &&& place_read(p[2], p[3], id.entries@[1], places()[1])
    &&& place_read(p[3], p[4], id.entries@[2], places()[2])
    &&& place_read(p[4], p[5], id.entries@[3], places()[3])
    &&& exists|level: Option<bool>|
        #[trigger] level_read(p[5], p[6], level) && id.wired == level is Some
    &&& id.acknowledged == p[6].saw_busy_high
    &&& register_tested(p[6], p[7], id.mask, id.zero, id.pattern)
    &&& dies_read(p[7], p[8], id.dies)
}

/// Whether an identification is what the chip answered between two of its states.
pub open spec fn identified<S: SpiBus, B: BusyPin, D: Delay>(
    before: Pn5180<S, B, D>,
    after: Pn5180<S, B, D>,
    id: Identification,
) -> bool {
    exists|p: Seq<Pn5180<S, B, D>>|
        #[trigger] conversation(p, id) && p[0] == before && p[8] == after
}

/// What holds between a state and a later one, and between that and one later still, holds
/// between the first and the last.
proof fn lemma_kept<S: SpiBus, B: BusyPin, D: Delay>(a: Pn5180<S, B, D>, b: Pn5180<S, B, D>, c: Pn5180<S, B, D>)
    requires
        a.kept(b),
        b.kept(c),
    ensures
        a.kept(c),
{
    assert(a.bus() =~= c.bus().subrange(0, a.bus().len() as int)) by {
        assert forall|i: int| 0 <= i < a.bus().len() implies a.bus()[i] == c.bus()[i] by {
            assert(a.bus()[i] == b.bus()[i]);
            assert(b.bus()[i] == c.bus()[i]);
        }
    }
}

/// Read the BUSY level.
fn read_level<S: SpiBus, B: BusyPin, D: Delay>(reader: &mut Pn5180<S, B, D>) -> (r: Option<bool>)
    ensures
        old(reader).kept(*final(reader)),
        level_read(*old(reader), *final(reader), r),
{
    proof {
        reveal(level_read);
    }
    reader.busy_level()
}

fn read_entry<S: SpiBus, B: BusyPin, D: Delay>(
    reader: &mut Pn5180<S, B, D>,
    what: &'static str,
    addr: u8,
    len: u8,
) -> (e: Entry)
    ensures
        old(reader).kept(*final(reader)),
        place_read(*old(reader), *final(reader), e, (what@, addr, len)),
        e.len == len,
        e.got is Ok ==> e.got->Ok_0@.len() == len,
{
    proof {
        reveal(place_read);
    }
    let mut buf: Vec<u8> = Vec::new();
    let mut i: u8 = 0;
    while i < len
        invariant
            i <= len,
            buf@.len() == i,
        decreases len - i,
    {
        buf.push(0);
        i += 1;
    }
    let ghost was = buf@;
    let c: Result<(), Error> = reader.read_eeprom(addr, buf.as_mut_slice());
    assert(old(reader).exchanged(*reader, driver::eeprom_question(addr, len), was, buf@, c));
    let ghost now = buf@;
    let entry = match c {
        Ok(_) => Entry { what, addr, len, got: Ok(buf) },
        Err(e) => Entry { what, addr, len, got: Err(e) },
    };
    assert(old(reader).exchanged(
        *reader,
        driver::eeprom_question(entry.addr, entry.len),
        was,
        now,
        c,
    ));
    entry
}

/// Write a value to the scratch register and read it back.
fn probe<S: SpiBus, B: BusyPin, D: Delay>(reader: &mut Pn5180<S, B, D>, value: u32) -> (r: Result<
    u32,
    Error,
>)
    ensures
        old(reader).kept(*final(reader)),
        probed(*old(reader), *final(reader), value, r),
{
    proof {
        reveal(probed);
    }
    let ghost before = *reader;
    let c: Result<(), Error> = reader.write_register(TIMER1_RELOAD, value);
    assert(before.commanded(
        *reader,
        driver::register_frame(cmd::WRITE_REGISTER, TIMER1_RELOAD, value),
        c,
    ));
    match c {
        Err(e) => Err(e),
        Ok(_) => {
            let ghost mid = *reader;
            let r: Result<u32, Error> = reader.read_register(TIMER1_RELOAD);
            proof {
                lemma_kept(before, mid, *reader);
            }
            r
        },
    }
}

fn test_register<S: SpiBus, B: BusyPin, D: Delay>(reader: &mut Pn5180<S, B, D>) -> (r: (
    Result<u32, Error>,
    Option<Result<u32, Error>>,
    Option<Result<u32, Error>>,
))
    ensures
        old(reader).kept(*final(reader)),
        register_tested(*old(reader), *final(reader), r.0, r.1, r.2),
        r.0 is Ok && r.0->Ok_0 != 0 ==> r.1 is Some && r.2 is Some,
{
    proof {
        reveal(register_tested);
    }
    let ghost before = *reader;
    let mask: Result<u32, Error> = probe(reader, 0xffff_ffff);
    let ghost one = *reader;
    if let Ok(m) = mask {
        if m != 0 {
            let zero: Result<u32, Error> = probe(reader, 0);
            let ghost two = *reader;
            let pattern: Result<u32, Error> = probe(reader, PATTERN & m);
            proof {
                assert(probed(before, one, 0xffff_ffff, mask));
                assert(probed(two, *reader, PATTERN & mask->Ok_0, pattern));
                let tried: Option<Result<u32, Error>> = Some(zero);
                assert(probed(one, two, 0, tried->0));
                lemma_kept(before, one, two);
                lemma_kept(before, two, *reader);
            }
            return (mask, Some(zero), Some(pattern));
        }
    }
    (mask, None, None)
}

fn read_dies<S: SpiBus, B: BusyPin, D: Delay>(reader: &mut Pn5180<S, B, D>) -> (r: Option<
    ([u8; 16], [u8; 16]),
>)
    ensures
        old(reader).kept(*final(reader)),
        dies_read(*old(reader), *final(reader), r),
{
    proof {
        reveal(dies_read);
    }
    let ghost before = *reader;
    let mut one: [u8; 16] = [0;16];
    let mut two: [u8; 16] = [0;16];
    let ghost blank = Seq::new(16, |i: int| 0u8);
    let ghost question = driver::eeprom_question(eeprom::DIE_IDENTIFIER, 16);
    assert(one@ =~= blank);
    assert(two@ =~= blank);
    let c: Result<(), Error> = reader.die_id(&mut one);
    let ghost mid = *reader;
    assert(before.exchanged(mid, question, blank, one@, c));
    if c.is_err() {
        return None;
    }
    let d: Result<(), Error> = reader.die_id(&mut two);
    assert(mid.exchanged(*reader, question, blank, two@, d));
    proof {
        lemma_kept(before, mid, *reader);
    }
    if d.is_err() {
        return None;
    }
    Some((one, two))
}

/// Ask the chip who it is. Proves wiring, framing and the BUSY handshake before anything
/// touches RF.
///
/// The decisive framing test is a value of our own choice surviving a write and a read: all
/// ones read back as the mask of bits that actually exist, and a pattern inside that mask must
/// survive exactly.
pub fn interview<S: SpiBus, B: BusyPin, D: Delay>(reader: &mut Pn5180<S, B, D>) -> (id:
    Identification)
    ensures
        old(reader).kept(*final(reader)),
        identified(*old(reader), *final(reader), id),
        id.entries@.len() == 4,
        forall|k: int|
            0 <= k < 4 && (#[trigger] id.entries@[k]).got is Ok ==> id.entries@[k].got->Ok_0@.len()
                == id.entries@[k].len,
        id.mask is Ok && id.mask->Ok_0 != 0 ==> id.zero is Some && id.pattern is Some,
{
    let ghost s0 = *reader;
    let idle: Option<bool> = read_level(reader);
    let ghost s1 = *reader;
    let a: Entry = read_entry(reader, "product ", eeprom::PRODUCT_VERSION, 2);
    let ghost s2 = *reader;
    let b: Entry = read_entry(reader, "firmware", eeprom::FIRMWARE_VERSION, 2);
    let ghost s3 = *reader;
    let c: Entry = read_entry(reader, "eeprom  ", eeprom::EEPROM_VERSION, 2);
    let ghost s4 = *reader;
    let d: Entry = read_entry(reader, "die id  ", eeprom::DIE_IDENTIFIER, 16);
    let ghost s5 = *reader;
    let level: Option<bool> = read_level(reader);
    let wired: bool = level.is_some();
    let acknowledged: bool = reader.saw_busy_high();
    let ghost s6 = *reader;
    let (mask, zero, pattern) = test_register(reader);
    let ghost s7 = *reader;
    let dies: Option<([u8; 16], [u8; 16])> = read_dies(reader);
    let mut entries: Vec<Entry> = Vec::new();
    entries.push(a);
    entries.push(b);
    entries.push(c);
    entries.push(d);
    let id = Identification { idle, entries, wired, acknowledged, mask, zero, pattern, dies };
    proof {
        let p = seq![s0, s1, s2, s3, s4, s5, s6, s7, *reader];
        assert(level_read(p[5], p[6], level));
        assert(conversation(p, id));
        lemma_kept(s0, s1, s2);
        lemma_kept(s0, s2, s3);
        lemma_kept(s0, s3, s4);
        lemma_kept(s0, s4, s5);
        lemma_kept(s0, s5, s6);
        lemma_kept(s0, s6, s7);
        lemma_kept(s0, s7, *reader);
    }
    id
}

/// Bytes as a log shows them: each led by a blank, in two digits.
pub open spec fn spaced(b: Seq<u8>) -> Seq<char>
    decreases b.len(),
{
    if b.len() == 0 {
        Seq::empty()
    } else {
        spaced(b.drop_last()) + " "@ + text::hex_pair(b.last())
    }
}

/// Whether every byte is `FF`.
pub open spec fn all_ones(b: Seq<u8>) -> bool {
    forall|i: int| 0 <= i < b.len() ==> #[trigger] b[i] == 0xff
}

/// What is logged of an entry.
pub open spec fn entry_line(e: Entry) -> Seq<char> {
    "reader: "@ + e.what@ + " <- 07 "@ + text::hex_pair(e.addr) + " "@ + text::hex_pair(e.len)
        + "  ->"@ + match e.got {
        Ok(b) => spaced(b@) + if all_ones(b@) {
            "   <-- all ff: no answer, not a version"@
        } else if e.len == 2 {
            "   = v"@ + text::decimal(b@[1] as nat) + "."@ + text::decimal(b@[0] as nat)
        } else {
            Seq::empty()
        },
        Err(err) => " "@ + error_word(err),
    }
}

/// A yes-or-no that may be unknown.
pub open spec fn level_word(level: Option<bool>) -> Seq<char> {
    match level {
        None => "None"@,
        Some(b) => if b {
            "Some(true)"@
        } else {
            "Some(false)"@
        },
    }
}

/// A number that may not have been read.
pub open spec fn outcome_word(r: Result<u32, Error>) -> Seq<char> {
    match r {
        Ok(v) => "Ok("@ + text::decimal(v as nat) + ")"@,
        Err(e) => "Err("@ + error_word(e) + ")"@,
    }
}

/// What is logged of the register test.
pub open spec fn register_lines(id: Identification) -> Seq<Seq<char>> {
    match id.mask {
        Err(e) => seq!["reader: register probe failed ("@ + error_word(e) + ")"@],
        Ok(mask) => if mask == 0 {
            seq![
                "reader: register writable mask 0x00000000 — the chip is not answering, not a narrow register"@,
            ]
        } else {
            let pattern = PATTERN & mask;
            seq![
                "reader: register writable mask 0x"@ + text::hex_word(mask) + " ("@ + text::decimal(
                    bits_set(mask, 32),
                ) + " bits)"@,
                if id.zero == Some(Ok::<u32, Error>(0)) && id.pattern == Some(
                    Ok::<u32, Error>(pattern),
                ) && pattern != 0 {
                    "reader: register round trip ok (0x"@ + text::hex_word(pattern)
                        + ") — framing proven"@
                } else {
                    "reader: round trip suspect, zero="@ + outcome_word(id.zero->0) + " pattern="@
                        + outcome_word(id.pattern->0)
                },
            ]
        },
    }
}

/// What is logged of the die identifier.
pub open spec fn die_line(id: Identification) -> Seq<char> {
    match id.dies {
        None => "reader: repeat die id read failed"@,
        Some((a, b)) => if a@ == b@ {
            "reader: die id stable across repeats"@
        } else {
            "reader: die id UNSTABLE, second read"@ + spaced(b@)
        },
    }
}

/// What is logged of the BUSY line.
pub open spec fn busy_line(id: Identification) -> Seq<char> {
    if !id.wired {
        "reader: BUSY not wired — timing is a fixed delay, not a handshake"@
    } else if id.acknowledged {
        "reader: BUSY asserted — the chip is acknowledging"@
    } else {
        "reader: BUSY never went high — no acknowledgement"@
    }
}

/// What is logged of an identification.
pub open spec fn identification_lines(id: Identification) -> Seq<Seq<char>> {
    seq!["reader: BUSY idle level = "@ + level_word(id.idle)] + Seq::new(
        id.entries@.len(),
        |k: int| entry_line(id.entries@[k]),
    ) + seq![busy_line(id)] + register_lines(id) + seq![die_line(id)]
}

fn push_spaced(out: &mut String, b: &[u8])
    ensures
        final(out)@ == old(out)@ + spaced(b@),
{
    let mut i: usize = 0;
    assert(b@.take(0) =~= Seq::<u8>::empty());
    assert(out@ =~= old(out)@ + spaced(b@.take(0)));
    while i < b.len()
        invariant
            i <= b@.len(),
            out@ == old(out)@ + spaced(b@.take(i as int)),
        decreases b@.len() - i,
    {
        out.append(" ");
        text::push_digit(out, b[i] / 16);
        text::push_digit(out, b[i] % 16);
        proof {
            let upto = b@.take(i + 1);
            assert(upto.drop_last() =~= b@.take(i as int));
            assert(out@ =~= old(out)@ + (spaced(b@.take(i as int)) + " "@ + text::hex_pair(
                b@[i as int],
            )));
        }
        i += 1;
    }
    assert(b@.take(i as int) =~= b@);
}

fn ones(b: &[u8]) -> (r: bool)
    ensures
        r == all_ones(b@),
{
    let mut i: usize = 0;
    while i < b.len()
        invariant
            i <= b@.len(),
            forall|j: int| 0 <= j < i ==> #[trigger] b@[j] == 0xff,
        decreases b@.len() - i,
    {
        if b[i] != 0xff {
            return false;
        }
        i += 1;
    }
    true
}

fn push_byte(out: &mut String, b: u8)
    ensures
        final(out)@ == old(out)@ + text::hex_pair(b),
{
    text::push_digit(out, b / 16);
    text::push_digit(out, b % 16);
    assert(out@ =~= old(out)@ + text::hex_pair(b));
}

/// What to log of an entry.
pub fn describe_entry(e: &Entry) -> (r: String)
    requires
        e.len == 2 && e.got is Ok ==> e.got->Ok_0@.len() >= 2,
    ensures
        r@ == entry_line(*e),
{
    let mut out = String::new();
    out.append("reader: ");
    out.append(e.what);
    out.append(" <- 07 ");
    push_byte(&mut out, e.addr);
    out.append(" ");
    push_byte(&mut out, e.len);
    out.append("  ->");
    match &e.got {
        Ok(b) => {
            push_spaced(&mut out, b.as_slice());
            if ones(b.as_slice()) {
                out.append("   <-- all ff: no answer, not a version");
            } else if e.len == 2 {
                out.append("   = v");
                text::push_decimal(&mut out, b[1] as u64);
                out.append(".");
                text::push_decimal(&mut out, b[0] as u64);
            }
        },
        Err(err) => {
            out.append(" ");
            out.append(error_name(err));
        },
    }
    assert(out@ =~= entry_line(*e));
    out
}

fn push_outcome(out: &mut String, r: &Result<u32, Error>)
    ensures
        final(out)@ == old(out)@ + outcome_word(*r),
{
    match r {
        Ok(v) => {
            out.append("Ok(");
            text::push_decimal(out, *v as u64);
            out.append(")");
        },
        Err(e) => {
            out.append("Err(");
            out.append(error_name(e));
            out.append(")");
        },
    }
    assert(out@ =~= old(out)@ + outcome_word(*r));
}

fn same_bytes(a: &[u8; 16], b: &[u8; 16]) -> (r: bool)
    ensures
        r == (a@ == b@),
{
    let mut i: usize = 0;
    while i < 16
        invariant
            i <= 16,
            forall|j: int| 0 <= j < i ==> #[trigger] a@[j] == b@[j],
        decreases 16 - i,
    {
        if a[i] != b[i] {
            return false;
        }
        i += 1;
    }
    assert(a@ =~= b@);
    true
}

fn describe_register(id: &Identification) -> (r: Vec<String>)
    requires
        id.mask is Ok && id.mask->Ok_0 != 0 ==> id.zero is Some && id.pattern is Some,
    ensures
        text::texts(r@) == register_lines(*id),
{
    let mut lines: Vec<String> = Vec::new();
    assert(text::texts(lines@) =~= Seq::<Seq<char>>::empty());
    let mut out = String::new();
    match id.mask {
        Err(e) => {
            out.append("reader: register probe failed (");
            out.append(error_name(&e));
            out.append(")");
            assert(out@ =~= "reader: register probe failed ("@ + error_word(e) + ")"@);
            text::push_line(&mut lines, out);
        },
        Ok(mask) => {
            if mask == 0 {
                out.append(
                    "reader: register writable mask 0x00000000 — the chip is not answering, not a narrow register",
                );
                assert(out@ =~= register_lines(*id)[0]);
                text::push_line(&mut lines, out);
            } else {
                out.append("reader: register writable mask 0x");
                text::push_hex_word(&mut out, mask);
                out.append(" (");
                text::push_decimal(&mut out, count_bits(mask) as u64);
                out.append(" bits)");
                assert(out@ =~= register_lines(*id)[0]);
                text::push_line(&mut lines, out);
                let pattern: u32 = PATTERN & mask;
                let mut verdict = String::new();
                let survived: bool = match (&id.zero, &id.pattern) {
                    (Some(Ok(z)), Some(Ok(v))) => *z == 0 && *v == pattern && pattern != 0,
                    _ => false,
                };
                if survived {
                    verdict.append("reader: register round trip ok (0x");
                    text::push_hex_word(&mut verdict, pattern);
                    verdict.append(") — framing proven");
                } else {
                    verdict.append("reader: round trip suspect, zero=");
                    if let Some(z) = &id.zero {
                        push_outcome(&mut verdict, z);
                    }
                    verdict.append(" pattern=");
                    if let Some(p) = &id.pattern {
                        push_outcome(&mut verdict, p);
                    }
                }
                assert(verdict@ =~= register_lines(*id)[1]);
                text::push_line(&mut lines, verdict);
            }
        },
    }
    assert(text::texts(lines@) =~= register_lines(*id));
    lines
}

fn line_of(t: &str) -> (r: String)
    ensures
        r@ == t@,
{
    let mut out = String::new();
    out.append(t);
    assert(out@ =~= t@);
    out
}

/// What to log of an identification.
///
/// The raw bytes as well as the decoded values, because during bring-up the interesting cases
/// are the ones decoding hides: all-`ff` is an absent or unpowered chip, all-`00` is MISO stuck
/// low, and a plausible-looking value shifted by one byte is a handshake that returned early.
pub fn describe(id: &Identification) -> (r: Vec<String>)
    requires
        forall|k: int|
            0 <= k < id.entries@.len() ==> ((#[trigger] id.entries@[k]).len == 2
                && id.entries@[k].got is Ok ==> id.entries@[k].got->Ok_0@.len() >= 2),
        id.mask is Ok && id.mask->Ok_0 != 0 ==> id.zero is Some && id.pattern is Some,
    ensures
        text::texts(r@) == identification_lines(*id),
{
    let mut lines: Vec<String> = Vec::new();
    let mut first = line_of("reader: BUSY idle level = ");
    first.append(
        match id.idle {
            None => "None",
            Some(b) => if b {
                "Some(true)"
            } else {
                "Some(false)"
            },
        },
    );
    assert(text::texts(lines@) =~= Seq::<Seq<char>>::empty());
    text::push_line(&mut lines, first);
    let ghost entry_lines = Seq::new(id.entries@.len(), |k: int| entry_line(id.entries@[k]));
    let ghost head = seq!["reader: BUSY idle level = "@ + level_word(id.idle)];
    assert(text::texts(lines@) =~= head + entry_lines.take(0));
    let mut k: usize = 0;
    while k < id.entries.len()
        invariant
            k <= id.entries@.len(),
            entry_lines == Seq::new(id.entries@.len(), |k: int| entry_line(id.entries@[k])),
            forall|k: int|
                0 <= k < id.entries@.len() ==> ((#[trigger] id.entries@[k]).len == 2
                    && id.entries@[k].got is Ok ==> id.entries@[k].got->Ok_0@.len() >= 2),
            text::texts(lines@) == head + entry_lines.take(k as int),
        decreases id.entries@.len() - k,
    {
        let line = describe_entry(&id.entries[k]);
        text::push_line(&mut lines, line);
        assert(text::texts(lines@) =~= head + entry_lines.take(k + 1));
        k += 1;
    }
    assert(entry_lines.take(k as int) =~= entry_lines);
    let busy = line_of(
        if !id.wired {
            "reader: BUSY not wired — timing is a fixed delay, not a handshake"
        } else if id.acknowledged {
            "reader: BUSY asserted — the chip is acknowledging"
        } else {
            "reader: BUSY never went high — no acknowledgement"
        },
    );
    text::push_line(&mut lines, busy);
    let mut more: Vec<String> = describe_register(id);
    let ghost so_far = text::texts(lines@);
    lines.append(&mut more);
    assert(text::texts(lines@) =~= so_far + register_lines(*id));
    let die: String = match &id.dies {
        None => line_of("reader: repeat die id read failed"),
        Some((a, b)) => {
            if same_bytes(a, b) {
                line_of("reader: die id stable across repeats")
            } else {
                let mut out = line_of("reader: die id UNSTABLE, second read");
                push_spaced(&mut out, b.as_slice());
                out
            }
        },
    };
    assert(die@ =~= die_line(*id));
    text::push_line(&mut lines, die);
    assert(text::texts(lines@) =~= identification_lines(*id));
    lines
}

/// Ask the chip who it is, and say what to log of it.
pub fn identify<S: SpiBus, B: BusyPin, D: Delay>(reader: &mut Pn5180<S, B, D>) -> (r: Vec<String>)
    ensures
        old(reader).kept(*final(reader)),
        exists|id: Identification|
            #[trigger] identified(*old(reader), *final(reader), id) && text::texts(r@)
                == identification_lines(id),
{
    let id = interview(reader);
    describe(&id)
}

/// How switching the field on went.
pub enum RfStart {
    /// ISO 14443A was asked for.
    Cards(Result<(), Error>),
    /// The configuration could not be loaded.
    NotConfigured(Error),
    /// The field could not be switched on.
    NotOn(Error),
    /// `RF_STATUS` before, configured and after, and `IRQ_STATUS` after.
    Up {
        before: Result<u32, Error>,
        configured: Result<u32, Error>,
        after: Result<u32, Error>,
        irq: Result<u32, Error>,
    },
}

/// What is logged of switching the field on. Bit 9 of the interrupt status is raised by the
/// transmitter actually coming up.
pub open spec fn rf_lines(s: RfStart) -> Seq<Seq<char>> {
    match s {
        RfStart::Cards(Ok(_)) => seq!["reader: ISO 14443A field on"@],
        RfStart::Cards(Err(e)) => seq![
            "reader: could not start ISO 14443A ("@ + error_word(e) + ")"@,
        ],
        RfStart::NotConfigured(e) => seq![
            "reader: load_rf_config failed ("@ + error_word(e) + ")"@,
        ],
        RfStart::NotOn(e) => seq!["reader: field_on failed ("@ + error_word(e) + ")"@],
        RfStart::Up { before, configured, after, irq } => seq![
            match irq {
                Ok(v) => "reader: irq after RF_ON = 0x"@ + text::hex_word(v) + " -> field "@
                    + if v / 512 % 2 == 1 {
                    "CAME UP"@
                } else {
                    "did NOT come up"@
                },
                Err(e) => "reader: irq read failed ("@ + error_word(e) + ")"@,
            },
        ] + if before is Ok && configured is Ok && after is Ok {
            let (b, c, a) = (before->Ok_0, configured->Ok_0, after->Ok_0);
            seq![
                "reader: rf_status idle=0x"@ + text::hex_word(b) + " configured=0x"@
                    + text::hex_word(c) + " field_on=0x"@ + text::hex_word(a),
                if c ^ a == 0 {
                    "reader: RF_ON changed nothing — the transmitter did not come up"@
                } else {
                    "reader: RF_ON toggled 0x"@ + text::hex_word(c ^ a)
                },
            ]
        } else {
            seq!["reader: rf_status read failed"@]
        },
    }
}

fn failure(what: &str, e: &Error) -> (r: String)
    ensures
        r@ == what@ + error_word(*e) + ")"@,
{
    let mut out = line_of(what);
    out.append(error_name(e));
    out.append(")");
    out
}

/// What to log of switching the field on.
pub fn describe_rf(s: &RfStart) -> (r: Vec<String>)
    ensures
        text::texts(r@) == rf_lines(*s),
{
    let mut lines: Vec<String> = Vec::new();
    assert(text::texts(lines@) =~= Seq::<Seq<char>>::empty());
    match s {
        RfStart::Cards(Ok(_)) => {
            text::push_line(&mut lines, line_of("reader: ISO 14443A field on"));
        },
        RfStart::Cards(Err(e)) => {
            text::push_line(&mut lines, failure("reader: could not start ISO 14443A (", e));
        },
        RfStart::NotConfigured(e) => {
            text::push_line(&mut lines, failure("reader: load_rf_config failed (", e));
        },
        RfStart::NotOn(e) => {
            text::push_line(&mut lines, failure("reader: field_on failed (", e));
        },
        RfStart::Up { before, configured, after, irq } => {
            let first: String = match irq {
                Ok(v) => {
                    let mut out = line_of("reader: irq after RF_ON = 0x");
                    text::push_hex_word(&mut out, *v);
                    out.append(" -> field ");
                    if *v / 512 % 2 == 1 {
                        out.append("CAME UP");
                    } else {
                        out.append("did NOT come up");
                    }
                    out
                },
                Err(e) => failure("reader: irq read failed (", e),
            };
            assert(first@ =~= rf_lines(*s)[0]);
            text::push_line(&mut lines, first);
            match (before, configured, after) {
                (Ok(b), Ok(c), Ok(a)) => {
                    let mut out = line_of("reader: rf_status idle=0x");
                    text::push_hex_word(&mut out, *b);
                    out.append(" configured=0x");
                    text::push_hex_word(&mut out, *c);
                    out.append(" field_on=0x");
                    text::push_hex_word(&mut out, *a);
                    assert(out@ =~= rf_lines(*s)[1]);
                    text::push_line(&mut lines, out);
                    let changed: u32 = *c ^ *a;
                    let mut verdict = String::new();
                    if changed == 0 {
                        verdict.append(
                            "reader: RF_ON changed nothing — the transmitter did not come up",
                        );
                    } else {
                        verdict.append("reader: RF_ON toggled 0x");
                        text::push_hex_word(&mut verdict, changed);
                    }
                    assert(verdict@ =~= rf_lines(*s)[2]);
                    text::push_line(&mut lines, verdict);
                },
                _ => {
                    text::push_line(&mut lines, line_of("reader: rf_status read failed"));
                },
            }
        },
    }
    assert(text::texts(lines@) =~= rf_lines(*s));
    lines
}

/// Whether a time passed, in microseconds.
#[verifier::opaque]
pub open spec fn waited<S: SpiBus, B: BusyPin, D: Delay>(
    before: Pn5180<S, B, D>,
    after: Pn5180<S, B, D>,
    us: u32,
) -> bool {
    before.paused(after, us)
}

/// Whether a command was sent, or why it was not.
#[verifier::opaque]
pub open spec fn told<S: SpiBus, B: BusyPin, D: Delay>(
    before: Pn5180<S, B, D>,
    after: Pn5180<S, B, D>,
    frame: Seq<u8>,
    r: Result<(), Error>,
) -> bool {
    before.commanded(after, frame, r)
}

/// Whether a register was read, or why it was not.
#[verifier::opaque]
pub open spec fn asked<S: SpiBus, B: BusyPin, D: Delay>(
    before: Pn5180<S, B, D>,
    after: Pn5180<S, B, D>,
    register: u8,
    r: Result<u32, Error>,
) -> bool {
    before.consulted(after, register, r)
}

/// Whether the field was switched on for tags through these states of the chip: the field
/// dropped and left to decay, the status read, the configuration loaded, the status read again,
/// the interrupts cleared, the field switched on and left to ramp, and the status and the
/// interrupts read.
pub open spec fn ramp<S: SpiBus, B: BusyPin, D: Delay>(p: Seq<Pn5180<S, B, D>>, r: RfStart) -> bool {
    &&& p.len() >= 5
    &&& exists|off: Result<(), Error>|
        #[trigger] told(p[0], p[1], field_dropped(), off)
    &&& waited(p[1], p[2], 20_000)
    &&& match r {
        RfStart::Cards(_) => false,
        RfStart::NotConfigured(e) => {
            &&& p.len() == 5
            &&& exists|v: Result<u32, Error>| #[trigger] asked(p[2], p[3], reg::RF_STATUS, v)
            &&& told(p[3], p[4], driver::tags_configured(), Err(e))
        },
        RfStart::NotOn(e) => {
            &&& p.len() == 8
            &&& exists|v: Result<u32, Error>| #[trigger] asked(p[2], p[3], reg::RF_STATUS, v)
            &&& told(p[3], p[4], driver::tags_configured(), Ok(()))
            &&& exists|v: Result<u32, Error>| #[trigger] asked(p[4], p[5], reg::RF_STATUS, v)
            &&& exists|c: Result<(), Error>| #[trigger] told(p[5], p[6], driver::irqs_cleared(), c)
            &&& told(p[6], p[7], field_raised(), Err(e))
        },
        RfStart::Up { before, configured, after, irq } => {
            &&& p.len() == 11
            &&& asked(p[2], p[3], reg::RF_STATUS, before)
            &&& told(p[3], p[4], driver::tags_configured(), Ok(()))
            &&& asked(p[4], p[5], reg::RF_STATUS, configured)
            &&& exists|c: Result<(), Error>| #[trigger] told(p[5], p[6], driver::irqs_cleared(), c)
            &&& told(p[6], p[7], field_raised(), Ok(()))
            &&& waited(p[7], p[8], 20_000)
            &&& asked(p[8], p[9], reg::RF_STATUS, after)
            &&& asked(p[9], p[10], reg::IRQ_STATUS, irq)
        },
    }
}

/// The command that drops the field.
pub open spec fn field_dropped() -> Seq<u8> {
    seq![cmd::RF_OFF, 0u8]
}

/// The command that raises the field.
pub open spec fn field_raised() -> Seq<u8> {
    seq![cmd::RF_ON, 0u8]
}

/// Whether this is how switching the field on went, between two states of the chip.
pub open spec fn switched_on<S: SpiBus, B: BusyPin, D: Delay>(
    before: Pn5180<S, B, D>,
    after: Pn5180<S, B, D>,
    cards: bool,
    r: RfStart,
) -> bool {
    if cards {
        match r {
            RfStart::Cards(begun) => before.begun(
                after,
                0x00,
                0x80,
                driver::opening_for_cards(),
                begun,
            ),
            _ => false,
        }
    } else {
        before.kept(after) && exists|p: Seq<Pn5180<S, B, D>>|
            #[trigger] ramp(p, r) && p[0] == before && p.last() == after
    }
}

/// Switching the field on sends nothing over the air.
proof fn lemma_ramp_is_quiet<S: SpiBus, B: BusyPin, D: Delay>(p: Seq<Pn5180<S, B, D>>, r: RfStart)
    requires
        ramp(p, r),
    ensures
        p[0].kept(p.last()),
{
    reveal(told);
    reveal(asked);
    reveal(waited);
    lemma_kept_along(p, p.len() - 1);
}

/// What is kept from each state to the next is kept from the first to the last.
proof fn lemma_kept_along<S: SpiBus, B: BusyPin, D: Delay>(p: Seq<Pn5180<S, B, D>>, n: int)
    requires
        0 < n < p.len(),
        forall|i: int| #![trigger p[i]] 0 <= i < n ==> p[i].kept(p[i + 1]),
    ensures
        p[0].kept(p[n]),
    decreases n,
{
    if n > 1 {
        lemma_kept_along(p, n - 1);
        lemma_kept(p[0], p[n - 1], p[n]);
    }
}

fn ask<S: SpiBus, B: BusyPin, D: Delay>(reader: &mut Pn5180<S, B, D>, register: u8) -> (r: Result<
    u32,
    Error,
>)
    ensures
        asked(*old(reader), *final(reader), register, r),
{
    proof {
        reveal(asked);
    }
    reader.read_register(register)
}

fn drop_field<S: SpiBus, B: BusyPin, D: Delay>(reader: &mut Pn5180<S, B, D>) -> (r: Result<
    (),
    Error,
>)
    ensures
        told(*old(reader), *final(reader), field_dropped(), r),
{
    proof {
        reveal(told);
    }
    reader.field_off()
}

fn raise_field<S: SpiBus, B: BusyPin, D: Delay>(reader: &mut Pn5180<S, B, D>) -> (r: Result<
    (),
    Error,
>)
    ensures
        told(*old(reader), *final(reader), field_raised(), r),
{
    proof {
        reveal(told);
    }
    reader.field_on()
}

fn configure_for_tags<S: SpiBus, B: BusyPin, D: Delay>(reader: &mut Pn5180<S, B, D>) -> (r: Result<
    (),
    Error,
>)
    ensures
        told(*old(reader), *final(reader), driver::tags_configured(), r),
{
    proof {
        reveal(told);
    }
    reader.load_rf_config(0x0d, 0x8d)
}

fn clear_irqs<S: SpiBus, B: BusyPin, D: Delay>(reader: &mut Pn5180<S, B, D>) -> (r: Result<
    (),
    Error,
>)
    ensures
        told(*old(reader), *final(reader), driver::irqs_cleared(), r),
{
    proof {
        reveal(told);
    }
    reader.clear_all_irqs()
}

/// Let twenty milliseconds pass.
fn pause<S: SpiBus, B: BusyPin, D: Delay>(reader: &mut Pn5180<S, B, D>)
    ensures
        waited(*old(reader), *final(reader), 20_000),
{
    proof {
        reveal(waited);
    }
    reader.delay_ms(20);
}

/// Configure the RF front end and switch the field on.
///
/// Reads `RF_STATUS` either side of each step, so which bit means "transmitter on" is a
/// measurement rather than a guess. The field is dropped first, since switching on a field that
/// is already up raises no interrupt, and given time to ramp.
pub fn switch_on<S: SpiBus, B: BusyPin, D: Delay>(reader: &mut Pn5180<S, B, D>, cards: bool) -> (r:
    RfStart)
    ensures
        switched_on(*old(reader), *final(reader), cards, r),
{
    if cards {
        return RfStart::Cards(reader.begin_iso14443a());
    }
    let ghost s0 = *reader;
    let off: Result<(), Error> = drop_field(reader);
    let ghost s1 = *reader;
    assert(told(s0, s1, field_dropped(), off));
    pause(reader);
    let ghost s2 = *reader;
    let before: Result<u32, Error> = ask(reader, reg::RF_STATUS);
    let ghost s3 = *reader;
    assert(asked(s2, s3, reg::RF_STATUS, before));
    let loaded: Result<(), Error> = configure_for_tags(reader);
    if let Err(e) = loaded {
        let r = RfStart::NotConfigured(e);
        proof {
            let p = seq![s0, s1, s2, s3, *reader];
            assert(ramp(p, r));
            lemma_ramp_is_quiet(p, r);
        }
        return r;
    }
    let ghost s4 = *reader;
    assert(loaded->Ok_0 == ());
    assert(loaded == Ok::<(), Error>(()));
    let configured: Result<u32, Error> = ask(reader, reg::RF_STATUS);
    let ghost s5 = *reader;
    assert(asked(s4, s5, reg::RF_STATUS, configured));
    let cleared: Result<(), Error> = clear_irqs(reader);
    let ghost s6 = *reader;
    assert(told(s5, s6, driver::irqs_cleared(), cleared));
    let raised: Result<(), Error> = raise_field(reader);
    if let Err(e) = raised {
        let r = RfStart::NotOn(e);
        proof {
            let p = seq![s0, s1, s2, s3, s4, s5, s6, *reader];
            assert(ramp(p, r));
            lemma_ramp_is_quiet(p, r);
        }
        return r;
    }
    let ghost s7 = *reader;
    assert(raised->Ok_0 == ());
    assert(raised == Ok::<(), Error>(()));
    pause(reader);
    let ghost s8 = *reader;
    let after: Result<u32, Error> = ask(reader, reg::RF_STATUS);
    let ghost s9 = *reader;
    let irq: Result<u32, Error> = ask(reader, reg::IRQ_STATUS);
    let r = RfStart::Up { before, configured, after, irq };
    proof {
        let p = seq![s0, s1, s2, s3, s4, s5, s6, s7, s8, s9, *reader];
        assert(ramp(p, r));
        lemma_ramp_is_quiet(p, r);
    }
    r
}

/// Configure the RF front end, switch the field on, and say what to log of it.
pub fn start_rf<S: SpiBus, B: BusyPin, D: Delay>(reader: &mut Pn5180<S, B, D>, cards: bool) -> (r:
    Vec<String>)
    ensures
        exists|s: RfStart|
            #[trigger] switched_on(*old(reader), *final(reader), cards, s) && text::texts(r@)
                == rf_lines(s),
{
    let s = switch_on(reader, cards);
    describe_rf(&s)
}

/// Framing counts as proven only by a value of our own choice that came back: where the register has
/// bits at all, zero came back as zero and a pattern within them as itself.
pub proof fn framing_is_proven_by_what_came_back(id: Identification, mask: u32)
    requires
        id.mask == Ok::<u32, Error>(mask),
        mask != 0,
    ensures
        ({
            let pattern = 0xa5c3_5a5au32 & mask;
            let proven = "reader: register round trip ok (0x"@ + text::hex_word(pattern)
                + ") — framing proven"@;
            &&& register_lines(id).len() == 2
            &&& register_lines(id)[1] == proven <==> id.zero == Some(Ok::<u32, Error>(0))
                && id.pattern == Some(Ok::<u32, Error>(pattern)) && pattern != 0
        }),
{
    reveal_strlit("reader: register round trip ok (0x");
    reveal_strlit("reader: round trip suspect, zero=");
    let pattern = 0xa5c3_5a5au32 & mask;
    let proven = "reader: register round trip ok (0x"@ + text::hex_word(pattern)
        + ") — framing proven"@;
    assert(proven[8] == 'r' && proven[9] == 'e');
    let line = register_lines(id)[1];
    if !(id.zero == Some(Ok::<u32, Error>(0)) && id.pattern == Some(Ok::<u32, Error>(pattern))
        && pattern != 0) {
        assert(line[9] == 'o');
    }
}

/// A version is shown as it stands, the higher byte first, unless nothing answered.
pub proof fn a_version_is_shown_unless_nothing_answered(e: Entry, b: Vec<u8>)
    requires
        e.got == Ok::<Vec<u8>, Error>(b),
        e.len == 2,
        b@.len() == 2,
    ensures
        ({
            let head = "reader: "@ + e.what@ + " <- 07 "@ + text::hex_pair(e.addr) + " "@
                + text::hex_pair(2u8) + "  ->"@;
            entry_line(e) == head + (spaced(b@) + if b@[0] == 255 && b@[1] == 255 {
                "   <-- all ff: no answer, not a version"@
            } else {
                "   = v"@ + text::decimal(b@[1] as nat) + "."@ + text::decimal(b@[0] as nat)
            })
        }),
{
    if b@[0] == 255 && b@[1] == 255 {
        assert(all_ones(b@));
    } else {
        assert(!(b@[0] == 0xff && b@[1] == 0xff));
    }
}

} // verus!
