//! Crash-safe balance journal.
//!
//! An append-only ring of fixed-size records across a few flash sectors. The newest valid
//! record wins on boot, so a power cut costs at most one write interval. Slots are byte
//! slices, and the caller decides where they live.
use crate::wire;
use vstd::prelude::*;

verus! {

/// `MZ`, little-endian.
pub const MAGIC: u16 = 0x5A4D;

/// Fixed on-flash record size. A multiple of four, which flash writes require.
pub const RECORD_LEN: usize = 20;

/// One entry of the journal.
#[derive(Debug, Clone, Copy, PartialEq, Eq, Structural)]
pub struct Record {
    /// Monotonic. At one write per 30 s a `u32` lasts several thousand years, so wraparound
    /// is not handled and does not need to be.
    pub seq: u32,
    pub balance_secs: i32,
    /// Wall clock at the time of writing, used to detect how long the unit was off.
    pub last_tick: i64,
}

/// Everything in a record but its checksum.
pub open spec fn record_head(rec: Record) -> Seq<u8> {
    wire::bytes16(MAGIC) + wire::bytes32(rec.seq) + wire::bytes32(rec.balance_secs as u32)
        + wire::bytes64(rec.last_tick as u64)
}

/// A record as it lies in flash.
pub open spec fn record_bytes(rec: Record) -> Seq<u8> {
    record_head(rec) + wire::bytes16(wire::crc16_of(record_head(rec)))
}

/// The record in a slot, unless it is erased, torn or corrupt.
pub open spec fn record_of(slot: Seq<u8>) -> Option<Record> {
    if slot.len() >= RECORD_LEN && wire::le16(slot, 0) == MAGIC && wire::le16(slot, 18)
        == wire::crc16_of(slot.take(18)) {
        Some(
            Record {
                seq: wire::le32(slot, 2) as u32,
                balance_secs: (wire::le32(slot, 6) as u32) as i32,
                last_tick: (wire::le64(slot, 10) as u64) as i64,
            },
        )
    } else {
        None
    }
}

/// Lay a record out for flash.
pub fn encode(rec: &Record) -> (r: [u8; RECORD_LEN])
    ensures
        r@ == record_bytes(*rec),
{
    let mut b: Vec<u8> = Vec::new();
    wire::put16(&mut b, MAGIC);
    wire::put32(&mut b, rec.seq);
    wire::put32(&mut b, rec.balance_secs as u32);
    wire::put64(&mut b, rec.last_tick as u64);
    assert(b@ =~= record_head(*rec));
    assert(b@.take(18) =~= b@);
    let crc: u16 = wire::crc16(b.as_slice(), 18);
    wire::put16(&mut b, crc);
    wire::to_array(&b)
}

/// Parse one slot. Returns `None` for erased flash, a torn write, or corruption, all of which
/// mean the same thing: skip this slot.
pub fn decode(slot: &[u8]) -> (r: Option<Record>)
    ensures
        r == record_of(slot@),
{
    if slot.len() < RECORD_LEN {
        return None;
    }
    if wire::get16(slot, 0) != MAGIC {
        return None;
    }
    if wire::get16(slot, 18) != wire::crc16(slot, 18) {
        return None;
    }
    Some(
        Record {
            seq: wire::get32(slot, 2),
            balance_secs: wire::get32(slot, 6) as i32,
            last_tick: wire::get64(slot, 10) as i64,
        },
    )
}

proof fn lemma_record_layout(rec: Record)
    ensures
        record_head(rec).len() == 18,
        record_bytes(rec).len() == 20,
        record_bytes(rec).take(18) == record_head(rec),
        wire::le16(record_bytes(rec), 0) == MAGIC,
        wire::le32(record_bytes(rec), 2) == rec.seq,
        wire::le32(record_bytes(rec), 6) == rec.balance_secs as u32,
        wire::le64(record_bytes(rec), 10) == rec.last_tick as u64,
        wire::le16(record_bytes(rec), 18) == wire::crc16_of(record_head(rec)),
{
    let b = record_bytes(rec);
    let tick = rec.last_tick as u64;
    assert(b.take(18) =~= record_head(rec));
    wire::lemma_bytes32(rec.seq);
    wire::lemma_bytes32(rec.balance_secs as u32);
    wire::lemma_bytes32((tick % 0x1_0000_0000) as u32);
    wire::lemma_bytes32((tick / 0x1_0000_0000) as u32);
    assert(b.subrange(2, 6) =~= wire::bytes32(rec.seq));
    assert(b.subrange(6, 10) =~= wire::bytes32(rec.balance_secs as u32));
    assert(b.subrange(10, 14) =~= wire::bytes32((tick % 0x1_0000_0000) as u32));
    assert(b.subrange(14, 18) =~= wire::bytes32((tick / 0x1_0000_0000) as u32));
    assert(wire::le32(b, 2) == wire::le32(b.subrange(2, 6), 0));
    assert(wire::le32(b, 6) == wire::le32(b.subrange(6, 10), 0));
    assert(wire::le32(b, 10) == wire::le32(b.subrange(10, 14), 0));
    assert(wire::le32(b, 14) == wire::le32(b.subrange(14, 18), 0));
}

/// What is read back from a slot is what was written to it.
pub proof fn record_round_trip(rec: Record)
    ensures
        record_of(record_bytes(rec)) == Some(rec),
{
    lemma_record_layout(rec);
    let (bal, tick) = (rec.balance_secs, rec.last_tick);
    assert((bal as u32) as i32 == bal) by (bit_vector);
    assert((tick as u64) as i64 == tick) by (bit_vector);
}

/// A record of which one byte was damaged, in one bit or in several, is not taken for a
/// record.
pub proof fn a_damaged_record_is_rejected(rec: Record, slot: Seq<u8>, i: int)
    requires
        slot.len() == RECORD_LEN,
        0 <= i < RECORD_LEN,
        slot[i] != record_bytes(rec)[i],
        forall|j: int| 0 <= j < RECORD_LEN && j != i ==> slot[j] == record_bytes(rec)[j],
    ensures
        record_of(slot) is None,
{
    lemma_record_layout(rec);
    wire::a_changed_byte_breaks_the_seal(record_bytes(rec), slot, 18, i);
}

/// Erased flash, all ones, is not a record.
pub proof fn erased_flash_is_no_record(slot: Seq<u8>)
    requires
        forall|i: int| 0 <= i < slot.len() ==> #[trigger] slot[i] == 0xff,
    ensures
        record_of(slot) is None,
{
    if slot.len() >= RECORD_LEN {
        assert(slot[0] == 0xff && slot[1] == 0xff);
    }
}

/// Whether a region of slots has its newest record, the first of them, at `found`.
pub open spec fn is_newest(slots: Seq<Seq<u8>>, found: Option<(usize, Record)>) -> bool {
    match found {
        None => forall|j: int| 0 <= j < slots.len() ==> record_of(#[trigger] slots[j]) is None,
        Some((i, rec)) => {
            &&& i < slots.len()
            &&& record_of(slots[i as int]) == Some(rec)
            &&& forall|j: int|
                0 <= j < slots.len() && record_of(#[trigger] slots[j]) is Some ==> record_of(
                    slots[j],
                )->0.seq <= rec.seq
            &&& forall|j: int|
                0 <= j < i && record_of(#[trigger] slots[j]) is Some ==> record_of(slots[j])->0.seq
                    < rec.seq
        },
    }
}

/// The bytes of each slot.
pub open spec fn slot_bytes(slots: Seq<&[u8]>) -> Seq<Seq<u8>> {
    slots.map_values(|s: &[u8]| s@)
}

/// The newest valid record in the region, with its slot index.
pub fn newest(slots: &[&[u8]]) -> (best: Option<(usize, Record)>)
    ensures
        is_newest(slot_bytes(slots@), best),
{
    let mut best: Option<(usize, Record)> = None;
    let mut i: usize = 0;
    while i < slots.len()
        invariant
            i <= slots.len(),
            is_newest(slot_bytes(slots@).take(i as int), best),
        decreases slots.len() - i,
    {
        let ghost before = slot_bytes(slots@).take(i as int);
        let ghost after = slot_bytes(slots@).take(i + 1);
        assert(after =~= before.push(slots@[i as int]@));
        if let Some(rec) = decode(slots[i]) {
            let better: bool = match best {
                None => true,
                Some((_at, b)) => rec.seq > b.seq,
            };
            if better {
                best = Some((i, rec));
            }
        }
        assert(forall|j: int| 0 <= j < before.len() ==> after[j] == #[trigger] before[j]);
        assert(is_newest(after, best));
        i += 1;
    }
    assert(slot_bytes(slots@).take(i as int) =~= slot_bytes(slots@));
    best
}

/// The slot after the newest one, round and round.
pub open spec fn slot_after(newest_index: Option<usize>, total_slots: usize) -> int {
    match newest_index {
        Some(i) => (i + 1) % total_slots as int,
        None => 0,
    }
}

/// Where the next record goes, given where the newest one is.
pub fn next_slot(newest_index: Option<usize>, total_slots: usize) -> (r: usize)
    requires
        newest_index is Some ==> total_slots > 0 && newest_index->0 < usize::MAX,
    ensures
        r == slot_after(newest_index, total_slots),
        total_slots > 0 ==> r < total_slots,
{
    match newest_index {
        Some(i) => (i + 1) % total_slots,
        None => 0,
    }
}

/// Whether a slot is the first of its sector.
pub open spec fn begins_a_sector(slot: usize, slots_per_sector: usize) -> bool {
    slots_per_sector != 0 && slot as int % slots_per_sector as int == 0
}

/// Whether writing `slot` requires erasing its sector first.
///
/// Flash can only clear bits by erasing a whole sector, so the ring erases one sector ahead of
/// itself as it advances. Only true at a sector boundary, which keeps the wear spread out.
pub fn needs_erase(slot: usize, slots_per_sector: usize) -> (r: bool)
    ensures
        r == begins_a_sector(slot, slots_per_sector),
{
    slots_per_sector != 0 && slot % slots_per_sector == 0
}

/// The region after writing `rec` to `slot`, erasing the sector that begins there first.
pub open spec fn after_write(
    region: Seq<Seq<u8>>,
    slot: int,
    slots_per_sector: int,
    rec: Record,
) -> Seq<Seq<u8>> {
    Seq::new(
        region.len(),
        |j: int|
            if j == slot {
                record_bytes(rec)
            } else if slots_per_sector != 0 && slot % slots_per_sector == 0 && slot <= j < slot
                + slots_per_sector {
                Seq::new(RECORD_LEN as nat, |k: int| 0xffu8)
            } else {
                region[j]
            },
    )
}

/// However often the ring has gone round, the record just written is the one found on boot,
/// as long as its number is higher than those before it.
pub proof fn the_newest_record_survives(
    region: Seq<Seq<u8>>,
    slot: int,
    slots_per_sector: int,
    rec: Record,
    found: Option<(usize, Record)>,
)
    requires
        0 <= slot < region.len(),
        forall|j: int|
            0 <= j < region.len() && record_of(#[trigger] region[j]) is Some ==> record_of(
                region[j],
            )->0.seq < rec.seq,
        is_newest(after_write(region, slot, slots_per_sector, rec), found),
    ensures
        found == Some((slot as usize, rec)),
        (found->0).0 == slot,
{
    let after = after_write(region, slot, slots_per_sector, rec);
    record_round_trip(rec);
    erased_flash_is_no_record(Seq::new(RECORD_LEN as nat, |k: int| 0xffu8));
    assert(after[slot] == record_bytes(rec));
    assert forall|j: int| 0 <= j < after.len() && j != slot && record_of(#[trigger] after[j]) is Some
        implies record_of(after[j])->0.seq < rec.seq by {
        assert(after[j] == region[j]);
    }
    assert(found is Some);
    let (i, best) = found->0;
    assert(record_of(after[slot])->0.seq <= best.seq);
}

/// A period during which the unit was not running.
#[derive(Debug, Clone, Copy, PartialEq, Eq, Structural)]
pub struct Outage {
    pub from: i64,
    pub to: i64,
}

impl Outage {
    pub fn secs(&self) -> (r: i64)
        requires
            i64::MIN <= self.to - self.from <= i64::MAX,
        ensures
            r == self.to - self.from,
    {
        self.to - self.from
    }
}

/// The gap between the last journalled tick and now, if it is worth reporting.
pub open spec fn outage_of(last_tick: i64, now: i64, min_secs: i64) -> Option<Outage> {
    if now > last_tick && now - last_tick >= min_secs {
        Some(Outage { from: last_tick, to: now })
    } else {
        None
    }
}

/// Decide whether the gap between the last journalled tick and now is worth reporting.
///
/// The gap itself is never billed, but it is worth telling the parent about, because
/// unplugging the unit is otherwise the obvious way to stop the clock. A backwards clock
/// returns `None`: that is a time correction, not an outage.
pub fn detect_outage(last_tick: i64, now: i64, min_secs: i64) -> (r: Option<Outage>)
    requires
        now - last_tick <= i64::MAX,
    ensures
        r == outage_of(last_tick, now, min_secs),
{
    if now <= last_tick {
        return None;
    }
    let gap: i64 = now - last_tick;
    if gap >= min_secs {
        Some(Outage { from: last_tick, to: now })
    } else {
        None
    }
}

/// A record lies in flash as it always has: the letters `MZ`, the number, the balance and the
/// instant, low byte first, and the checksum of what comes before it.
pub proof fn a_record_lies_in_its_order(rec: Record)
    ensures
        ({
            let b = record_bytes(rec);
            &&& b.len() == 20
            &&& b[0] == 'M' && b[1] == 'Z'
            &&& b.subrange(2, 6) == wire::bytes32(rec.seq)
            &&& b.subrange(6, 10) == wire::bytes32(rec.balance_secs as u32)
            &&& b.subrange(10, 18) == wire::bytes64(rec.last_tick as u64)
            &&& b.skip(18) == wire::bytes16(wire::crc16_of(b.take(18)))
        }),
{
    let b = record_bytes(rec);
    assert(b.take(18) =~= record_head(rec));
    assert(b.subrange(2, 6) =~= wire::bytes32(rec.seq));
    assert(b.subrange(6, 10) =~= wire::bytes32(rec.balance_secs as u32));
    assert(b.subrange(10, 18) =~= wire::bytes64(rec.last_tick as u64));
    assert(b.skip(18) =~= wire::bytes16(wire::crc16_of(b.take(18))));
}

/// What is found is a record that some slot holds, and no slot holds one with a higher number.
/// Nothing is found only where no slot holds a record.
pub proof fn the_highest_number_wins(
    slots: Seq<Seq<u8>>,
    found: Option<(usize, Record)>,
    rec: Record,
    j: int,
)
    requires
        is_newest(slots, found),
        0 <= j < slots.len(),
        slots[j] == record_bytes(rec),
    ensures
        found is Some,
        (found->0).1.seq >= rec.seq,
        (found->0).1.seq == rec.seq ==> (found->0).0 <= j,
        record_of(slots[(found->0).0 as int]) == Some((found->0).1),
{
    record_round_trip(rec);
    assert(record_of(slots[j]) == Some(rec));
}

/// An outage is a gap of at least so many seconds, from the last sign of life to now; a clock that
/// went backwards is none.
pub proof fn an_outage_is_a_gap(last_tick: i64, now: i64, min_secs: i64)
    requires
        min_secs > 0,
    ensures
        outage_of(last_tick, now, min_secs) is Some <==> now - last_tick >= min_secs,
        outage_of(last_tick, now, min_secs) is Some ==> outage_of(last_tick, now, min_secs)->0.to
            - outage_of(last_tick, now, min_secs)->0.from == now - last_tick,
{
}

/// The ring goes on slot by slot, from the first on and from the last back to it, and a sector is
/// erased at each of its first slots and nowhere else.
pub proof fn the_ring_goes_on(newest: usize, total_slots: usize, k: nat, per_sector: usize, slot: usize)
    requires
        newest < total_slots,
        per_sector > 0,
    ensures
        slot_after(None, total_slots) == 0,
        newest + 1 < total_slots ==> slot_after(Some(newest), total_slots) == newest + 1,
        newest + 1 == total_slots ==> slot_after(Some(newest), total_slots) == 0,
        slot == k * per_sector ==> begins_a_sector(slot, per_sector),
        k * per_sector < slot < (k + 1) * per_sector ==> !begins_a_sector(slot, per_sector),
{
    if newest + 1 < total_slots {
        vstd::arithmetic::div_mod::lemma_small_mod((newest + 1) as nat, total_slots as nat);
    } else {
        vstd::arithmetic::div_mod::lemma_mod_self_0(total_slots as int);
    }
    let p = per_sector as int;
    if slot == k * per_sector {
        vstd::arithmetic::div_mod::lemma_mod_multiples_basic(k as int, p);
    } else if k * per_sector < slot < (k + 1) * per_sector {
        let r = slot - k * per_sector;
        assert((k + 1) * per_sector == k * per_sector + per_sector) by (nonlinear_arith);
        vstd::arithmetic::div_mod::lemma_fundamental_div_mod_converse(slot as int, p, k as int, r);
    }
}

} // verus!
