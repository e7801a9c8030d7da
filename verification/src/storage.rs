//! The journal's home in flash, and that of the settings.
//!
//! A dedicated data partition of four sectors: the journal ring in the first three, settings in
//! the last. What to write where is decided here; the flash itself is the caller's.
use crate::balance;
use crate::balance::{Ledger, Policy};
use crate::control;
use crate::journal;
use crate::journal::{Record, RECORD_LEN};
use crate::settings;
use crate::settings::{Settings, SETTINGS_LEN};
use crate::text;
use vstd::prelude::*;

verus! {

/// Start of the partition.
pub const OFFSET: u32 = 0x31_0000;

pub const SIZE: usize = 16_384;

pub const SECTOR: usize = 4_096;

pub const SLOTS_PER_SECTOR: usize = 204;

/// Sectors of the journal ring.
pub const SECTORS: usize = 3;

pub const SLOTS: usize = 612;

/// Settings live in the sector after the journal ring.
pub const SETTINGS_OFFSET: u32 = 0x31_3000;

pub const SETTINGS_SLOTS: usize = 113;

/// What could be read of a slot: nothing where reading failed.
pub open spec fn readable(slots: Seq<Option<Vec<u8>>>) -> Seq<Seq<u8>> {
    slots.map_values(
        |s: Option<Vec<u8>>|
            match s {
                Some(b) => b@,
                None => Seq::empty(),
            },
    )
}

/// The bookkeeping of the journal ring.
#[derive(Debug, Clone, Copy, PartialEq, Eq)]
pub struct Journal {
    pub newest_index: Option<usize>,
    pub seq: u32,
}

/// Where a record goes, and what has to be erased first.
#[derive(Debug, Clone, Copy, PartialEq, Eq)]
pub struct Place {
    pub slot: usize,
    /// Address of the sector to erase, if the ring enters it.
    pub erase: Option<u32>,
    /// Address of the record.
    pub addr: u32,
}

/// Which part of an append was tried last.
#[derive(Debug, Clone, Copy, PartialEq, Eq)]
pub enum Appending {
    /// The sector that the ring enters was erased, for this balance as of this time.
    Erasing { place: Place, balance_secs: i32, last_tick: i64 },
    /// The record was written.
    Writing { place: Place },
}

/// What to do next for an append. Whoever owns the flash does it and says what went wrong, if
/// anything did.
pub enum Append {
    /// Blank the sector at an address.
    Erase { addr: u32, then: Appending },
    /// Write a record to an address.
    Write { addr: u32, bytes: [u8; RECORD_LEN], then: Appending },
    /// Nothing more. There may be something to log.
    Done { line: Option<String> },
}

impl Journal {
    pub open spec fn wf(self) -> bool {
        self.newest_index is Some ==> self.newest_index->0 < SLOTS
    }

    /// The slot after the newest one.
    pub open spec fn next_slot(self) -> int {
        match self.newest_index {
            Some(i) => (i + 1) % (SLOTS as int),
            None => 0,
        }
    }

    /// Recover the newest surviving record from what could be read of the slots. Says what to
    /// log.
    pub fn open(slots: &[Option<Vec<u8>>]) -> (r: (Self, Option<Record>, String))
        requires
            slots@.len() <= SLOTS,
        ensures
            r.0.wf(),
            ({
                let found = match (r.0.newest_index, r.1) {
                    (Some(i), Some(rec)) => Some((i, rec)),
                    _ => None,
                };
                &&& journal::is_newest(readable(slots@), found)
                &&& r.0.newest_index is Some == r.1 is Some
                &&& r.0.seq == match r.1 {
                    Some(rec) => rec.seq,
                    None => 0,
                }
                &&& r.2@ == match r.1 {
                    Some(rec) => "journal: recovered balance "@ + text::signed(
                        rec.balance_secs as int,
                    ) + "s from slot "@ + text::decimal(r.0.newest_index->0 as nat) + ", seq "@
                        + text::decimal(rec.seq as nat),
                    None => "journal: empty, starting fresh"@,
                }
            }),
    {
        let mut best: Option<(usize, Record)> = None;
        let mut i: usize = 0;
        while i < slots.len()
            invariant
                i <= slots@.len() <= SLOTS,
                journal::is_newest(readable(slots@).take(i as int), best),
                best is Some ==> (best->0).0 < i,
            decreases slots@.len() - i,
        {
            let ghost before = readable(slots@).take(i as int);
            let ghost after = readable(slots@).take(i + 1);
            let rec: Option<Record> = match &slots[i] {
                Some(b) => journal::decode(b.as_slice()),
                None => None,
            };
            proof {
                assert(after =~= before.push(readable(slots@)[i as int]));
                assert(rec == journal::record_of(after[i as int]));
            }
            if let Some(rec) = rec {
                let better: bool = match best {
                    None => true,
                    Some((_at, b)) => rec.seq > b.seq,
                };
                if better {
                    best = Some((i, rec));
                }
            }
            assert(forall|j: int| 0 <= j < before.len() ==> after[j] == #[trigger] before[j]);
            assert(journal::is_newest(after, best));
            i += 1;
        }
        assert(readable(slots@).take(i as int) =~= readable(slots@));
        let mut line = String::new();
        match best {
            Some((i, rec)) => {
                line.append("journal: recovered balance ");
                text::push_signed(&mut line, rec.balance_secs as i64);
                line.append("s from slot ");
                text::push_decimal(&mut line, i as u64);
                line.append(", seq ");
                text::push_decimal(&mut line, rec.seq as u64);
                (Journal { newest_index: Some(i), seq: rec.seq }, Some(rec), line)
            },
            None => {
                line.append("journal: empty, starting fresh");
                assert(line@ =~= "journal: empty, starting fresh"@);
                (Journal { newest_index: None, seq: 0 }, None, line)
            },
        }
    }

    /// Whether the next record goes here. Neither it nor what is erased for it reaches into the
    /// settings.
    pub open spec fn is_place(self, r: Place) -> bool {
        &&& r.slot == self.next_slot()
        &&& r.slot < SLOTS
        &&& r.addr == OFFSET + r.slot * RECORD_LEN
        &&& r.addr + RECORD_LEN <= SETTINGS_OFFSET
        &&& r.erase is Some <==> r.slot as int % SLOTS_PER_SECTOR as int == 0
        &&& r.erase is Some ==> r.erase->0 == OFFSET + r.slot as int / SLOTS_PER_SECTOR as int
            * SECTOR && r.erase->0 + SECTOR <= SETTINGS_OFFSET
    }

    /// Where the next record goes. The sector is erased when the ring advances into it.
    pub fn place(&self) -> (r: Place)
        requires
            self.wf(),
        ensures
            self.is_place(r),
    {
        let slot: usize = journal::next_slot(self.newest_index, SLOTS);
        let erase: Option<u32> = if journal::needs_erase(slot, SLOTS_PER_SECTOR) {
            Some(OFFSET + (slot / SLOTS_PER_SECTOR * SECTOR) as u32)
        } else {
            None
        };
        Place { slot, erase, addr: OFFSET + (slot * RECORD_LEN) as u32 }
    }

    /// Whether the next record is written. Its number is used up whether or not that works.
    pub open spec fn writes(
        self,
        after: Self,
        place: Place,
        balance_secs: i32,
        last_tick: i64,
        r: Append,
    ) -> bool {
        &&& after == (Journal { seq: ((self.seq + 1) % 0x1_0000_0000) as u32, ..self })
        &&& r is Write
        &&& r->Write_addr == place.addr
        &&& r->bytes@ == journal::record_bytes(Record { seq: after.seq, balance_secs, last_tick })
        &&& r->Write_then == (Appending::Writing { place })
    }

    fn write(&mut self, place: Place, balance_secs: i32, last_tick: i64) -> (r: Append)
        ensures
            old(self).writes(*final(self), place, balance_secs, last_tick, r),
    {
        self.seq = self.seq.wrapping_add(1);
        let bytes: [u8; RECORD_LEN] = journal::encode(
            &Record { seq: self.seq, balance_secs, last_tick },
        );
        Append::Write { addr: place.addr, bytes, then: Appending::Writing { place } }
    }

    /// Append one record: the first thing to do for it. The next sector is erased when the ring
    /// advances into it.
    pub fn append(&mut self, balance_secs: i32, last_tick: i64) -> (r: Append)
        requires
            old(self).wf(),
        ensures
            final(self).wf(),
            exists|place: Place| #[trigger]
                old(self).is_place(place) && match place.erase {
                    Some(sector) => {
                        &&& *final(self) == *old(self)
                        &&& r is Erase
                        &&& r->Erase_addr == sector
                        &&& r->Erase_then == (Appending::Erasing {
                            place,
                            balance_secs,
                            last_tick,
                        })
                    },
                    None => old(self).writes(*final(self), place, balance_secs, last_tick, r),
                },
    {
        let place: Place = self.place();
        assert(old(self).is_place(place));
        match place.erase {
            Some(sector) => Append::Erase {
                addr: sector,
                then: Appending::Erasing { place, balance_secs, last_tick },
            },
            None => self.write(place, balance_secs, last_tick),
        }
    }

    /// The ring once a record was tried at a place.
    pub open spec fn tried(self, place: Place, worked: bool) -> Journal {
        if worked {
            Journal { newest_index: Some(place.slot), ..self }
        } else {
            self
        }
    }

    /// What to do once a part of an append was tried, given what the flash reported where that
    /// failed. A sector that could not be erased is not written to. A record counts only once it
    /// was written, so the next append retries the same slot rather than silently skipping a
    /// position in the ring.
    pub fn after(&mut self, state: Appending, failure: Option<&str>) -> (r: Append)
        requires
            old(self).wf(),
            state matches Appending::Writing { place } ==> place.slot < SLOTS,
        ensures
            final(self).wf(),
            match state {
                Appending::Erasing { place, balance_secs, last_tick } => match failure {
                    None => old(self).writes(*final(self), place, balance_secs, last_tick, r),
                    Some(why) => {
                        &&& *final(self) == *old(self)
                        &&& r is Done
                        &&& r->line is Some
                        &&& r->line->0@ == "journal: sector erase failed ("@ + why@ + ")"@
                    },
                },
                Appending::Writing { place } => {
                    &&& *final(self) == old(self).tried(place, failure is None)
                    &&& r is Done
                    &&& r->line is Some <==> failure is Some
                    &&& failure is Some ==> r->line->0@ == "journal: write failed ("@ + failure->0@
                        + ")"@
                },
            },
    {
        match state {
            Appending::Erasing { place, balance_secs, last_tick } => match failure {
                None => self.write(place, balance_secs, last_tick),
                Some(why) => {
                    let mut line: String = "journal: sector erase failed (".to_owned();
                    line.append(why);
                    line.append(")");
                    Append::Done { line: Some(line) }
                },
            },
            Appending::Writing { place } => match failure {
                None => {
                    self.newest_index = Some(place.slot);
                    Append::Done { line: None }
                },
                Some(why) => {
                    let mut line: String = "journal: write failed (".to_owned();
                    line.append(why);
                    line.append(")");
                    Append::Done { line: Some(line) }
                },
            },
        }
    }
}

/// The ring after `n` more records were written.
pub open spec fn after_writes(j: Journal, n: nat) -> Journal
    decreases n,
{
    if n == 0 {
        j
    } else {
        let before = after_writes(j, (n - 1) as nat);
        Journal { newest_index: Some(before.next_slot() as usize), ..before }
    }
}

/// The ring uses every slot before it uses one again: after `n` records the newest is `n` slots
/// further round, so fewer records than there are slots never overwrite one another.
pub proof fn the_ring_goes_round(j: Journal, n: nat)
    requires
        j.wf(),
        j.newest_index is Some,
    ensures
        after_writes(j, n).wf(),
        after_writes(j, n).newest_index == Some(
            ((j.newest_index->0 + n) % SLOTS as int) as usize,
        ),
        0 < n < SLOTS ==> after_writes(j, n).newest_index != j.newest_index,
        n == SLOTS ==> after_writes(j, n).newest_index == j.newest_index,
    decreases n,
{
    if n > 0 {
        the_ring_goes_round(j, (n - 1) as nat);
        let so_far = j.newest_index->0 + n - 1;
        vstd::arithmetic::div_mod::lemma_add_mod_noop(so_far, 1, SLOTS as int);
    }
}

/// Whether a region of slots has its newest settings, the first of them, at `found`.
pub open spec fn is_newest(slots: Seq<Seq<u8>>, found: Option<(usize, Settings)>) -> bool {
    match found {
        None => forall|j: int|
            0 <= j < slots.len() ==> settings::settings_of(#[trigger] slots[j]) is None,
        Some((i, s)) => {
            &&& i < slots.len()
            &&& settings::settings_of(slots[i as int]) == Some(s)
            &&& forall|j: int|
                0 <= j < slots.len() && settings::settings_of(#[trigger] slots[j]) is Some
                    ==> settings::settings_of(slots[j])->0.seq <= s.seq
            &&& forall|j: int|
                0 <= j < i && settings::settings_of(#[trigger] slots[j]) is Some
                    ==> settings::settings_of(slots[j])->0.seq < s.seq
        },
    }
}

/// Stored [`Settings`], in their own sector.
///
/// Slots are filled in turn and the newest valid one wins, so the previous settings survive a
/// failed save. The exception is the save that goes round to the first slot: a sector is erased as
/// a whole, so until that save is written no settings are stored at all.
#[derive(Debug, Clone, Copy, PartialEq, Eq)]
pub struct SettingsStore {
    pub newest: Option<usize>,
    pub seq: u32,
}

/// Settings on their way into a slot.
#[derive(Debug, Clone, Copy)]
pub struct Save {
    pub slot: usize,
    /// Whether the sector at [`SETTINGS_OFFSET`] has to be erased first.
    pub erase: bool,
    pub addr: u32,
    pub bytes: [u8; SETTINGS_LEN],
    /// What is being saved, with its number.
    pub settings: Settings,
}

/// Which part of a save was tried last.
#[derive(Debug, Clone, Copy)]
pub enum Saving {
    /// The sector was erased.
    Erasing { save: Save },
    /// The settings were written.
    Writing { save: Save },
}

/// What to do next for a save. Whoever owns the flash does it and says whether it worked.
pub enum Saves {
    /// Blank the sector of the settings.
    Erase { then: Saving },
    /// Write to an address.
    Write { addr: u32, bytes: [u8; SETTINGS_LEN], then: Saving },
    /// Nothing more: whether the settings are stored, and what to log.
    Done { saved: bool, line: String },
}

impl SettingsStore {
    pub open spec fn wf(self) -> bool {
        self.newest is Some ==> self.newest->0 < SETTINGS_SLOTS
    }

    /// Read the newest valid settings, if any have ever been stored. Says what to log.
    pub fn open(slots: &[Option<Vec<u8>>]) -> (r: (Self, Option<Settings>, String))
        requires
            slots@.len() <= SETTINGS_SLOTS,
        ensures
            r.0.wf(),
            ({
                let found = match (r.0.newest, r.1) {
                    (Some(i), Some(s)) => Some((i, s)),
                    _ => None,
                };
                &&& is_newest(readable(slots@), found)
                &&& r.0.newest is Some == r.1 is Some
                &&& r.0.seq == match r.1 {
                    Some(s) => s.seq,
                    None => 0,
                }
                &&& r.2@ == match r.1 {
                    Some(s) => "settings: loaded from slot "@ + text::decimal(
                        r.0.newest->0 as nat,
                    ) + ", seq "@ + text::decimal(s.seq as nat),
                    None => "settings: none stored, using defaults"@,
                }
            }),
    {
        let mut best: Option<(usize, Settings)> = None;
        let mut i: usize = 0;
        while i < slots.len()
            invariant
                i <= slots@.len() <= SETTINGS_SLOTS,
                is_newest(readable(slots@).take(i as int), best),
                best is Some ==> (best->0).0 < i,
            decreases slots@.len() - i,
        {
            let ghost before = readable(slots@).take(i as int);
            let ghost after = readable(slots@).take(i + 1);
            let found: Option<Settings> = match &slots[i] {
                Some(b) => settings::decode(b.as_slice()),
                None => None,
            };
            proof {
                assert(after =~= before.push(readable(slots@)[i as int]));
                assert(found == settings::settings_of(after[i as int]));
            }
            if let Some(s) = found {
                let better: bool = match best {
                    None => true,
                    Some((_at, b)) => s.seq > b.seq,
                };
                if better {
                    best = Some((i, s));
                }
            }
            assert(forall|j: int| 0 <= j < before.len() ==> after[j] == #[trigger] before[j]);
            assert(is_newest(after, best));
            i += 1;
        }
        assert(readable(slots@).take(i as int) =~= readable(slots@));
        let mut line = String::new();
        match best {
            Some((i, s)) => {
                line.append("settings: loaded from slot ");
                text::push_decimal(&mut line, i as u64);
                line.append(", seq ");
                text::push_decimal(&mut line, s.seq as u64);
                (SettingsStore { newest: Some(i), seq: s.seq }, Some(s), line)
            },
            None => {
                line.append("settings: none stored, using defaults");
                assert(line@ =~= "settings: none stored, using defaults"@);
                (SettingsStore { newest: None, seq: 0 }, None, line)
            },
        }
    }

    /// The slot after the newest one.
    pub open spec fn next_slot(self) -> int {
        match self.newest {
            Some(i) => (i + 1) % (SETTINGS_SLOTS as int),
            None => 0,
        }
    }

    /// Whether this is how settings go into the next slot, under the next number. The sector is
    /// erased on wrap, which is what makes the slots reusable.
    pub open spec fn is_save(self, s: Settings, save: Save) -> bool {
        &&& save.settings == (Settings { seq: ((self.seq + 1) % 0x1_0000_0000) as u32, ..s })
        &&& save.bytes@ == settings::settings_bytes(save.settings)
        &&& save.slot == self.next_slot()
        &&& save.slot < SETTINGS_SLOTS
        &&& save.erase == (save.slot == 0)
        &&& save.addr == SETTINGS_OFFSET + save.slot * SETTINGS_LEN
        &&& save.addr + SETTINGS_LEN <= OFFSET + SIZE
    }

    /// Whether a step writes the settings.
    pub open spec fn writes(save: Save, r: Saves) -> bool {
        &&& r is Write
        &&& r->addr == save.addr
        &&& r->bytes == save.bytes
        &&& r->Write_then == (Saving::Writing { save })
    }

    /// Whether a step is the end.
    pub open spec fn ends(saved: bool, line: Seq<char>, r: Saves) -> bool {
        r is Done && r->saved == saved && r->line@ == line
    }

    /// Store new settings: the first thing to do for it. Refuses values that would break the
    /// ledger.
    pub fn save(&mut self, s: Settings) -> (r: Saves)
        requires
            old(self).wf(),
        ensures
            final(self).wf(),
            final(self).newest == old(self).newest,
            !s.usable() ==> *final(self) == *old(self) && Self::ends(
                false,
                "settings: refused, invalid"@,
                r,
            ),
            s.usable() ==> final(self).seq == (old(self).seq + 1) % 0x1_0000_0000 && exists|
                save: Save,
            | #[trigger]
                old(self).is_save(s, save) && if save.erase {
                    r is Erase && r->Erase_then == (Saving::Erasing { save })
                } else {
                    Self::writes(save, r)
                },
    {
        if !s.valid() {
            return Saves::Done { saved: false, line: "settings: refused, invalid".to_owned() };
        }
        self.seq = self.seq.wrapping_add(1);
        let mut numbered = s;
        numbered.seq = self.seq;
        let slot: usize = match self.newest {
            Some(i) => (i + 1) % SETTINGS_SLOTS,
            None => 0,
        };
        let save = Save {
            slot,
            erase: slot == 0,
            addr: SETTINGS_OFFSET + (slot * SETTINGS_LEN) as u32,
            bytes: settings::encode(&numbered),
            settings: numbered,
        };
        assert(old(self).is_save(s, save));
        if save.erase {
            Saves::Erase { then: Saving::Erasing { save } }
        } else {
            Saves::Write { addr: save.addr, bytes: save.bytes, then: Saving::Writing { save } }
        }
    }

    /// The store once a save was tried.
    pub open spec fn tried(self, save: Save, worked: bool) -> SettingsStore {
        if worked {
            SettingsStore { newest: Some(save.slot), ..self }
        } else {
            self
        }
    }

    /// What to do once a part of a save was tried. Settings count as stored only once they were
    /// written.
    pub fn after(&mut self, state: Saving, worked: bool) -> (r: Saves)
        requires
            old(self).wf(),
            state matches Saving::Writing { save } ==> save.slot < SETTINGS_SLOTS,
        ensures
            final(self).wf(),
            match state {
                Saving::Erasing { save } => {
                    &&& *final(self) == *old(self)
                    &&& if worked {
                        Self::writes(save, r)
                    } else {
                        Self::ends(false, "settings: erase failed"@, r)
                    }
                },
                Saving::Writing { save } => if worked {
                    &&& *final(self) == old(self).tried(save, worked)
                    &&& Self::ends(
                        true,
                        "settings: saved to slot "@ + text::decimal(save.slot as nat) + ", seq "@
                            + text::decimal(save.settings.seq as nat),
                        r,
                    )
                } else {
                    *final(self) == old(self).tried(save, worked) && Self::ends(
                        false,
                        "settings: write failed"@,
                        r,
                    )
                },
            },
    {
        match state {
            Saving::Erasing { save } => {
                if worked {
                    Saves::Write {
                        addr: save.addr,
                        bytes: save.bytes,
                        then: Saving::Writing { save },
                    }
                } else {
                    Saves::Done { saved: false, line: "settings: erase failed".to_owned() }
                }
            },
            Saving::Writing { save } => {
                if !worked {
                    return Saves::Done { saved: false, line: "settings: write failed".to_owned() };
                }
                self.newest = Some(save.slot);
                let mut line: String = "settings: saved to slot ".to_owned();
                text::push_decimal(&mut line, save.slot as u64);
                line.append(", seq ");
                text::push_decimal(&mut line, save.settings.seq as u64);
                Saves::Done { saved: true, line }
            },
        }
    }
}

/// The previous settings survive a save that fails: whatever a torn write leaves in its slot, as
/// long as that does not decode, the next boot finds the settings that were in force. The save
/// that goes round to the first slot is left out, since it erases the sector first.
#[verifier::rlimit(60)]
pub proof fn a_failed_save_keeps_the_settings(
    slots: Seq<Seq<u8>>,
    store: SettingsStore,
    s: Settings,
    save: Save,
    found: (usize, Settings),
    torn: Seq<u8>,
)
    requires
        slots.len() == SETTINGS_SLOTS,
        is_newest(slots, Some(found)),
        store.newest == Some(found.0),
        store.is_save(s, save),
        !save.erase,
        settings::settings_of(torn) is None,
    ensures
        is_newest(slots.update(save.slot as int, torn), Some(found)),
{
    let after = slots.update(save.slot as int, torn);
    assert(save.slot != found.0);
    assert forall|j: int|
        0 <= j < after.len() && settings::settings_of(#[trigger] after[j]) is Some implies after[j]
        == slots[j] by {}
}

/// Settings that were saved are the ones found on the next boot: they have a higher number than
/// those before them, and damage to other slots does not matter.
#[verifier::rlimit(60)]
pub proof fn saved_settings_are_found(
    slots: Seq<Seq<u8>>,
    s: Settings,
    slot: int,
    found: Option<(usize, Settings)>,
)
    requires
        s.usable(),
        0 <= slot < slots.len(),
        slots[slot] == settings::settings_bytes(s),
        forall|j: int|
            0 <= j < slots.len() && j != slot && settings::settings_of(#[trigger] slots[j]) is Some
                ==> settings::settings_of(slots[j])->0.seq < s.seq,
        is_newest(slots, found),
    ensures
        found is Some,
        (found->0).0 == slot,
        (found->0).1 == s,
{
    settings::settings_round_trip(s);
    assert(settings::settings_of(slots[slot]) == Some(s));
    let (i, best) = found->0;
    assert(settings::settings_of(slots[slot])->0.seq <= best.seq);
}

/// The rules to start with: the stored ones, which are the more recent decision, and otherwise
/// the standard ones.
pub fn starting_settings(stored: Option<Settings>) -> (r: Settings)
    ensures
        r == match stored {
            Some(s) => s,
            None => Settings {
                seq: 0,
                refill_num: 1,
                refill_den: 10,
                cap_secs: 10_800,
                floor_secs: 1_800,
                prefill_secs: 1_800,
                grace_secs: 180,
                night_start_minute: 1_260,
                night_end_minute: 390,
            },
        },
{
    match stored {
        Some(s) => s,
        None => Settings::from_policy(&Policy::default(), 0),
    }
}

/// The ledger to start with: the balance that survived, and otherwise the prefill.
pub fn starting_ledger(recovered: Option<Record>, policy: &Policy) -> (r: Ledger<2>)
    ensures
        r.fresh(
            match recovered {
                Some(rec) => rec.balance_secs as int,
                None => policy.first_balance(),
            },
        ),
{
    match recovered {
        Some(rec) => Ledger::with_balance(rec.balance_secs),
        None => Ledger::new(policy),
    }
}

/// Watches for the time that the unit was off. Telling needs a trustworthy wall clock, and the
/// first journal write is the earliest proof that there is one.
pub struct OutageWatch {
    /// When the unit was last known to run, until it has been told.
    pub pending: Option<i64>,
}

impl OutageWatch {
    /// What is left to tell after a journal write was tried.
    pub open spec fn pending_after(self, wrote: bool) -> Option<i64> {
        if wrote {
            None
        } else {
            self.pending
        }
    }

    /// Whether there is something to tell about a journal write that was tried at `t`.
    pub open spec fn tells(self, wrote: bool, t: int) -> bool {
        wrote && self.pending is Some && t - self.pending->0 >= control::OUTAGE_MIN_SECS
    }

    pub fn new(recovered: Option<Record>) -> (r: Self)
        ensures
            r.pending == match recovered {
                Some(rec) => Some(rec.last_tick),
                None => None,
            },
    {
        OutageWatch {
            pending: match recovered {
                Some(rec) => Some(rec.last_tick),
                None => None,
            },
        }
    }

    /// A journal write was tried at `t`. Says what to log and what to tell the parent, once,
    /// where it happened.
    pub fn journalled(&mut self, wrote: bool, t: i64) -> (r: Option<(String, String)>)
        requires
            wrote && old(self).pending is Some ==> t - old(self).pending->0 <= i64::MAX,
        ensures
            final(self).pending == old(self).pending_after(wrote),
            r is Some <==> old(self).tells(wrote, t as int),
            r is Some ==> (r->0).0@ == control::outage_wording(t - old(self).pending->0),
            r is Some ==> (r->0).1@ == control::outage_text(t - old(self).pending->0),
    {
        if !wrote {
            return None;
        }
        match self.pending {
            None => None,
            Some(last_tick) => {
                self.pending = None;
                match (control::outage_line(last_tick, t), control::report_outage(last_tick, t)) {
                    (Some(line), Some(text)) => Some((line, text)),
                    _ => None,
                }
            },
        }
    }
}

/// A record goes to the slot after the newest one, from the first slot of the partition on and round
/// again after the last; the sector that a slot begins is erased first.
pub proof fn a_record_goes_to_the_next_slot(j: Journal, p: Place)
    requires
        j.wf(),
        j.is_place(p),
    ensures
        j.newest_index is None ==> p.slot == 0,
        j.newest_index is Some && j.newest_index->0 < 611 ==> p.slot == j.newest_index->0 + 1,
        j.newest_index == Some(611usize) ==> p.slot == 0,
        p.addr == 0x31_0000 + 20 * p.slot,
        p.erase is Some <==> p.slot == 0 || p.slot == 204 || p.slot == 408,
        p.slot == 0 ==> p.erase->0 == 0x31_0000,
        p.slot == 204 ==> p.erase->0 == 0x31_1000,
        p.slot == 408 ==> p.erase->0 == 0x31_2000,
{
}

/// What is appended is read back as the balance and the instant that were given, under a higher
/// number than the last, while the numbers last.
#[verifier::rlimit(60)]
pub proof fn an_append_is_read_back(
    j: Journal,
    after: Journal,
    place: Place,
    balance_secs: i32,
    last_tick: i64,
    r: Append,
)
    requires
        j.writes(after, place, balance_secs, last_tick, r),
    ensures
        r is Write,
        r->Write_addr == place.addr,
        journal::record_of(r->bytes@) is Some,
        journal::record_of(r->bytes@)->0.balance_secs == balance_secs,
        journal::record_of(r->bytes@)->0.last_tick == last_tick,
        journal::record_of(r->bytes@)->0.seq == after.seq,
        j.seq < u32::MAX ==> after.seq == j.seq + 1,
        after.newest_index == j.newest_index,
{
    journal::record_round_trip(Record { seq: after.seq, balance_secs, last_tick });
}

/// What is saved is read back as the settings that were given, under the number they got.
#[verifier::rlimit(60)]
pub proof fn a_save_is_read_back(store: SettingsStore, s: Settings, save: Save)
    requires
        store.is_save(s, save),
        s.usable(),
    ensures
        settings::settings_of(save.bytes@) == Some(save.settings),
{
    settings::settings_round_trip(save.settings);
}

/// Settings are saved as they were given, under a higher number than the last, while the numbers
/// last, in the slot after the newest one; the sector is erased only to go round.
#[verifier::rlimit(60)]
pub proof fn a_save_goes_to_the_next_slot(store: SettingsStore, s: Settings, save: Save)
    requires
        store.wf(),
        store.is_save(s, save),
    ensures
        save.settings == (Settings { seq: save.settings.seq, ..s }),
        store.seq < u32::MAX ==> save.settings.seq == store.seq + 1,
        save.addr == 0x31_3000 + 36 * save.slot,
        store.newest is None ==> save.slot == 0,
        store.newest is Some && store.newest->0 < 112 ==> save.slot == store.newest->0 + 1,
        store.newest == Some(112usize) ==> save.slot == 0,
        save.erase <==> save.slot == 0,
{
    lemma_slot_after(store);
    if store.seq < u32::MAX {
        vstd::arithmetic::div_mod::lemma_small_mod((store.seq + 1) as nat, 0x1_0000_0000);
    }
}

proof fn lemma_slot_after(store: SettingsStore)
    requires
        store.wf(),
    ensures
        store.newest is None ==> store.next_slot() == 0,
        store.newest is Some && store.newest->0 < 112 ==> store.next_slot() == store.newest->0 + 1,
        store.newest == Some(112usize) ==> store.next_slot() == 0,
{
}

/// An append that failed is tried again at the same place, and one that worked is followed by the
/// next; the number is not taken back either way.
#[verifier::rlimit(60)]
pub proof fn a_failed_append_is_tried_again(j: Journal, p: Place, q: Place, worked: bool)
    requires
        j.wf(),
        j.is_place(p),
        j.tried(p, worked).is_place(q),
    ensures
        !worked ==> q.slot == p.slot && q.addr == p.addr,
        worked && p.slot < 611 ==> q.slot == p.slot + 1,
        worked && p.slot == 611 ==> q.slot == 0,
        j.tried(p, worked).seq == j.seq,
{
}

/// A save that failed is tried again in the same slot, and one that worked is followed by the next.
#[verifier::rlimit(60)]
pub proof fn a_failed_save_is_tried_again(store: SettingsStore, s: Settings, save: Save, worked: bool)
    requires
        store.wf(),
        store.is_save(s, save),
    ensures
        !worked ==> store.tried(save, worked).next_slot() == save.slot,
        worked && save.slot < 112 ==> store.tried(save, worked).next_slot() == save.slot + 1,
        worked && save.slot == 112 ==> store.tried(save, worked).next_slot() == 0,
        store.tried(save, worked).seq == store.seq,
{
}

/// An outage of five minutes or more is told at the first journal write that works, and only then;
/// after that nothing is left to tell.
pub proof fn an_outage_is_told_once(w: OutageWatch, wrote: bool, t: int, next: OutageWatch, u: int)
    requires
        next.pending == w.pending_after(wrote),
    ensures
        w.tells(wrote, t) <==> wrote && w.pending is Some && t - w.pending->0 >= 300,
        wrote ==> !next.tells(true, u) && !next.tells(false, u),
        !wrote ==> next.pending == w.pending,
{
}

} // verus!
