//! Where things are in flash.
use medienzeit::balance::Policy;
use medienzeit::journal::{encode, Record};
use medienzeit::settings::{self, Settings};
use medienzeit::storage::{
    starting_ledger, starting_settings, Append, Journal, OutageWatch, Saves, SettingsStore, OFFSET,
    SECTOR, SETTINGS_OFFSET, SETTINGS_SLOTS, SLOTS,
};

#[test]
fn the_newest_record_is_recovered() {
    let rec = |seq: u32| Record { seq, balance_secs: -(seq as i32), last_tick: seq as i64 };
    let slots = vec![
        Some(encode(&rec(4)).to_vec()),
        Some(encode(&rec(9)).to_vec()),
        None,
        Some(vec![0xff; 20]),
    ];
    let (j, found, line) = Journal::open(&slots);
    assert_eq!(found, Some(rec(9)));
    assert_eq!(j, Journal { newest_index: Some(1), seq: 9 });
    assert_eq!(line, "journal: recovered balance -9s from slot 1, seq 9");
    let (j, found, line) = Journal::open(&[]);
    assert_eq!((j.newest_index, j.seq, found), (None, 0, None));
    assert_eq!(line, "journal: empty, starting fresh");
}

fn written(j: &mut Journal, next: Append) {
    match next {
        Append::Erase { then, .. } => {
            let next = j.after(then, None);
            written(j, next);
        }
        Append::Write { then, .. } => match j.after(then, None) {
            Append::Done { line } => assert_eq!(line, None),
            _ => panic!("a written record is the end"),
        },
        Append::Done { .. } => panic!("nothing was written"),
    }
}

#[test]
fn the_ring_erases_what_it_enters() {
    let mut j = Journal { newest_index: None, seq: u32::MAX };
    let p = j.place();
    assert_eq!((p.slot, p.erase, p.addr), (0, Some(OFFSET), OFFSET));
    let then = match j.append(7, 8) {
        Append::Erase { addr, then } => {
            assert_eq!(addr, OFFSET);
            then
        }
        _ => panic!("the sector is erased first"),
    };
    // Where that fails nothing is written and no number is used up.
    match j.after(then, Some("OutOfBounds")) {
        Append::Done { line } => {
            assert_eq!(line.as_deref(), Some("journal: sector erase failed (OutOfBounds)"))
        }
        _ => panic!("nothing more to do"),
    }
    assert_eq!(j, Journal { newest_index: None, seq: u32::MAX });
    let then = match j.after(then, None) {
        Append::Write { addr, bytes, then } => {
            assert_eq!(addr, OFFSET);
            assert_eq!(bytes, encode(&Record { seq: 0, balance_secs: 7, last_tick: 8 }));
            then
        }
        _ => panic!("then the record is written"),
    };
    // A write that failed is retried in the same slot.
    match j.after(then, Some("IoError")) {
        Append::Done { line } => {
            assert_eq!(line.as_deref(), Some("journal: write failed (IoError)"))
        }
        _ => panic!("nothing more to do"),
    }
    assert_eq!(j.place().slot, 0);
    let next = j.append(7, 8);
    written(&mut j, next);
    let p = j.place();
    assert_eq!((p.slot, p.erase, p.addr), (1, None, OFFSET + 20));
    j.newest_index = Some(203);
    assert_eq!(j.place().erase, Some(OFFSET + SECTOR as u32));
    j.newest_index = Some(SLOTS - 1);
    assert_eq!(j.place().slot, 0);
}

fn saved(store: &mut SettingsStore, next: Saves) -> (u32, [u8; 36], String) {
    match next {
        Saves::Erase { then } => {
            let next = store.after(then, true);
            saved(store, next)
        }
        Saves::Write { addr, bytes, then } => match store.after(then, true) {
            Saves::Done { saved, line } => {
                assert!(saved);
                (addr, bytes, line)
            }
            _ => panic!("written settings are the end"),
        },
        Saves::Done { line, .. } => panic!("{line}"),
    }
}

#[test]
fn settings_fill_their_sector_in_turn() {
    let s = Settings::from_policy(&Policy::default(), 0);
    let (mut store, found, line) = SettingsStore::open(&[None]);
    assert_eq!(found, None);
    assert_eq!(line, "settings: none stored, using defaults");

    let next = store.save(s);
    assert!(matches!(next, Saves::Erase { .. }));
    let (addr, first, line) = saved(&mut store, next);
    assert_eq!(addr, SETTINGS_OFFSET);
    assert_eq!(line, "settings: saved to slot 0, seq 1");
    assert_eq!(settings::decode(&first), Some(Settings { seq: 1, ..s }));
    let next = store.save(s);
    assert!(matches!(next, Saves::Write { .. }));
    let (addr, second, line) = saved(&mut store, next);
    assert_eq!(addr, SETTINGS_OFFSET + 36);
    assert_eq!(line, "settings: saved to slot 1, seq 2");

    let slots = vec![Some(first.to_vec()), Some(second.to_vec())];
    let (again, found, line) = SettingsStore::open(&slots);
    assert_eq!(found, Some(Settings { seq: 2, ..s }));
    assert_eq!(again.seq, 2);
    assert_eq!(line, "settings: loaded from slot 1, seq 2");

    store.newest = Some(SETTINGS_SLOTS - 1);
    assert!(matches!(store.save(s), Saves::Erase { .. }));
}

#[test]
fn a_save_that_fails_leaves_the_settings_before_it() {
    let s = Settings::from_policy(&Policy::default(), 0);
    let mut store = SettingsStore { newest: None, seq: 0 };
    match store.save(s) {
        Saves::Erase { then } => match store.after(then, false) {
            Saves::Done { saved, line } => {
                assert_eq!((saved, line.as_str()), (false, "settings: erase failed"))
            }
            _ => panic!("nothing more to do"),
        },
        _ => panic!("the sector is erased first"),
    }
    let next = store.save(s);
    let (_, first, _) = saved(&mut store, next);
    let then = match store.save(Settings { cap_secs: 60, ..s }) {
        Saves::Write { then, .. } => then,
        _ => panic!("the second slot needs no erasing"),
    };
    match store.after(then, false) {
        Saves::Done { saved, line } => {
            assert_eq!((saved, line.as_str()), (false, "settings: write failed"))
        }
        _ => panic!("nothing more to do"),
    }
    assert_eq!(store.newest, Some(0));
    // Half of the new settings made it into the slot.
    let mut torn = vec![0xff; 36];
    torn[..18].copy_from_slice(&first[..18]);
    let (again, found, _) = SettingsStore::open(&[Some(first.to_vec()), Some(torn)]);
    assert_eq!(again.newest, Some(0));
    assert_eq!(found, settings::decode(&first));
}

#[test]
fn unusable_settings_are_not_stored() {
    let mut s = Settings::from_policy(&Policy::default(), 0);
    s.refill_den = 0;
    let mut store = SettingsStore { newest: None, seq: 5 };
    match store.save(s) {
        Saves::Done { saved, line } => {
            assert_eq!((saved, line.as_str()), (false, "settings: refused, invalid"))
        }
        _ => panic!("they are refused"),
    }
    assert_eq!(store.seq, 5);
}

#[test]
fn a_start_takes_up_what_was_stored() {
    let d = starting_settings(None);
    assert_eq!(d, Settings::from_policy(&Policy::default(), 0));
    let mut mine = d;
    mine.cap_secs = 60;
    assert_eq!(starting_settings(Some(mine)).cap_secs, 60);
    let rec = Record { seq: 1, balance_secs: -77, last_tick: 5 };
    assert_eq!(starting_ledger(Some(rec), &Policy::default()).balance_secs, -77);
    assert_eq!(starting_ledger(None, &Policy::default()).balance_secs, 1_800);
}

#[test]
fn an_outage_is_told_at_the_first_journal_write() {
    let mut w = OutageWatch::new(Some(Record { seq: 1, balance_secs: 0, last_tick: 1_000 }));
    assert_eq!(w.journalled(false, 9_000), None);
    let (line, text) = w.journalled(true, 1_600).unwrap();
    assert_eq!(line, "  [alert] unit was off for 10 min");
    assert_eq!(text, "Gerät war 10 min aus");
    assert_eq!(w.journalled(true, 99_000), None);
    let mut w = OutageWatch::new(None);
    assert_eq!(w.journalled(true, 99_000), None);
}

#[test]
fn a_lap_of_the_ring_uses_every_slot_once() {
    let mut j = Journal { newest_index: Some(5), seq: 0 };
    let mut used = vec![false; SLOTS];
    let mut erased = 0;
    for _ in 0..SLOTS {
        let p = j.place();
        assert!(!used[p.slot]);
        used[p.slot] = true;
        erased += p.erase.is_some() as usize;
        let next = j.append(0, 0);
        written(&mut j, next);
    }
    assert_eq!(j.newest_index, Some(5));
    assert_eq!(erased, 3);
}
