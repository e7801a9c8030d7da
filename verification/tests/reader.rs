//! The reader, against a chip made of registers.
use medienzeit::pn5180::driver::{BusyPin, Delay, SpiBus};
use medienzeit::pn5180::{cmd, reg, transceive_state, CardUid, Error, Pn5180, Uid, MAX_FRAME};
use medienzeit::reader::{describe_entry, error_name, identify, start_rf, Entry};
use medienzeit::scan::{
    agc_window, card_hex, compare_inventory, describe_tags, poll_card, uid_hex, Agc, Bringup,
    CardTracker, Docking, Scan,
};

/// Enough of the chip for the driver to talk to.
struct Chip {
    regs: [u32; 64],
    eeprom: [u8; 256],
    reply: Vec<u8>,
    /// What answers each transmitted frame in turn.
    answers: Vec<Option<Vec<u8>>>,
    received: Vec<u8>,
    sent: Vec<Vec<u8>>,
    commands: Vec<u8>,
    /// How often the transceiver refuses to arm before a field cycle helps.
    stuck: bool,
    dead: bool,
}

impl Chip {
    fn new() -> Chip {
        let mut eeprom = [0u8; 256];
        eeprom[0x10..0x16].copy_from_slice(&[0x05, 0x04, 0x01, 0x04, 0x99, 0x00]);
        eeprom[..16].copy_from_slice(b"0123456789abcdef");
        Chip {
            regs: [0; 64],
            eeprom,
            reply: Vec::new(),
            answers: Vec::new(),
            received: Vec::new(),
            sent: Vec::new(),
            commands: Vec::new(),
            stuck: false,
            dead: false,
        }
    }

    fn arm(&mut self) {
        let armed = self.regs[reg::SYSTEM_CONFIG as usize] & 7 == 3 && !self.stuck;
        self.regs[reg::RF_STATUS as usize] = if armed { 1 << 24 } else { 0 };
    }
}

fn word(b: &[u8]) -> u32 {
    u32::from_le_bytes([b[0], b[1], b[2], b[3]])
}

impl SpiBus for Chip {
    fn write(&mut self, frame: &[u8]) -> bool {
        if self.dead {
            return false;
        }
        self.commands.push(frame[0]);
        match frame[0] {
            cmd::WRITE_REGISTER if frame[1] == reg::IRQ_CLEAR => {
                self.regs[reg::IRQ_STATUS as usize] &= !word(&frame[2..]);
            }
            // Twenty bits of this one exist.
            cmd::WRITE_REGISTER if frame[1] == 0x0c => {
                self.regs[0x0c] = word(&frame[2..]) & 0x000f_ffff;
            }
            cmd::WRITE_REGISTER => self.regs[frame[1] as usize] = word(&frame[2..]),
            cmd::WRITE_REGISTER_OR_MASK => self.regs[frame[1] as usize] |= word(&frame[2..]),
            cmd::WRITE_REGISTER_AND_MASK => self.regs[frame[1] as usize] &= word(&frame[2..]),
            cmd::READ_REGISTER => {
                self.reply = self.regs[frame[1] as usize].to_le_bytes().to_vec();
            }
            cmd::READ_EEPROM => {
                let at = frame[1] as usize;
                self.reply = self.eeprom[at..at + frame[2] as usize].to_vec();
            }
            cmd::SEND_DATA => {
                self.sent.push(frame[1..].to_vec());
                if !self.answers.is_empty() {
                    if let Some(a) = self.answers.remove(0) {
                        self.regs[reg::RX_STATUS as usize] = a.len() as u32;
                        self.regs[reg::IRQ_STATUS as usize] |= 1;
                        self.received = a;
                    }
                }
            }
            cmd::READ_DATA => self.reply = self.received.clone(),
            cmd::RF_ON => {
                self.stuck = false;
                self.regs[reg::IRQ_STATUS as usize] |= 1 << 9;
            }
            _ => {}
        }
        self.arm();
        true
    }

    fn read(&mut self, buf: &mut [u8]) -> bool {
        if self.dead {
            return false;
        }
        let mut r = self.reply.clone();
        r.resize(buf.len(), 0);
        buf.copy_from_slice(&r);
        true
    }
}

/// Low when asked for low, high when asked for high.
struct Busy;

impl BusyPin for Busy {
    fn is_high(&mut self) -> Option<bool> {
        Some(true)
    }

    fn is_low(&mut self) -> Option<bool> {
        Some(true)
    }
}

/// Never goes low.
struct Hung;

impl BusyPin for Hung {
    fn is_high(&mut self) -> Option<bool> {
        Some(true)
    }

    fn is_low(&mut self) -> Option<bool> {
        Some(false)
    }
}

struct Broken;

impl BusyPin for Broken {
    fn is_high(&mut self) -> Option<bool> {
        None
    }

    fn is_low(&mut self) -> Option<bool> {
        None
    }
}

#[derive(Default)]
struct Pace {
    us: u64,
    each: Vec<u32>,
}

impl Delay for Pace {
    fn delay_us(&mut self, us: u32) {
        self.us += us as u64;
        self.each.push(us);
    }
}

/// Low until it cannot be read any more.
struct Failing {
    good: u32,
}

impl BusyPin for Failing {
    fn is_high(&mut self) -> Option<bool> {
        Some(true)
    }

    fn is_low(&mut self) -> Option<bool> {
        if self.good == 0 {
            return None;
        }
        self.good -= 1;
        Some(true)
    }
}

fn reader() -> Pn5180<Chip, Busy, Pace> {
    Pn5180::new(Chip::new(), Busy, Pace::default())
}

fn tag(n: u8) -> Vec<u8> {
    vec![0, 0, n, 0, 0, 0, 0, 0, 0x04, 0xe0]
}

fn uid(n: u8) -> Uid {
    Uid([n, 0, 0, 0, 0, 0, 0x04, 0xe0])
}

#[test]
fn registers_and_eeprom_are_read() {
    let mut r = reader();
    r.write_register(0x20, 0x1234_5678).unwrap();
    assert_eq!(r.read_register(0x20), Ok(0x1234_5678));
    r.write_register_or_mask(0x20, 0x0000_0007).unwrap();
    assert_eq!(r.read_register(0x20), Ok(0x1234_567f));
    r.write_register_and_mask(0x20, 0x0000_ffff).unwrap();
    assert_eq!(r.read_register(0x20), Ok(0x0000_567f));
    assert_eq!(r.product_version(), Ok((4, 5)));
    assert_eq!(r.firmware_version(), Ok((4, 1)));
    assert_eq!(r.eeprom_version(), Ok((0, 0x99)));
    let mut die = [0u8; 16];
    r.die_id(&mut die).unwrap();
    assert_eq!(&die, b"0123456789abcdef");
    assert!(r.saw_busy_high());
    assert_eq!(r.busy_level(), Some(true));
}

#[test]
fn all_ones_are_no_version() {
    let mut r = reader();
    r.spi.eeprom[0x10] = 0xff;
    r.spi.eeprom[0x11] = 0xff;
    assert_eq!(r.product_version(), Err(Error::NoResponse));
}

#[test]
fn every_way_to_fail_has_its_error() {
    let mut r = reader();
    r.spi.dead = true;
    assert_eq!(r.read_register(0), Err(Error::Spi));

    let mut r = Pn5180::new(Chip::new(), Hung, Pace::default());
    assert_eq!(r.field_on(), Err(Error::BusyTimeout));
    assert_eq!(r.delay.us, 500_000);

    let mut r = Pn5180::new(Chip::new(), Broken, Pace::default());
    assert_eq!(r.field_off(), Err(Error::Pin));
    assert_eq!(r.busy_level(), None);

    let mut r: Pn5180<Chip, Busy, Pace> = Pn5180::without_busy(Chip::new(), Pace::default());
    assert_eq!(r.field_on(), Ok(()));
    assert_eq!(r.delay.us, 10_000);
    assert!(!r.saw_busy_high());

    let mut r = reader();
    r.spi.stuck = true;
    assert_eq!(r.send_data(&[1]), Err(Error::NotReadyToTransmit));
    assert_eq!(r.recoveries(), 0);
}

#[test]
fn a_wedged_transceiver_is_recovered_by_cycling_the_field() {
    let mut r = reader();
    r.begin_iso15693().unwrap();
    r.spi.stuck = true;
    assert_eq!(r.send_data(&[0x26]), Ok(()));
    assert_eq!(r.recoveries(), 1);
    assert_eq!(r.spi.sent, vec![vec![0, 0x26]]);
}

#[test]
fn an_inventory_finds_every_tag_once() {
    let mut r = reader();
    // Slots 0, 3 and 4 answer, the last two with the same tag.
    r.spi.answers = vec![Some(tag(1)), None, None, Some(tag(2)), Some(tag(2))];
    let mut out = [Uid([0; 8]); 4];
    assert_eq!(r.inventory(&mut out), Ok(2));
    assert_eq!(out[..2], [uid(1), uid(2)]);
    assert_eq!(r.spi.sent.len(), 16);
    assert_eq!(r.spi.sent[0], vec![0, 0x06, 0x01, 0x00]);
    assert!(r.spi.sent[1..].iter().all(|f| *f == vec![0]));
}

#[test]
fn more_tags_than_room_is_an_error() {
    let mut r = reader();
    r.spi.answers = (1..4).map(|n| Some(tag(n))).collect();
    let mut out = [Uid([0; 8]); 2];
    assert_eq!(r.inventory_16slot(&mut out), Err(Error::Overflow));
}

#[test]
fn a_single_slot_is_read_raw() {
    let mut r = reader();
    r.spi.answers = vec![Some(tag(7))];
    let mut buf = [0u8; MAX_FRAME];
    assert_eq!(r.inventory_single_raw(&mut buf, true), Ok(10));
    assert_eq!(buf[..10], tag(7)[..]);
    assert_eq!(r.spi.sent[0], vec![0, 0x26, 0x01, 0x00]);
    assert_eq!(r.inventory_single_raw(&mut buf, false), Ok(0));
    assert_eq!(r.spi.sent[1], vec![0, 0x24, 0x01, 0x00]);
}

#[test]
fn a_card_is_identified() {
    let mut r = reader();
    let bcc = 0xde ^ 0xad ^ 0xbe ^ 0xef;
    r.spi.answers = vec![None, Some(vec![4, 0]), Some(vec![0xde, 0xad, 0xbe, 0xef, bcc])];
    assert_eq!(r.iso14443a_uid(), Ok(Some(CardUid([0xde, 0xad, 0xbe, 0xef]))));
    assert_eq!(r.spi.sent, vec![vec![7, 0x26], vec![7, 0x26], vec![0, 0x93, 0x20]]);
    let mut r = reader();
    assert_eq!(r.iso14443a_uid(), Ok(None));
    assert_eq!(r.spi.sent.len(), 3);
    let mut r = reader();
    r.spi.answers = vec![Some(vec![4, 0])];
    assert_eq!(r.probe_iso14443a(), Ok(Some([4, 0])));
}

#[test]
fn the_state_is_three_bits_of_the_status() {
    assert_eq!(transceive_state(0x0100_0000), 1);
    assert_eq!(transceive_state(0xf8ff_ffff), 0);
    let mut r = reader();
    r.spi.regs[reg::RF_STATUS as usize] = 5;
    r.spi.regs[reg::IRQ_STATUS as usize] = 6;
    r.spi.regs[reg::RX_STATUS as usize] = 7;
    assert_eq!(r.rf_debug(), Ok((5, 6, 7)));
    r.clear_all_irqs().unwrap();
    assert_eq!(r.read_register(reg::IRQ_STATUS), Ok(0));
}

#[test]
fn the_chip_introduces_itself() {
    let mut r = reader();
    assert_eq!(
        identify(&mut r),
        vec![
            "reader: BUSY idle level = Some(true)",
            "reader: product  <- 07 10 02  -> 05 04   = v4.5",
            "reader: firmware <- 07 12 02  -> 01 04   = v4.1",
            "reader: eeprom   <- 07 14 02  -> 99 00   = v0.153",
            "reader: die id   <- 07 00 10  -> 30 31 32 33 34 35 36 37 38 39 61 62 63 64 65 66",
            "reader: BUSY asserted — the chip is acknowledging",
            "reader: register writable mask 0x000fffff (20 bits)",
            "reader: register round trip ok (0x00035a5a) — framing proven",
            "reader: die id stable across repeats",
        ]
    );
    let mut r = reader();
    r.spi.dead = true;
    let lines = identify(&mut r);
    assert_eq!(lines[1], "reader: product  <- 07 10 02  -> Spi");
    assert_eq!(lines[6], "reader: register probe failed (Spi)");
    assert_eq!(lines[7], "reader: repeat die id read failed");
}

#[test]
fn an_entry_of_all_ones_is_no_answer() {
    let e = Entry { what: "product ", addr: 0x10, len: 2, got: Ok(vec![0xff, 0xff]) };
    assert_eq!(
        describe_entry(&e),
        "reader: product  <- 07 10 02  -> ff ff   <-- all ff: no answer, not a version"
    );
}

#[test]
fn the_field_comes_up() {
    let mut r = reader();
    let lines = start_rf(&mut r, false);
    assert_eq!(lines[0], "reader: irq after RF_ON = 0x00000200 -> field CAME UP");
    assert_eq!(
        lines[1],
        "reader: rf_status idle=0x00000000 configured=0x00000000 field_on=0x00000000"
    );
    assert_eq!(lines[2], "reader: RF_ON changed nothing — the transmitter did not come up");
    assert_eq!(start_rf(&mut r, true), vec!["reader: ISO 14443A field on"]);
    r.spi.dead = true;
    assert_eq!(start_rf(&mut r, false), vec!["reader: load_rf_config failed (Spi)"]);
    assert_eq!(start_rf(&mut r, true), vec!["reader: could not start ISO 14443A (Spi)"]);
}

#[test]
fn errors_are_named() {
    for (e, name) in [
        (Error::Spi, "Spi"),
        (Error::Pin, "Pin"),
        (Error::BusyTimeout, "BusyTimeout"),
        (Error::NoResponse, "NoResponse"),
        (Error::Overflow, "Overflow"),
        (Error::NotReadyToTransmit, "NotReadyToTransmit"),
    ] {
        assert_eq!(error_name(&e), name);
    }
}

#[test]
fn a_scan_logs_changes_only() {
    let mut r = reader();
    let mut scan = Scan::default();
    r.spi.answers = vec![Some(tag(1))];
    let p = scan.poll(&mut r);
    assert_eq!(p.tags, Some(vec![uid(1)]));
    assert_eq!(p.line.as_deref(), Some("reader: 1 tag(s) e004000000000001"));
    r.spi.answers = vec![Some(tag(1))];
    assert_eq!(scan.poll(&mut r).line, None);
    // A few silent rounds are tolerated.
    for _ in 0..3 {
        assert_eq!(scan.poll(&mut r).tags, Some(vec![uid(1)]));
    }
    let p = scan.poll(&mut r);
    assert_eq!(p.tags, Some(vec![]));
    assert_eq!(p.line.as_deref(), Some("reader: 0 tag(s)"));
    r.spi.dead = true;
    let p = scan.poll(&mut r);
    assert_eq!(p.tags, None);
    assert_eq!(p.line.as_deref(), Some("reader: inventory failed (Spi)"));
}

#[test]
fn the_methods_are_compared() {
    let mut r = reader();
    r.spi.answers = vec![Some(tag(1)), Some(tag(2))];
    assert_eq!(
        compare_inventory(&mut r),
        "reader: single=e004000000000001,e004000000000002  16slot=none"
    );
    r.spi.dead = true;
    assert_eq!(compare_inventory(&mut r), "reader: single=Spi  16slot=Spi");
}

#[test]
fn identities_are_printed_as_they_are_configured() {
    assert_eq!(uid_hex(&uid(0xab)).as_str(), "e0040000000000ab");
    assert_eq!(Uid::from_display_hex(uid_hex(&uid(0xab)).as_str()), Some(uid(0xab)));
    assert_eq!(card_hex(&CardUid([0xde, 0xad, 0xbe, 0xef])).as_str(), "deadbeef");
    assert_eq!(describe_tags(&[]), "reader: 0 tag(s)");
}

const CARD: CardUid = CardUid([1, 2, 3, 4]);

#[test]
fn a_card_has_to_be_seen_twice_and_may_drop_out_briefly() {
    let mut t = CardTracker::default();
    assert_eq!(t.update(Some(CARD)), None);
    assert_eq!(t.update(Some(CardUid([9, 9, 9, 9]))), None);
    assert_eq!(t.update(Some(CARD)), None);
    assert_eq!(t.update(Some(CARD)), Some(CARD));
    for _ in 0..5 {
        assert_eq!(t.update(None), Some(CARD));
    }
    assert_eq!(t.update(None), None);
}

#[test]
fn a_card_poll_tells_failure_from_absence() {
    let mut r = reader();
    assert_eq!(poll_card(&mut r), (Some(None), None));
    r.spi.dead = true;
    assert_eq!(poll_card(&mut r), (None, Some("reader: card poll failed (Spi)".to_string())));
}

#[test]
fn bring_up_reports_cards_as_they_come_and_go() {
    let mut b = Bringup::new();
    assert_eq!(b.note(None), None);
    assert_eq!(b.note(Some(CARD)), None);
    assert_eq!(b.note(Some(CARD)).as_deref(), Some("reader: card 01020304"));
    assert_eq!(b.note(Some(CARD)), None);
    for _ in 0..5 {
        assert_eq!(b.note(None), None);
    }
    assert_eq!(b.note(None).as_deref(), Some("reader: card gone"));
}

#[test]
fn a_tag_or_a_card_puts_a_device_back() {
    let mut d = Docking::new([Some(uid(1)), None], [Some(CARD), None]);
    assert!(!d.unconfigured());
    assert_eq!(d.update(Some(&[uid(1)]), None, [false, true]).docked, [true, true]);
    assert_eq!(d.update(Some(&[]), Some(CARD), [false, false]).docked, [true, false]);
    assert_eq!(d.update(Some(&[]), None, [true, false]).docked, [false, false]);
    assert_eq!(d.update(Some(&[uid(5)]), None, [true, false]).unknown, Some(uid(5)));
    assert_eq!(d.update(Some(&[uid(5)]), None, [true, false]).unknown, None);
    for n in 1..=6 {
        let r = d.update(None, None, [true, true]);
        assert_eq!(r.docked, [false, false]);
        assert_eq!(r.reader_fault, n == 5);
    }
    assert!(Docking::new([None, None], [None, None]).unconfigured());
}

#[test]
fn the_antenna_tells_whether_a_tag_loads_it() {
    let mut a = Agc::new();
    assert_eq!(a.describe().1, "reader: agc never read");
    for v in [500, 503] {
        a.note(false, v);
    }
    a.note(true, 0xffff_fc00 + 505);
    assert_eq!(
        a.describe(),
        (
            "reader: agc bare 500..503  loaded 505..505".to_string(),
            "reader: no measurable loading — field and tag are not coupling".to_string()
        )
    );
    a.note(true, 509);
    assert_eq!(a.describe().1, "reader: the tag loads the antenna — they are coupling");
    assert_eq!(agc_window(0), (false, "reader: >>> TAG OFF, nothing near for 8s"));
    assert_eq!(agc_window(3), (true, "reader: >>> TAG ON the coil for 8s"));
}

#[test]
fn nothing_is_transferred_before_busy_is_low() {
    let mut r = Pn5180::new(Chip::new(), Hung, Pace::default());
    assert_eq!(r.write_register(0x20, 1), Err(Error::BusyTimeout));
    assert_eq!(r.delay.each, vec![100; 5_000]);
    assert!(r.spi.commands.is_empty());
    let mut r = Pn5180::new(Chip::new(), Broken, Pace::default());
    assert_eq!(r.write_register(0x20, 1), Err(Error::Pin));
    assert!(r.spi.commands.is_empty());
    // The command gets through, but BUSY is not seen low after it.
    let mut r = Pn5180::new(Chip::new(), Failing { good: 1 }, Pace::default());
    assert_eq!(r.write_register(0x20, 1), Err(Error::Pin));
    assert_eq!(r.spi.commands, vec![cmd::WRITE_REGISTER]);
    assert_eq!(r.spi.regs[0x20], 1);
}

#[test]
fn a_buffer_holds_what_was_read_even_where_busy_fails_after_it() {
    let mut buf = [0xaau8; 2];
    let mut r = Pn5180::new(Chip::new(), Failing { good: 3 }, Pace::default());
    assert_eq!(r.read_eeprom(0x10, &mut buf), Err(Error::Pin));
    assert_eq!(buf, [0x05, 0x04]);
    let mut buf = [0xaau8; 2];
    let mut r = Pn5180::new(Chip::new(), Failing { good: 1 }, Pace::default());
    assert_eq!(r.read_eeprom(0x10, &mut buf), Err(Error::Pin));
    assert_eq!(buf, [0xaa, 0xaa]);
}

#[test]
fn the_field_is_given_time_to_decay_and_to_ramp() {
    let mut r = reader();
    r.begin_iso15693().unwrap();
    assert_eq!(
        r.spi.commands,
        vec![cmd::WRITE_REGISTER_AND_MASK, cmd::RF_OFF, cmd::LOAD_RF_CONFIG, cmd::RF_ON]
    );
    assert_eq!(r.delay.each, vec![10_000, 10_000]);
    // The first command that fails is the last one tried.
    let mut r = Pn5180::new(Chip::new(), Failing { good: 2 }, Pace::default());
    assert_eq!(r.begin_iso15693(), Err(Error::Pin));
    assert_eq!(r.spi.commands, vec![cmd::WRITE_REGISTER_AND_MASK]);
    assert!(r.delay.each.is_empty());
}

#[test]
fn slots_that_make_no_sense_are_skipped() {
    let mut r = reader();
    let mut garbled = tag(3);
    garbled[9] = 0xe1;
    r.spi.answers = vec![
        Some(vec![0; 9]),
        Some(vec![0; 65]),
        Some(garbled),
        None,
        Some(tag(5)),
    ];
    let mut out = [uid(9); 4];
    assert_eq!(r.inventory_16slot(&mut out), Ok(1));
    assert_eq!(out, [uid(5), uid(9), uid(9), uid(9)]);
    // Only the garbled frame and the good one were worth fetching.
    assert_eq!(r.spi.commands.iter().filter(|c| **c == cmd::READ_DATA).count(), 2);
}

#[test]
fn a_raw_frame_is_cut_to_the_buffer() {
    let mut r = reader();
    r.spi.answers = vec![Some(tag(7)), Some(tag(7))];
    let mut buf = [0xaau8; 4];
    assert_eq!(r.inventory_single_raw(&mut buf[..3], true), Ok(3));
    assert_eq!(buf, [0, 0, 7, 0xaa]);
    assert_eq!(r.inventory_single_raw(&mut [], true), Ok(0));
    assert_eq!(r.spi.commands.iter().filter(|c| **c == cmd::READ_DATA).count(), 1);
}

#[test]
fn a_short_answer_is_no_card() {
    let mut r = reader();
    r.spi.answers = vec![Some(vec![4]), Some(vec![4, 0]), Some(vec![1, 2, 3, 4]), Some(vec![4, 0]), Some(vec![1, 2, 3, 4, 9])];
    assert_eq!(r.iso14443a_uid(), Ok(None));
    assert_eq!(
        r.spi.sent,
        vec![vec![7, 0x26], vec![7, 0x26], vec![0, 0x93, 0x20], vec![7, 0x26], vec![0, 0x93, 0x20]]
    );
}
