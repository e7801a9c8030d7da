//! Persisting the tunable parts of the balance policy.
//!
//! Separate from the journal on purpose: the journal is written every 30 seconds and is a
//! ring, settings change a handful of times in the life of the thing. Only the numbers a
//! parent would reasonably change are stored.
use crate::balance::{Policy, Window};
use crate::civil::LocalDateTime;
use crate::policy;
use crate::wire;
use vstd::prelude::*;

verus! {

/// Encoded length: eight `u32` words, two bytes spare and the checksum.
pub const SETTINGS_LEN: usize = 36;

/// The stored form. Every field here has to survive an upgrade, so the set is deliberately
/// small.
#[derive(Debug, Clone, Copy, PartialEq, Eq, Structural)]
pub struct Settings {
    pub seq: u32,
    pub refill_num: u32,
    pub refill_den: u32,
    pub cap_secs: u32,
    pub floor_secs: u32,
    pub prefill_secs: u32,
    pub grace_secs: u32,
    /// Night window, minutes from local midnight. Wraps when start > end.
    pub night_start_minute: u32,
    pub night_end_minute: u32,
}

impl Settings {
    /// Whether the ledger can work with these values.
    pub open spec fn usable(self) -> bool {
        self.refill_den != 0 && self.night_start_minute < 1_440 && self.night_end_minute < 1_440
    }

    /// The night of a policy, from 21:00 to 06:30 where it names none.
    pub open spec fn night_of(p: Policy) -> (u32, u32) {
        let windows = policy::windows_of(p.night);
        if windows.len() > 0 {
            (windows[0].start_minute, windows[0].end_minute)
        } else {
            (1_260, 390)
        }
    }

    /// The settings that a policy comes down to.
    pub open spec fn of_policy(p: Policy, seq: u32) -> Settings {
        Settings {
            seq,
            refill_num: p.refill_num,
            refill_den: p.refill_den,
            cap_secs: p.cap_secs,
            floor_secs: p.floor_secs,
            prefill_secs: p.prefill_secs,
            grace_secs: p.grace_secs,
            night_start_minute: Self::night_of(p).0,
            night_end_minute: Self::night_of(p).1,
        }
    }

    /// Whether a policy states the rules that these settings hold.
    pub open spec fn states(self, p: Policy) -> bool {
        &&& p.refill_num == self.refill_num
        &&& p.refill_den == self.refill_den
        &&& p.cap_secs == self.cap_secs
        &&& p.floor_secs == self.floor_secs
        &&& p.prefill_secs == self.prefill_secs
        &&& p.grace_secs == self.grace_secs
        &&& policy::windows_of(p.night) == if self.night_start_minute != self.night_end_minute {
            seq![
                Window {
                    weekday_mask: 127,
                    start_minute: self.night_start_minute,
                    end_minute: self.night_end_minute,
                },
            ]
        } else {
            Seq::empty()
        }
    }

    /// The compiled-in defaults, as the starting point before anything is stored.
    pub fn from_policy(p: &Policy, seq: u32) -> (r: Self)
        ensures
            r == Self::of_policy(*p, seq),
    {
        let windows: &[Window] = policy::window_slice(&p.night);
        let (start, end): (u32, u32) = if windows.len() > 0 {
            (windows[0].start_minute, windows[0].end_minute)
        } else {
            (21 * 60, 6 * 60 + 30)
        };
        Settings {
            seq,
            refill_num: p.refill_num,
            refill_den: p.refill_den,
            cap_secs: p.cap_secs,
            floor_secs: p.floor_secs,
            prefill_secs: p.prefill_secs,
            grace_secs: p.grace_secs,
            night_start_minute: start,
            night_end_minute: end,
        }
    }

    /// Build a policy from stored settings. A night that ends when it starts is dropped rather
    /// than kept as a window of no length.
    pub fn to_policy(&self) -> (r: Policy)
        ensures
            self.states(r),
    {
        let mut night = policy::no_windows();
        if self.night_start_minute != self.night_end_minute {
            let _ = policy::push_window(
                &mut night,
                Window::new(Window::EVERY_DAY, self.night_start_minute, self.night_end_minute),
            );
        }
        assert(self.night_start_minute != self.night_end_minute ==> policy::windows_of(night)
            =~= seq![
            Window {
                weekday_mask: 127,
                start_minute: self.night_start_minute,
                end_minute: self.night_end_minute,
            },
        ]);
        Policy {
            refill_num: self.refill_num,
            refill_den: self.refill_den,
            cap_secs: self.cap_secs,
            floor_secs: self.floor_secs,
            prefill_secs: self.prefill_secs,
            grace_secs: self.grace_secs,
            night,
        }
    }

    /// Reject values that would break the ledger rather than merely be unusual: a denominator
    /// of zero divides, and a clock time past midnight never comes.
    pub fn valid(&self) -> (r: bool)
        ensures
            r == self.usable(),
    {
        self.refill_den != 0 && self.night_start_minute < 24 * 60 && self.night_end_minute < 24 * 60
    }

    /// The night in one word: start in the upper half, end in the lower.
    pub open spec fn packed_night(self) -> u32 {
        (self.night_start_minute << 16) | self.night_end_minute
    }
}

/// Everything in a settings record but its checksum.
pub open spec fn settings_head(s: Settings) -> Seq<u8> {
    wire::bytes32(s.seq) + wire::bytes32(s.refill_num) + wire::bytes32(s.refill_den)
        + wire::bytes32(s.cap_secs) + wire::bytes32(s.floor_secs) + wire::bytes32(s.prefill_secs)
        + wire::bytes32(s.grace_secs) + wire::bytes32(s.packed_night()) + seq![0u8, 0u8]
}

/// Settings as they lie in flash.
pub open spec fn settings_bytes(s: Settings) -> Seq<u8> {
    settings_head(s) + wire::bytes16(wire::crc16_of(settings_head(s)))
}

/// The `i`-th word of a slot.
pub open spec fn word_of(slot: Seq<u8>, i: int) -> u32 {
    wire::le32(slot, 4 * i) as u32
}

/// What the words of a slot say, whether it makes sense or not.
pub open spec fn unpacked(slot: Seq<u8>) -> Settings {
    Settings {
        seq: word_of(slot, 0),
        refill_num: word_of(slot, 1),
        refill_den: word_of(slot, 2),
        cap_secs: word_of(slot, 3),
        floor_secs: word_of(slot, 4),
        prefill_secs: word_of(slot, 5),
        grace_secs: word_of(slot, 6),
        night_start_minute: word_of(slot, 7) >> 16,
        night_end_minute: word_of(slot, 7) & 0xffff,
    }
}

/// The settings in a slot, unless the checksum fails or the values are unusable.
pub open spec fn settings_of(slot: Seq<u8>) -> Option<Settings> {
    if slot.len() >= SETTINGS_LEN && wire::le16(slot, 34) == wire::crc16_of(slot.take(34))
        && unpacked(slot).usable() {
        Some(unpacked(slot))
    } else {
        None
    }
}

/// Lay settings out for flash.
pub fn encode(s: &Settings) -> (r: [u8; SETTINGS_LEN])
    ensures
        r@ == settings_bytes(*s),
{
    let mut out: Vec<u8> = Vec::new();
    wire::put32(&mut out, s.seq);
    wire::put32(&mut out, s.refill_num);
    wire::put32(&mut out, s.refill_den);
    wire::put32(&mut out, s.cap_secs);
    wire::put32(&mut out, s.floor_secs);
    wire::put32(&mut out, s.prefill_secs);
    wire::put32(&mut out, s.grace_secs);
    wire::put32(&mut out, (s.night_start_minute << 16) | s.night_end_minute);
    wire::put16(&mut out, 0);
    assert(out@ =~= settings_head(*s));
    assert(out@.take(34) =~= out@);
    let crc: u16 = wire::crc16(out.as_slice(), SETTINGS_LEN - 2);
    wire::put16(&mut out, crc);
    wire::to_array(&out)
}

/// Parse one slot. A record that survived the checksum but holds impossible values is worse
/// than no record, since it would be applied, and is refused too.
pub fn decode(slot: &[u8]) -> (r: Option<Settings>)
    ensures
        r == settings_of(slot@),
{
    if slot.len() < SETTINGS_LEN {
        return None;
    }
    if wire::get16(slot, SETTINGS_LEN - 2) != wire::crc16(slot, SETTINGS_LEN - 2) {
        return None;
    }
    let packed: u32 = wire::get32(slot, 28);
    let s = Settings {
        seq: wire::get32(slot, 0),
        refill_num: wire::get32(slot, 4),
        refill_den: wire::get32(slot, 8),
        cap_secs: wire::get32(slot, 12),
        floor_secs: wire::get32(slot, 16),
        prefill_secs: wire::get32(slot, 20),
        grace_secs: wire::get32(slot, 24),
        night_start_minute: packed >> 16,
        night_end_minute: packed & 0xffff,
    };
    if s.valid() {
        Some(s)
    } else {
        None
    }
}

proof fn lemma_word(b: Seq<u8>, i: int, x: u32)
    requires
        0 <= i,
        4 * i + 4 <= b.len(),
        b.subrange(4 * i, 4 * i + 4) == wire::bytes32(x),
    ensures
        word_of(b, i) == x,
{
    wire::lemma_bytes32(x);
    assert(wire::le32(b, 4 * i) == wire::le32(b.subrange(4 * i, 4 * i + 4), 0));
}

proof fn lemma_settings_layout(s: Settings)
    ensures
        settings_bytes(s).len() == 36,
        settings_bytes(s).take(34) == settings_head(s),
        wire::le16(settings_bytes(s), 34) == wire::crc16_of(settings_head(s)),
        word_of(settings_bytes(s), 0) == s.seq,
        word_of(settings_bytes(s), 1) == s.refill_num,
        word_of(settings_bytes(s), 2) == s.refill_den,
        word_of(settings_bytes(s), 3) == s.cap_secs,
        word_of(settings_bytes(s), 4) == s.floor_secs,
        word_of(settings_bytes(s), 5) == s.prefill_secs,
        word_of(settings_bytes(s), 6) == s.grace_secs,
        word_of(settings_bytes(s), 7) == s.packed_night(),
{
    let b = settings_bytes(s);
    assert(b.take(34) =~= settings_head(s));
    assert(b.subrange(0, 4) =~= wire::bytes32(s.seq));
    assert(b.subrange(4, 8) =~= wire::bytes32(s.refill_num));
    assert(b.subrange(8, 12) =~= wire::bytes32(s.refill_den));
    assert(b.subrange(12, 16) =~= wire::bytes32(s.cap_secs));
    assert(b.subrange(16, 20) =~= wire::bytes32(s.floor_secs));
    assert(b.subrange(20, 24) =~= wire::bytes32(s.prefill_secs));
    assert(b.subrange(24, 28) =~= wire::bytes32(s.grace_secs));
    assert(b.subrange(28, 32) =~= wire::bytes32(s.packed_night()));
    lemma_word(b, 0, s.seq);
    lemma_word(b, 1, s.refill_num);
    lemma_word(b, 2, s.refill_den);
    lemma_word(b, 3, s.cap_secs);
    lemma_word(b, 4, s.floor_secs);
    lemma_word(b, 5, s.prefill_secs);
    lemma_word(b, 6, s.grace_secs);
    lemma_word(b, 7, s.packed_night());
}

/// Usable settings are read back as they were written; unusable ones are not read back at
/// all. The two clock times have sixteen bits each.
pub proof fn settings_round_trip(s: Settings)
    requires
        s.night_start_minute <= 0xffff,
        s.night_end_minute <= 0xffff,
    ensures
        settings_of(settings_bytes(s)) == if s.usable() {
            Some(s)
        } else {
            None
        },
{
    lemma_settings_layout(s);
    let (a, b) = (s.night_start_minute, s.night_end_minute);
    assert(a <= 0xffff && b <= 0xffff ==> ((a << 16) | b) >> 16 == a && ((a << 16) | b) & 0xffff
        == b) by (bit_vector);
    assert(unpacked(settings_bytes(s)) == s);
}

/// Settings of which one byte was damaged, in one bit or in several, are not taken for
/// settings.
pub proof fn damaged_settings_are_rejected(s: Settings, slot: Seq<u8>, i: int)
    requires
        slot.len() == SETTINGS_LEN,
        0 <= i < SETTINGS_LEN,
        slot[i] != settings_bytes(s)[i],
        forall|j: int| 0 <= j < SETTINGS_LEN && j != i ==> slot[j] == settings_bytes(s)[j],
    ensures
        settings_of(slot) is None,
{
    lemma_settings_layout(s);
    wire::a_changed_byte_breaks_the_seal(settings_bytes(s), slot, 34, i);
}

/// Settings survive the way through the policy that they state, unless their night has no
/// length.
pub proof fn settings_survive_the_policy(s: Settings, p: Policy)
    requires
        s.states(p),
        s.night_start_minute != s.night_end_minute,
    ensures
        Settings::of_policy(p, s.seq) == s,
{
}

/// The rules in force are the ones that were stored, each under its own name.
pub proof fn the_rules_in_force_are_the_stored_ones(s: Settings, p: Policy)
    requires
        s.states(p),
    ensures
        p.refill_num == s.refill_num,
        p.refill_den == s.refill_den,
        p.cap_secs == s.cap_secs,
        p.floor_secs == s.floor_secs,
        p.prefill_secs == s.prefill_secs,
        p.grace_secs == s.grace_secs,
{
}

/// The stored night holds on every day of the week: from its first minute up to the last before its
/// end, past midnight where it ends at an earlier minute than it starts, and never where it has no
/// length.
pub proof fn the_stored_night_holds_every_day(s: Settings, p: Policy, now: LocalDateTime)
    requires
        s.states(p),
        now.weekday < 7,
    ensures
        ({
            let minute = now.hour * 60 + now.minute;
            let (start, end) = (s.night_start_minute, s.night_end_minute);
            p.night_at(now) == if start < end {
                start <= minute < end
            } else if start > end {
                minute >= start || minute < end
            } else {
                false
            }
        }),
{
    let windows = policy::windows_of(p.night);
    policy::a_list_covers_what_its_windows_cover(windows, now);
    if s.night_start_minute != s.night_end_minute {
        assert(windows.drop_last() =~= Seq::<Window>::empty());
        policy::a_list_covers_what_its_windows_cover(windows.drop_last(), now);
        let w = windows[0];
        policy::the_masks_name_their_days(w.start_minute, w.end_minute, now.weekday);
        policy::the_masks_name_their_days(
            w.start_minute,
            w.end_minute,
            ((now.weekday + 6) % 7) as u8,
        );
        assert(w == Window {
            weekday_mask: Window::EVERY_DAY,
            start_minute: s.night_start_minute,
            end_minute: s.night_end_minute,
        });
    }
}

/// The standard rules come back from their own settings.
pub proof fn the_standard_rules_come_back(p: Policy, q: Policy, seq: u32)
    requires
        p.standard(),
        Settings::of_policy(p, seq).states(q),
    ensures
        q.same_rules(p),
        q.standard(),
{
    assert(policy::windows_of(q.night) =~= policy::windows_of(p.night));
}

/// A policy comes down to its own numbers, and to the first of its nights.
pub proof fn settings_hold_the_rules_of_the_policy(p: Policy, seq: u32)
    ensures
        ({
            let s = Settings::of_policy(p, seq);
            &&& s.seq == seq
            &&& s.refill_num == p.refill_num
            &&& s.refill_den == p.refill_den
            &&& s.cap_secs == p.cap_secs
            &&& s.floor_secs == p.floor_secs
            &&& s.prefill_secs == p.prefill_secs
            &&& s.grace_secs == p.grace_secs
            &&& policy::windows_of(p.night).len() > 0 ==> s.night_start_minute
                == policy::windows_of(p.night)[0].start_minute && s.night_end_minute
                == policy::windows_of(p.night)[0].end_minute
            &&& policy::windows_of(p.night).len() == 0 ==> s.night_start_minute == 21 * 60
                && s.night_end_minute == 6 * 60 + 30
        }),
{
}

/// Rules that would break the ledger are the ones without a divisor and those with a clock time
/// that never comes; no others are.
pub proof fn only_broken_rules_are_unusable(s: Settings)
    ensures
        s.usable() <==> s.refill_den > 0 && s.night_start_minute / 60 < 24 && s.night_end_minute
            / 60 < 24,
{
}

/// Settings lie in flash as they always have: eight words, low byte first, the night in the last of
/// them with its start in the upper half, two bytes spare, and the checksum of what comes before it.
pub proof fn settings_lie_in_their_order(s: Settings)
    requires
        s.night_start_minute <= 0xffff,
        s.night_end_minute <= 0xffff,
    ensures
        ({
            let b = settings_bytes(s);
            &&& b.len() == 36
            &&& b.subrange(0, 4) == wire::bytes32(s.seq)
            &&& b.subrange(4, 8) == wire::bytes32(s.refill_num)
            &&& b.subrange(8, 12) == wire::bytes32(s.refill_den)
            &&& b.subrange(12, 16) == wire::bytes32(s.cap_secs)
            &&& b.subrange(16, 20) == wire::bytes32(s.floor_secs)
            &&& b.subrange(20, 24) == wire::bytes32(s.prefill_secs)
            &&& b.subrange(24, 28) == wire::bytes32(s.grace_secs)
            &&& b.subrange(28, 32) == wire::bytes32(
                (s.night_start_minute * 65_536 + s.night_end_minute) as u32,
            )
            &&& b.subrange(32, 34) == seq![0u8, 0u8]
            &&& b.skip(34) == wire::bytes16(wire::crc16_of(b.take(34)))
        }),
{
    let b = settings_bytes(s);
    let (x, y) = (s.night_start_minute, s.night_end_minute);
    assert(x <= 0xffff && y <= 0xffff ==> (x << 16) | y == x * 65_536 + y) by (bit_vector);
    assert(b.take(34) =~= settings_head(s));
    assert(b.subrange(0, 4) =~= wire::bytes32(s.seq));
    assert(b.subrange(4, 8) =~= wire::bytes32(s.refill_num));
    assert(b.subrange(8, 12) =~= wire::bytes32(s.refill_den));
    assert(b.subrange(12, 16) =~= wire::bytes32(s.cap_secs));
    assert(b.subrange(16, 20) =~= wire::bytes32(s.floor_secs));
    assert(b.subrange(20, 24) =~= wire::bytes32(s.prefill_secs));
    assert(b.subrange(24, 28) =~= wire::bytes32(s.grace_secs));
    assert(b.subrange(28, 32) =~= wire::bytes32(s.packed_night()));
    assert(b.subrange(32, 34) =~= seq![0u8, 0u8]);
    assert(b.skip(34) =~= wire::bytes16(wire::crc16_of(b.take(34))));
}

} // verus!
