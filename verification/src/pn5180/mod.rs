//! PN5180 reader chip, enough of it for ISO 15693 inventory and ISO 14443A cards.
//!
//! The identities that tags and cards report, how a reading of the field is smoothed over
//! time, and in [`driver`] the protocol spoken with the chip.
use crate::text;
use vstd::prelude::*;

pub mod cmd;
pub mod driver;
pub mod eeprom;
pub mod reg;

pub use driver::{transceive_state, Pn5180, MAX_FRAME};

verus! {

#[derive(Debug, Clone, Copy, PartialEq, Eq, Structural)]
pub enum Error {
    /// The SPI transfer itself failed.
    Spi,
    /// Could not read the BUSY pin.
    Pin,
    /// BUSY never returned low. With RST tied high the only recovery is a soft reset or a power
    /// cycle, so callers should surface this rather than retry forever.
    BusyTimeout,
    /// A response that cannot be right: all ones is what an absent or unpowered chip reads
    /// back.
    NoResponse,
    /// The chip reported more received bytes than the caller's buffer can hold.
    Overflow,
    /// The transceiver never reached WaitTransmit, so a frame could not be handed over.
    NotReadyToTransmit,
}

/// An ISO 15693 unique identifier, in transmission order (least significant byte first, which
/// is how the tag sends it). Use [`Uid::display_order`] when showing it to a human.
#[derive(Debug, Clone, Copy)]
pub struct Uid(pub [u8; 8]);

/// An ISO 14443A 4-byte card identifier, in the order the card sends it, which is also the
/// order it is printed.
///
/// A separate type from [`Uid`] on purpose: a different protocol, four bytes not eight, and
/// not reliably unique across cheap batches.
#[derive(Debug, Clone, Copy)]
pub struct CardUid(pub [u8; 4]);

pub(crate) proof fn lemma_uid_by_bytes(a: Uid, b: Uid)
    requires
        a.0@ =~= b.0@,
    ensures
        a == b,
{
    assert(a.0 =~= b.0);
}

pub(crate) proof fn lemma_card_by_bytes(a: CardUid, b: CardUid)
    requires
        a.0@ =~= b.0@,
    ensures
        a == b,
{
    assert(a.0 =~= b.0);
}

impl PartialEq for Uid {
    fn eq(&self, other: &Self) -> (r: bool) {
        let mut i: usize = 0;
        while i < 8
            invariant
                i <= 8,
                forall|j: int| 0 <= j < i ==> #[trigger] self.0@[j] == other.0@[j],
            decreases 8 - i,
        {
            if self.0[i] != other.0[i] {
                return false;
            }
            i += 1;
        }
        proof {
            lemma_uid_by_bytes(*self, *other);
        }
        true
    }
}

impl Eq for Uid {

}

impl vstd::std_specs::cmp::PartialEqSpecImpl for Uid {
    open spec fn obeys_eq_spec() -> bool {
        true
    }

    open spec fn eq_spec(&self, other: &Self) -> bool {
        *self == *other
    }
}

impl PartialEq for CardUid {
    fn eq(&self, other: &Self) -> (r: bool) {
        let mut i: usize = 0;
        while i < 4
            invariant
                i <= 4,
                forall|j: int| 0 <= j < i ==> #[trigger] self.0@[j] == other.0@[j],
            decreases 4 - i,
        {
            if self.0[i] != other.0[i] {
                return false;
            }
            i += 1;
        }
        proof {
            lemma_card_by_bytes(*self, *other);
        }
        true
    }
}

impl Eq for CardUid {

}

impl vstd::std_specs::cmp::PartialEqSpecImpl for CardUid {
    open spec fn obeys_eq_spec() -> bool {
        true
    }

    open spec fn eq_spec(&self, other: &Self) -> bool {
        *self == *other
    }
}

impl Default for Uid {
    fn default() -> (r: Self)
        ensures
            forall|i: int| 0 <= i < 8 ==> #[trigger] r.0@[i] == 0,
    {
        Uid([0;8])
    }
}

impl Default for CardUid {
    fn default() -> (r: Self)
        ensures
            forall|i: int| 0 <= i < 4 ==> #[trigger] r.0@[i] == 0,
    {
        CardUid([0;4])
    }
}

impl Uid {
    /// Most-significant byte first, as printed on datasheets and tag labels. ISO 15693
    /// identifiers always start `E0` in this order.
    pub fn display_order(&self) -> (r: [u8; 8])
        ensures
            r@ == self.0@.reverse(),
    {
        let b: [u8; 8] = self.0;
        let r: [u8; 8] = [b[7], b[6], b[5], b[4], b[3], b[2], b[1], b[0]];
        assert(r@ =~= self.0@.reverse());
        r
    }

    /// The manufacturer byte: `0x04` for NXP, i.e. ICODE.
    pub fn manufacturer(&self) -> (r: u8)
        ensures
            r == self.0@[6],
    {
        self.0[6]
    }

    /// The identifier that a printed form stands for: sixteen hexadecimal digits, separators
    /// aside, of which the first two are `E0`.
    pub open spec fn printed(s: Seq<char>, uid: Option<Uid>) -> bool {
        match text::hex_bytes(s, 8) {
            Some(b) => if b[0] == 0xe0 {
                uid is Some && (uid->0).0@ == b.reverse()
            } else {
                uid is None
            },
            None => uid is None,
        }
    }

    /// Parse an identifier written the way it is printed and quoted: most significant byte
    /// first, starting `E0`. Separators (`:`, `-`, `_`, space) are ignored, case does not
    /// matter.
    ///
    /// Rejects anything that is not well-formed rather than accepting it quietly: a typo in
    /// the configuration would otherwise produce a device that can never be recognised.
    pub fn from_display_hex(s: &str) -> (r: Option<Self>)
        ensures
            Self::printed(s@, r),
    {
        match text::parse_hex(s, 8) {
            None => None,
            Some(b) => {
                if b[0] != 0xe0 {
                    return None;
                }
                let uid = Uid([b[7], b[6], b[5], b[4], b[3], b[2], b[1], b[0]]);
                assert(uid.0@ =~= b@.reverse());
                Some(uid)
            },
        }
    }
}

impl CardUid {
    /// Parse from printed hex, most significant byte first. Separators are ignored.
    pub fn from_hex(s: &str) -> (r: Option<Self>)
        ensures
            match text::hex_bytes(s@, 4) {
                Some(b) => r is Some && (r->0).0@ == b,
                None => r is None,
            },
    {
        match text::parse_hex(s, 4) {
            None => None,
            Some(b) => {
                let uid = CardUid([b[0], b[1], b[2], b[3]]);
                assert(uid.0@ =~= b@);
                Some(uid)
            },
        }
    }
}

/// Whether a buffer holds an inventory response: flags without the error bit, the DSFID, and
/// an identifier whose last byte is `E0`.
pub open spec fn is_inventory_response(buf: Seq<u8>) -> bool {
    buf.len() >= 10 && buf[0] % 2 == 0 && buf[9] == 0xe0
}

/// Whether `uid` is what an inventory response identifies.
pub open spec fn identifies(buf: Seq<u8>, uid: Option<Uid>) -> bool {
    if is_inventory_response(buf) {
        uid is Some && (uid->0).0@ == buf.subrange(2, 10)
    } else {
        uid is None
    }
}

/// Decode an inventory response: flags, DSFID, then eight identifier bytes.
///
/// Bit 0 of the flags is the error flag; a tag reporting an error has not given a usable
/// identity. Every ISO 15693 identifier begins `E0` in display order, i.e. in the last wire
/// byte, which rejects framing slips that would otherwise look like a valid tag.
pub fn parse_inventory_response(buf: &[u8]) -> (r: Option<Uid>)
    ensures
        identifies(buf@, r),
{
    if buf.len() < 10 {
        return None;
    }
    if buf[0] % 2 != 0 {
        return None;
    }
    if buf[9] != 0xe0 {
        return None;
    }
    let uid = Uid([buf[2], buf[3], buf[4], buf[5], buf[6], buf[7], buf[8], buf[9]]);
    assert(uid.0@ =~= buf@.subrange(2, 10));
    Some(uid)
}

/// Whether a buffer holds an anticollision response: four identifier bytes, not the start of a
/// longer identifier (`88`), and their XOR.
pub open spec fn is_anticollision(buf: Seq<u8>) -> bool {
    buf.len() >= 5 && buf[0] ^ buf[1] ^ buf[2] ^ buf[3] == buf[4] && buf[0] != 0x88
}

/// Whether `uid` is what an anticollision response identifies.
pub open spec fn identifies_card(buf: Seq<u8>, uid: Option<CardUid>) -> bool {
    if is_anticollision(buf) {
        uid is Some && (uid->0).0@ == buf.take(4)
    } else {
        uid is None
    }
}

/// Decode an ISO 14443A anticollision response: four identifier bytes then the BCC.
///
/// The BCC is an XOR checksum over the identifier, and the only guard against a misframed read
/// here. `0x88` is the cascade tag, meaning this is only the first fragment of a longer
/// identifier.
pub fn parse_anticollision(buf: &[u8]) -> (r: Option<CardUid>)
    ensures
        identifies_card(buf@, r),
{
    if buf.len() < 5 {
        return None;
    }
    if buf[0] ^ buf[1] ^ buf[2] ^ buf[3] != buf[4] {
        return None;
    }
    if buf[0] == 0x88 {
        return None;
    }
    let uid = CardUid([buf[0], buf[1], buf[2], buf[3]]);
    assert(uid.0@ =~= buf@.take(4));
    Some(uid)
}

/// Smooths tag presence over consecutive inventory rounds.
///
/// A tag is believed present the moment it is seen, and believed gone only after it has been
/// missing from several rounds in a row. Tracking that per tag rather than per count is the
/// point: with two tags in the field, a round that happens to see only one of them must not
/// swap which device is present.
pub struct TagSet<const N: usize> {
    pub tags: [Uid; N],
    /// Rounds since each tag was last seen.
    pub missing: [u32; N],
    pub len: usize,
    pub limit: u32,
}

/// Whether a tag is among the entries.
pub open spec fn believed(entries: Seq<(Uid, u32)>, uid: Uid) -> bool {
    exists|i: int| 0 <= i < entries.len() && (#[trigger] entries[i]).0 == uid
}

/// The entry at `k` after a round: seen again, missing for one more round, or, when it has been
/// missing for more rounds than the limit, replaced by the last entry.
pub open spec fn aged_at(
    entries: Seq<(Uid, u32)>,
    seen: Seq<Uid>,
    limit: u32,
    k: int,
) -> Seq<(Uid, u32)> {
    let (uid, missing) = entries[k];
    if seen.contains(uid) {
        entries.update(k, (uid, 0))
    } else if missing + 1 > limit {
        entries.update(k, entries.last()).drop_last()
    } else {
        entries.update(k, (uid, (missing + 1) as u32))
    }
}

/// The first `n` entries aged by a round, from the last of them down.
pub open spec fn aged(entries: Seq<(Uid, u32)>, seen: Seq<Uid>, limit: u32, n: nat) -> Seq<
    (Uid, u32),
>
    decreases n,
{
    if n == 0 {
        entries
    } else {
        aged(aged_at(entries, seen, limit, n - 1), seen, limit, (n - 1) as nat)
    }
}

/// The entries with the first `n` tags seen added, as far as there is room.
pub open spec fn joined(entries: Seq<(Uid, u32)>, seen: Seq<Uid>, room: nat, n: nat) -> Seq<
    (Uid, u32),
>
    decreases n,
{
    if n == 0 {
        entries
    } else {
        let before = joined(entries, seen, room, (n - 1) as nat);
        let uid = seen[n - 1];
        if !believed(before, uid) && before.len() < room {
            before.push((uid, 0))
        } else {
            before
        }
    }
}

/// The entries after a round.
pub open spec fn after_round(entries: Seq<(Uid, u32)>, seen: Seq<Uid>, limit: u32, room: nat) -> Seq<
    (Uid, u32),
> {
    joined(aged(entries, seen, limit, entries.len()), seen, room, seen.len())
}

/// Whether a slice of tags holds one.
pub fn holds_tag(tags: &[Uid], uid: &Uid) -> (r: bool)
    ensures
        r == tags@.contains(*uid),
{
    let mut i: usize = 0;
    while i < tags.len()
        invariant
            i <= tags.len(),
            forall|j: int| 0 <= j < i ==> #[trigger] tags@[j] != *uid,
        decreases tags.len() - i,
    {
        if tags[i] == *uid {
            assert(tags@[i as int] == *uid);
            return true;
        }
        i += 1;
    }
    false
}

impl<const N: usize> TagSet<N> {
    /// The tags believed present, each with the rounds it has been missing.
    pub open spec fn entries(self) -> Seq<(Uid, u32)> {
        Seq::new(self.len as nat, |i: int| (self.tags@[i], self.missing@[i]))
    }

    /// No more tags than there is room for, none of them twice, none missing for too long.
    pub open spec fn wf(self) -> bool {
        &&& self.len <= N
        &&& forall|i: int, j: int|
            0 <= i < j < self.len ==> #[trigger] self.tags@[i] != #[trigger] self.tags@[j]
        &&& forall|i: int| 0 <= i < self.len ==> #[trigger] self.missing@[i] <= self.limit
    }

    /// `limit` is how many consecutive rounds a tag may be missing before it counts as gone.
    /// Zero means believe every round exactly as it comes.
    pub fn new(limit: u32) -> (r: Self)
        ensures
            r.wf(),
            r.entries() == Seq::<(Uid, u32)>::empty(),
            r.limit == limit,
    {
        let r = TagSet { tags: [Uid([0;8]);N], missing: [0;N], len: 0, limit };
        assert(r.entries() =~= Seq::<(Uid, u32)>::empty());
        r
    }

    /// The tags believed present.
    pub fn tags(&self) -> (r: &[Uid])
        requires
            self.wf(),
        ensures
            r@ == self.tags@.take(self.len as int),
            r@ == self.entries().map_values(|e: (Uid, u32)| e.0),
    {
        assert(self.tags@.take(self.len as int) =~= self.entries().map_values(
            |e: (Uid, u32)| e.0,
        ));
        vstd::slice::slice_subrange(self.tags.as_slice(), 0, self.len)
    }

    /// Whether a tag is believed present.
    pub fn contains(&self, uid: &Uid) -> (r: bool)
        requires
            self.wf(),
        ensures
            r == believed(self.entries(), *uid),
    {
        let r: bool = holds_tag(self.tags(), uid);
        proof {
            let s = self.tags@.take(self.len as int);
            if r {
                let i = choose|i: int| 0 <= i < s.len() && s[i] == *uid;
                assert(self.entries()[i].0 == *uid);
            }
            if believed(self.entries(), *uid) {
                let i = choose|i: int|
                    0 <= i < self.entries().len() && (#[trigger] self.entries()[i]).0 == *uid;
                assert(s[i] == *uid);
            }
        }
        r
    }

    /// Age the entries, dropping those missing for too long.
    fn age(&mut self, seen: &[Uid])
        requires
            old(self).wf(),
            forall|i: int| 0 <= i < old(self).len ==> #[trigger] old(self).missing@[i] < u32::MAX,
        ensures
            final(self).wf(),
            final(self).limit == old(self).limit,
            final(self).entries() == aged(
                old(self).entries(),
                seen@,
                old(self).limit,
                old(self).len as nat,
            ),
    {
        let mut i: usize = self.len;
        let ghost whole = aged(self.entries(), seen@, self.limit, self.len as nat);
        let limit: u32 = self.limit;
        while i > 0
            invariant
                i <= self.len,
                self.wf(),
                self.limit == limit,
                forall|j: int| 0 <= j < i ==> #[trigger] self.missing@[j] < u32::MAX,
                aged(self.entries(), seen@, limit, i as nat) == whole,
            decreases i,
        {
            let ghost before = self.entries();
            i -= 1;
            if holds_tag(seen, &self.tags[i]) {
                self.missing[i] = 0;
            } else {
                let gone: u32 = self.missing[i] + 1;
                if gone > limit {
                    self.len = self.len - 1;
                    self.tags[i] = self.tags[self.len];
                    self.missing[i] = self.missing[self.len];
                } else {
                    self.missing[i] = gone;
                }
            }
            assert(self.entries() =~= aged_at(before, seen@, limit, i as int));
        }
    }

    /// Fold one round's reading in, and return the believed set.
    ///
    /// Newly seen tags are believed at once: a device being put back should register
    /// immediately, where a device going quiet deserves the benefit of the doubt.
    pub fn update(&mut self, seen: &[Uid]) -> (r: &[Uid])
        requires
            old(self).wf(),
            forall|i: int| 0 <= i < old(self).len ==> #[trigger] old(self).missing@[i] < u32::MAX,
        ensures
            final(self).wf(),
            final(self).limit == old(self).limit,
            final(self).entries() == after_round(
                old(self).entries(),
                seen@,
                old(self).limit,
                N as nat,
            ),
            r@ == final(self).entries().map_values(|e: (Uid, u32)| e.0),
    {
        self.age(seen);
        let ghost base = self.entries();
        let ghost limit = self.limit;
        let mut k: usize = 0;
        while k < seen.len()
            invariant
                k <= seen.len(),
                self.wf(),
                self.limit == limit,
                self.entries() == joined(base, seen@, N as nat, k as nat),
            decreases seen.len() - k,
        {
            let ghost before = self.entries();
            let uid: Uid = seen[k];
            if !self.contains(&uid) && self.len < N {
                assert forall|j: int| 0 <= j < self.len implies #[trigger] self.tags@[j] != uid by {
                    assert(before[j].0 == self.tags@[j]);
                }
                self.tags[self.len] = uid;
                self.missing[self.len] = 0;
                self.len = self.len + 1;
                assert(self.entries() =~= before.push((uid, 0)));
            }
            k += 1;
        }
        self.tags()
    }
}

/// What ageing keeps: every tag that was seen, and those not yet missing for too long.
proof fn lemma_aged(entries: Seq<(Uid, u32)>, seen: Seq<Uid>, limit: u32, n: nat, uid: Uid)
    requires
        n <= entries.len(),
    ensures
        believed(aged(entries, seen, limit, n), uid) <==> exists|j: int|
            #![trigger entries[j]]
            0 <= j < entries.len() && entries[j].0 == uid && (j >= n || seen.contains(uid)
                || entries[j].1 + 1 <= limit),
    decreases n,
{
    if n > 0 {
        let k = n - 1;
        let next = aged_at(entries, seen, limit, k);
        lemma_aged(next, seen, limit, k as nat, uid);
        assert(believed(aged(entries, seen, limit, n), uid) <==> exists|j: int|
            #![trigger next[j]]
            0 <= j < next.len() && next[j].0 == uid && (j >= k || seen.contains(uid) || next[j].1
                + 1 <= limit));
        let e = entries[k];
        let dropped = !seen.contains(e.0) && e.1 + 1 > limit;
        if exists|j: int|
            #![trigger entries[j]]
            0 <= j < entries.len() && entries[j].0 == uid && (j >= n || seen.contains(uid)
                || entries[j].1 + 1 <= limit) {
            let j = choose|j: int|
                #![trigger entries[j]]
                0 <= j < entries.len() && entries[j].0 == uid && (j >= n || seen.contains(uid)
                    || entries[j].1 + 1 <= limit);
            let at = if dropped && j == entries.len() - 1 { k } else { j };
            assert(next[at].0 == uid);
        }
        if exists|j: int|
            #![trigger next[j]]
            0 <= j < next.len() && next[j].0 == uid && (j >= k || seen.contains(uid) || next[j].1
                + 1 <= limit) {
            let j = choose|j: int|
                #![trigger next[j]]
                0 <= j < next.len() && next[j].0 == uid && (j >= k || seen.contains(uid)
                    || next[j].1 + 1 <= limit);
            let at = if dropped && j == k { entries.len() - 1 } else { j };
            assert(entries[at].0 == uid);
        }
    }
}

proof fn lemma_joined(entries: Seq<(Uid, u32)>, seen: Seq<Uid>, room: nat, n: nat, uid: Uid)
    requires
        n <= seen.len(),
    ensures
        believed(entries, uid) ==> believed(joined(entries, seen, room, n), uid),
        believed(joined(entries, seen, room, n), uid) ==> believed(entries, uid)
            || seen.contains(uid),
        joined(entries, seen, room, n).len() >= entries.len(),
        forall|j: int|
            0 <= j < n && #[trigger] seen[j] == uid ==> believed(
                joined(entries, seen, room, n),
                uid,
            ) || joined(entries, seen, room, n).len() >= room,
    decreases n,
{
    if n > 0 {
        let m = (n - 1) as nat;
        lemma_joined(entries, seen, room, m, uid);
        let before = joined(entries, seen, room, m);
        let after = joined(entries, seen, room, n);
        if believed(before, uid) {
            let i = choose|i: int| 0 <= i < before.len() && (#[trigger] before[i]).0 == uid;
            assert(after[i].0 == uid);
        }
        if believed(after, uid) && !believed(before, uid) {
            let i = choose|i: int| 0 <= i < after.len() && (#[trigger] after[i]).0 == uid;
            assert(i == before.len());
            assert(seen[m as int] == uid);
        }
        if seen[m as int] == uid && !believed(before, uid) && before.len() < room {
            assert(after[before.len() as int].0 == uid);
        }
    }
}

/// A tag that is seen is believed at once, unless there is no room for it; a tag that was
/// believed and is not seen stays exactly as long as it has not been missing for more rounds
/// than the limit; and nothing else is believed, so a round that sees one tag never makes
/// another come or go.
pub proof fn presence_is_kept_per_tag(
    entries: Seq<(Uid, u32)>,
    seen: Seq<Uid>,
    limit: u32,
    room: nat,
    uid: Uid,
)
    ensures
        ({
            let after = after_round(entries, seen, limit, room);
            &&& seen.contains(uid) ==> believed(after, uid) || after.len() >= room
            &&& seen.contains(uid) && believed(entries, uid) ==> believed(after, uid)
            &&& !seen.contains(uid) ==> (believed(after, uid) <==> exists|j: int|
                #![trigger entries[j]]
                0 <= j < entries.len() && entries[j].0 == uid && entries[j].1 + 1 <= limit)
        }),
{
    let mid = aged(entries, seen, limit, entries.len());
    lemma_aged(entries, seen, limit, entries.len(), uid);
    lemma_joined(mid, seen, room, seen.len(), uid);
    if seen.contains(uid) {
        let j = choose|j: int| 0 <= j < seen.len() && seen[j] == uid;
        assert(seen[j] == uid);
        if believed(entries, uid) {
            let i = choose|i: int| 0 <= i < entries.len() && (#[trigger] entries[i]).0 == uid;
            assert(entries[i].0 == uid);
        }
    }
}

proof fn lemma_aged_counts(entries: Seq<(Uid, u32)>, seen: Seq<Uid>, limit: u32, n: nat, j: int)
    requires
        n <= entries.len(),
        0 <= j < entries.len(),
    ensures
        j >= n ==> aged(entries, seen, limit, n).contains(entries[j]),
        j < n && seen.contains(entries[j].0) ==> aged(entries, seen, limit, n).contains(
            (entries[j].0, 0),
        ),
        j < n && !seen.contains(entries[j].0) && entries[j].1 + 1 <= limit ==> aged(
            entries,
            seen,
            limit,
            n,
        ).contains((entries[j].0, (entries[j].1 + 1) as u32)),
    decreases n,
{
    if n > 0 {
        let k = n - 1;
        let next = aged_at(entries, seen, limit, k);
        let e = entries[k];
        let dropped = !seen.contains(e.0) && e.1 + 1 > limit;
        if dropped {
            if j == entries.len() - 1 && j > k {
                assert(next[k] == entries[j]);
                lemma_aged_counts(next, seen, limit, k as nat, k);
            } else if j != k {
                assert(next[j] == entries[j]);
                lemma_aged_counts(next, seen, limit, k as nat, j);
            }
        } else {
            assert(j != k ==> next[j] == entries[j]);
            lemma_aged_counts(next, seen, limit, k as nat, j);
        }
    } else {
        assert(aged(entries, seen, limit, n)[j] == entries[j]);
    }
}

proof fn lemma_joined_keeps(entries: Seq<(Uid, u32)>, seen: Seq<Uid>, room: nat, n: nat, e: (Uid, u32))
    requires
        entries.contains(e),
    ensures
        joined(entries, seen, room, n).contains(e),
    decreases n,
{
    if n > 0 {
        let m = (n - 1) as nat;
        lemma_joined_keeps(entries, seen, room, m, e);
        let before = joined(entries, seen, room, m);
        let i = choose|i: int| 0 <= i < before.len() && before[i] == e;
        assert(joined(entries, seen, room, n)[i] == e);
    }
}

/// The rounds that a tag has been missing are counted: none once it is seen, and one more each round
/// that it is not, up to the limit.
pub proof fn rounds_missing_are_counted(
    entries: Seq<(Uid, u32)>,
    seen: Seq<Uid>,
    limit: u32,
    room: nat,
    j: int,
)
    requires
        0 <= j < entries.len(),
    ensures
        ({
            let after = after_round(entries, seen, limit, room);
            let (uid, missing) = entries[j];
            &&& seen.contains(uid) ==> after.contains((uid, 0))
            &&& !seen.contains(uid) && missing < limit ==> after.contains(
                (uid, (missing + 1) as u32),
            )
        }),
{
    let (uid, missing) = entries[j];
    lemma_aged_counts(entries, seen, limit, entries.len(), j);
    let mid = aged(entries, seen, limit, entries.len());
    if seen.contains(uid) {
        lemma_joined_keeps(mid, seen, room, seen.len(), (uid, 0));
    } else if missing < limit {
        lemma_joined_keeps(mid, seen, room, seen.len(), (uid, (missing + 1) as u32));
    }
}

/// What a tag sends is read as the identifier that it has: behind a byte of flags without the error
/// bit and one more, whatever follows.
pub proof fn a_tag_is_read_as_it_answers(
    uid: Uid,
    flags: u8,
    family: u8,
    rest: Seq<u8>,
    read: Option<Uid>,
)
    requires
        uid.0@[7] == 0xe0,
        identifies(seq![flags, family] + uid.0@ + rest, read),
    ensures
        flags % 2 == 0 ==> read == Some(uid),
        flags % 2 == 1 ==> read is None,
{
    let buf = seq![flags, family] + uid.0@ + rest;
    assert(buf[9] == uid.0@[7]);
    if flags % 2 == 0 {
        assert(buf.subrange(2, 10) =~= uid.0@);
        lemma_uid_by_bytes(read->0, uid);
    }
}

/// What a card sends is read as the identifier that it has, where the checksum behind it is right
/// and it is not the start of a longer one.
pub proof fn a_card_is_read_as_it_answers(uid: CardUid, check: u8, rest: Seq<u8>, read: Option<CardUid>)
    requires
        identifies_card(uid.0@ + seq![check] + rest, read),
    ensures
        read is Some <==> uid.0@[0] != 0x88 && check == uid.0@[0] ^ uid.0@[1] ^ uid.0@[2]
            ^ uid.0@[3],
        read is Some ==> read == Some(uid),
{
    let buf = uid.0@ + seq![check] + rest;
    assert(buf.take(4) =~= uid.0@);
    assert(buf[0] == uid.0@[0] && buf[1] == uid.0@[1] && buf[2] == uid.0@[2] && buf[3] == uid.0@[3]);
    assert(buf[4] == check);
    if read is Some {
        lemma_card_by_bytes(read->0, uid);
    }
}

} // verus!
