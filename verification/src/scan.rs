//! What is in the field, and which devices that puts back.
use crate::fixed;
use crate::pn5180;
use crate::pn5180::driver;
use crate::pn5180::driver::{BusyPin, Delay, Pn5180, SpiBus};
use crate::pn5180::{CardUid, Error, TagSet, Uid};
use crate::reader;
use crate::reader::MAX_TAGS;
use crate::text;
use vstd::prelude::*;

verus! {

/// Rounds a tag may be missing before it counts as gone. A tag is passive and sits at the edge
/// of the field, so single dropped reads are routine.
pub const MISS_LIMIT: u32 = 3;

/// Consecutive identical reads before a new card is accepted.
pub const CARD_CONFIRM: u32 = 2;

/// Consecutive empty polls before a card counts as gone. A card is re-powered from cold on
/// every poll, so short dropouts are normal even when it has not moved.
pub const CARD_MISS_LIMIT: u32 = 6;

/// Reader failures tolerated before saying so.
pub const FAILURES_BEFORE_ALERT: u32 = 5;

/// An identifier as it is printed: most significant byte first.
pub open spec fn uid_text(uid: Uid) -> Seq<char> {
    text::hex(uid.0@.reverse())
}

/// Format an identifier for a message, most significant byte first.
pub fn uid_hex(uid: &Uid) -> (r: heapless::String<16>)
    ensures
        fixed::holds(r, uid_text(*uid)),
{
    let mut out = String::new();
    let bytes: [u8; 8] = uid.display_order();
    text::push_hex(&mut out, bytes.as_slice());
    assert(out@ =~= uid_text(*uid));
    proof {
        text::hex_is_ascii(uid.0@.reverse());
        fixed::ascii_takes_one_byte_each(uid_text(*uid));
    }
    match fixed::fit(out.as_str()) {
        Some(s) => s,
        None => fixed::empty(),
    }
}

/// Format a card identifier for a message, most significant byte first.
pub fn card_hex(uid: &CardUid) -> (r: heapless::String<8>)
    ensures
        fixed::holds(r, text::hex(uid.0@)),
{
    let mut out = String::new();
    text::push_hex(&mut out, uid.0.as_slice());
    assert(out@ =~= text::hex(uid.0@));
    proof {
        text::hex_is_ascii(uid.0@);
        fixed::ascii_takes_one_byte_each(text::hex(uid.0@));
    }
    match fixed::fit(out.as_str()) {
        Some(s) => s,
        None => fixed::empty(),
    }
}

/// A printed identifier is parsed back to the tag it was copied from.
pub proof fn printed_form_leads_back(uid: Uid)
    requires
        uid.0@[7] == 0xe0,
    ensures
        Uid::printed(uid_text(uid), Some(uid)),
{
    let shown = uid.0@.reverse();
    text::hex_round_trip(shown);
    assert(shown.len() == 8);
    assert(shown[0] == uid.0@[7]);
    assert(shown.reverse() =~= uid.0@);
}

/// Some tags, each led by a blank.
pub open spec fn tag_list(tags: Seq<Uid>) -> Seq<char>
    decreases tags.len(),
{
    if tags.len() == 0 {
        Seq::empty()
    } else {
        tag_list(tags.drop_last()) + " "@ + uid_text(tags.last())
    }
}

/// What is logged when the tags in the field change.
pub open spec fn tags_line(tags: Seq<Uid>) -> Seq<char> {
    "reader: "@ + text::decimal(tags.len()) + " tag(s)"@ + tag_list(tags)
}

fn push_uid(out: &mut String, uid: &Uid)
    ensures
        final(out)@ == old(out)@ + uid_text(*uid),
{
    let bytes: [u8; 8] = uid.display_order();
    text::push_hex(out, bytes.as_slice());
}

/// What to log when the tags in the field change.
pub fn describe_tags(tags: &[Uid]) -> (r: String)
    ensures
        r@ == tags_line(tags@),
{
    let mut out = String::new();
    out.append("reader: ");
    text::push_decimal(&mut out, tags.len() as u64);
    out.append(" tag(s)");
    let ghost head = out@;
    let mut i: usize = 0;
    assert(tags@.take(0) =~= Seq::<Uid>::empty());
    assert(out@ =~= head + tag_list(tags@.take(0)));
    while i < tags.len()
        invariant
            i <= tags@.len(),
            out@ == head + tag_list(tags@.take(i as int)),
        decreases tags@.len() - i,
    {
        out.append(" ");
        push_uid(&mut out, &tags[i]);
        proof {
            let upto = tags@.take(i + 1);
            assert(upto.drop_last() =~= tags@.take(i as int));
            assert(out@ =~= head + tag_list(upto));
        }
        i += 1;
    }
    assert(tags@.take(i as int) =~= tags@);
    assert(out@ =~= tags_line(tags@));
    out
}

/// Tracks which tags are present, and reports only when that changes.
pub struct Scan {
    pub set: TagSet<MAX_TAGS>,
    pub last: usize,
    pub known: [Uid; MAX_TAGS],
}

/// What one poll of the field came to.
pub struct Poll {
    /// The tags believed present, or `None` if the reader failed.
    pub tags: Option<Vec<Uid>>,
    /// What to log, if anything.
    pub line: Option<String>,
}

/// Whether a slice holds every tag of another.
fn holds_all(tags: &[Uid], known: &[Uid]) -> (r: bool)
    ensures
        r == (forall|i: int| 0 <= i < tags@.len() ==> known@.contains(#[trigger] tags@[i])),
{
    let mut i: usize = 0;
    while i < tags.len()
        invariant
            i <= tags@.len(),
            forall|j: int| 0 <= j < i ==> known@.contains(#[trigger] tags@[j]),
        decreases tags@.len() - i,
    {
        if !pn5180::holds_tag(known, &tags[i]) {
            assert(!known@.contains(tags@[i as int]));
            return false;
        }
        i += 1;
    }
    true
}

impl Default for Scan {
    fn default() -> (r: Self)
        ensures
            r.wf(),
            r.set.entries() == Seq::<(Uid, u32)>::empty(),
            r.reported() == Seq::<Uid>::empty(),
    {
        let r = Scan { set: TagSet::new(MISS_LIMIT), last: 0, known: [Uid([0;8]);MAX_TAGS] };
        assert(r.reported() =~= Seq::<Uid>::empty());
        r
    }
}

impl Scan {
    pub open spec fn wf(self) -> bool {
        self.set.wf() && self.set.limit == MISS_LIMIT && self.last <= MAX_TAGS
    }

    /// The tags that were logged last.
    pub open spec fn reported(self) -> Seq<Uid> {
        self.known@.take(self.last as int)
    }

    /// Whether the believed tags differ from those logged last.
    pub open spec fn differs(self, tags: Seq<Uid>) -> bool {
        tags.len() != self.last || exists|i: int|
            0 <= i < tags.len() && !self.reported().contains(#[trigger] tags[i])
    }

    /// The tags believed present after a round that saw `seen`.
    pub open spec fn after(self, seen: Seq<Uid>) -> Seq<Uid> {
        pn5180::after_round(
            self.set.entries(),
            seen,
            MISS_LIMIT,
            MAX_TAGS as nat,
        ).map_values(|e: (Uid, u32)| e.0)
    }

    /// Fold one round's reading in. Says what to log if the tags changed.
    pub fn note(&mut self, seen: &[Uid]) -> (r: Poll)
        requires
            old(self).wf(),
        ensures
            final(self).wf(),
            final(self).set.entries() == pn5180::after_round(
                old(self).set.entries(),
                seen@,
                MISS_LIMIT,
                MAX_TAGS as nat,
            ),
            r.tags is Some && r.tags->0@ == old(self).after(seen@),
            r.line is Some <==> old(self).differs(old(self).after(seen@)),
            r.line is Some ==> r.line->0@ == tags_line(old(self).after(seen@)),
            final(self).reported() == if old(self).differs(old(self).after(seen@)) {
                old(self).after(seen@)
            } else {
                old(self).reported()
            },
    {
        assert forall|i: int| 0 <= i < self.set.len implies #[trigger] self.set.missing@[i]
            < u32::MAX by {}
        let believed: &[Uid] = self.set.update(seen);
        let mut tags: Vec<Uid> = Vec::new();
        let mut i: usize = 0;
        while i < believed.len()
            invariant
                i <= believed@.len(),
                tags@ == believed@.take(i as int),
            decreases believed@.len() - i,
        {
            tags.push(believed[i]);
            assert(tags@ =~= believed@.take(i + 1));
            i += 1;
        }
        assert(tags@ =~= old(self).after(seen@));
        assert(tags@.len() == self.set.len);
        let known: &[Uid] = vstd::slice::slice_subrange(self.known.as_slice(), 0, self.last);
        assert(known@ =~= old(self).reported());
        let changed: bool = tags.len() != self.last || !holds_all(tags.as_slice(), known);
        if !changed {
            return Poll { tags: Some(tags), line: None };
        }
        let ghost after_set = self.set;
        let mut k: usize = 0;
        while k < tags.len()
            invariant
                k <= tags@.len() <= MAX_TAGS,
                forall|j: int| 0 <= j < k ==> #[trigger] self.known@[j] == tags@[j],
                self.set == after_set,
            decreases tags@.len() - k,
        {
            self.known[k] = tags[k];
            k += 1;
        }
        self.last = tags.len();
        assert(self.reported() =~= tags@);
        let line = describe_tags(tags.as_slice());
        Poll { tags: Some(tags), line: Some(line) }
    }

    /// Poll once. The tags are those believed present, or `None` if the reader failed: an
    /// empty field and a failed reader are not the same.
    pub fn poll<S: SpiBus, B: BusyPin, D: Delay>(&mut self, reader: &mut Pn5180<S, B, D>) -> (r:
        Poll)
        requires
            old(self).wf(),
            old(reader).recoveries + 16 <= u32::MAX,
        ensures
            final(self).wf(),
            old(reader).recoveries <= final(reader).recoveries <= old(reader).recoveries + 16,
            exists|found: Result<Seq<Uid>, Error>|
                #[trigger] round_found(*old(reader), *final(reader), found) && match found {
                    Ok(seen) => {
                        &&& r.tags is Some
                        &&& r.tags->0@ == old(self).after(seen)
                        &&& r.line is Some <==> old(self).differs(r.tags->0@)
                        &&& r.line is Some ==> r.line->0@ == tags_line(r.tags->0@)
                        &&& final(self).set.entries() == pn5180::after_round(
                            old(self).set.entries(),
                            seen,
                            MISS_LIMIT,
                            MAX_TAGS as nat,
                        )
                        &&& final(self).reported() == if old(self).differs(r.tags->0@) {
                            r.tags->0@
                        } else {
                            old(self).reported()
                        }
                    },
                    Err(e) => {
                        &&& r.tags is None
                        &&& r.line is Some
                        &&& r.line->0@ == "reader: inventory failed ("@ + reader::error_word(e)
                            + ")"@
                        &&& *final(self) == *old(self)
                    },
                },
    {
        let (found, error): (Vec<Uid>, Option<Error>) = one_round(reader, false);
        assert(round_found(*old(reader), *reader, told(found@, error)));
        match error {
            None => self.note(found.as_slice()),
            Some(e) => {
                let mut line: String = "reader: inventory failed (".to_owned();
                line.append(reader::error_name(&e));
                line.append(")");
                Poll { tags: None, line: Some(line) }
            },
        }
    }
}

/// What one poll for a card came to: `None` means the reader failed, `Some(None)` that it
/// worked and no card is there. Collapsing the two would let a broken reader pass for a card
/// that was taken. An error comes with what to log.
pub fn poll_card<S: SpiBus, B: BusyPin, D: Delay>(reader: &mut Pn5180<S, B, D>) -> (r: (
    Option<Option<CardUid>>,
    Option<String>,
))
    requires
        old(reader).recoveries + 6 <= u32::MAX,
    ensures
        exists|found: Result<Option<CardUid>, Error>|
            #[trigger] Pn5180::card_polled(*old(reader), *final(reader), found) && match found {
                Ok(card) => r.0 == Some(card) && r.1 is None,
                Err(e) => r.0 is None && r.1 is Some && r.1->0@ == "reader: card poll failed ("@
                    + reader::error_word(e) + ")"@,
            },
{
    let found: Result<Option<CardUid>, Error> = reader.iso14443a_uid();
    assert(Pn5180::card_polled(*old(reader), *reader, found));
    match found {
        Ok(u) => (Some(u), None),
        Err(e) => {
            let mut line: String = "reader: card poll failed (".to_owned();
            line.append(reader::error_name(&e));
            line.append(")");
            (None, Some(line))
        },
    }
}

/// Debounces card reads.
///
/// A card at the edge of the field drops out for single polls, and a garbled frame occasionally
/// passes the eight-bit checksum. So a new identity has to appear twice in a row to be believed,
/// and an absence has to persist before it counts.
pub struct CardTracker {
    pub current: Option<CardUid>,
    pub candidate: Option<CardUid>,
    pub candidate_hits: u32,
    pub misses: u32,
}

impl Default for CardTracker {
    fn default() -> (r: Self)
        ensures
            r == (CardTracker { current: None, candidate: None, candidate_hits: 0, misses: 0 }),
    {
        CardTracker { current: None, candidate: None, candidate_hits: 0, misses: 0 }
    }
}

fn is_card(a: &Option<CardUid>, b: &CardUid) -> (r: bool)
    ensures
        r == (*a == Some(*b)),
{
    match a {
        None => false,
        Some(x) => *x == *b,
    }
}

impl CardTracker {
    /// The tracker after a poll.
    pub open spec fn after(self, raw: Option<CardUid>) -> CardTracker {
        match raw {
            Some(u) => if self.current == Some(u) {
                CardTracker { candidate: None, candidate_hits: 0, misses: 0, ..self }
            } else if self.candidate == Some(u) {
                if self.candidate_hits + 1 >= CARD_CONFIRM {
                    CardTracker { current: Some(u), candidate: None, candidate_hits: 0, misses: 0 }
                } else {
                    CardTracker {
                        candidate_hits: (self.candidate_hits + 1) as u32,
                        misses: 0,
                        ..self
                    }
                }
            } else {
                CardTracker { candidate: Some(u), candidate_hits: 1, misses: 0, ..self }
            },
            None => CardTracker {
                current: if self.misses + 1 >= CARD_MISS_LIMIT {
                    None
                } else {
                    self.current
                },
                candidate: None,
                candidate_hits: 0,
                misses: (self.misses + 1) as u32,
            },
        }
    }

    /// Fold one poll in, and return the card believed present.
    pub fn update(&mut self, raw: Option<CardUid>) -> (r: Option<CardUid>)
        requires
            old(self).misses < u32::MAX,
            old(self).candidate_hits < u32::MAX,
        ensures
            *final(self) == old(self).after(raw),
            r == final(self).current,
    {
        match raw {
            Some(u) => {
                self.misses = 0;
                if is_card(&self.current, &u) {
                    self.candidate = None;
                    self.candidate_hits = 0;
                } else if is_card(&self.candidate, &u) {
                    self.candidate_hits = self.candidate_hits + 1;
                    if self.candidate_hits >= CARD_CONFIRM {
                        self.current = Some(u);
                        self.candidate = None;
                        self.candidate_hits = 0;
                    }
                } else {
                    self.candidate = Some(u);
                    self.candidate_hits = 1;
                }
            },
            None => {
                self.candidate = None;
                self.candidate_hits = 0;
                self.misses = self.misses + 1;
                if self.misses >= CARD_MISS_LIMIT {
                    self.current = None;
                }
            },
        }
        self.current
    }
}

/// One reading of another card does not change what is believed; two in a row do.
pub proof fn a_card_is_believed_the_second_time(t: CardTracker, u: CardUid)
    requires
        t.current != Some(u),
        t.candidate != Some(u),
    ensures
        t.after(Some(u)).current == t.current,
        t.after(Some(u)).after(Some(u)).current == Some(u),
{
}

/// Up to five empty polls in a row leave the card in place; the sixth takes it away.
pub proof fn a_card_survives_short_dropouts(t: CardTracker, n: nat)
    requires
        t.misses == 0,
        n <= CARD_MISS_LIMIT,
    ensures
        empty_polls(t, n).misses == n,
        n < CARD_MISS_LIMIT ==> empty_polls(t, n).current == t.current,
        n == CARD_MISS_LIMIT ==> empty_polls(t, n).current is None,
    decreases n,
{
    if n > 0 {
        a_card_survives_short_dropouts(t, (n - 1) as nat);
    }
}

/// The tracker after `n` empty polls.
pub open spec fn empty_polls(t: CardTracker, n: nat) -> CardTracker
    decreases n,
{
    if n == 0 {
        t
    } else {
        empty_polls(t, (n - 1) as nat).after(None)
    }
}

/// Maps the tags in the field, and a card, onto each device's `docked` flag.
///
/// A sticker counts where one is configured, and so does a card; with neither, the button does.
/// Both can be configured during a changeover, and either being present counts as put back.
pub struct Docking {
    /// Configured tag per device; `None` means fall back to the button.
    pub known: [Option<Uid>; 2],
    /// Configured card per device.
    pub known_cards: [Option<CardUid>; 2],
    pub last: [bool; 2],
    /// The unknown tag most recently reported.
    pub reported_unknown: Option<Uid>,
    pub consecutive_failures: u32,
}

/// What a poll concluded.
pub struct Docked {
    pub docked: [bool; 2],
    /// A tag in the field belonging to no configured device.
    pub unknown: Option<Uid>,
    /// The reader has been unresponsive long enough to be a fault, not a glitch.
    pub reader_fault: bool,
}

/// Whether a device is put back.
pub open spec fn put_back(
    tag: Option<Uid>,
    known_card: Option<CardUid>,
    seen: Seq<Uid>,
    card: Option<CardUid>,
    fallback: bool,
) -> bool {
    if tag is None && known_card is None {
        fallback
    } else {
        (tag is Some && seen.contains(tag->0)) || (known_card is Some && card == known_card)
    }
}

/// The first tag seen that belongs to no device, if any.
pub open spec fn first_unknown(seen: Seq<Uid>, known: Seq<Option<Uid>>, found: Option<Uid>) -> bool {
    match found {
        None => forall|i: int| 0 <= i < seen.len() ==> known.contains(Some(#[trigger] seen[i])),
        Some(u) => exists|i: int|
            {
                &&& 0 <= i < seen.len()
                &&& #[trigger] seen[i] == u
                &&& !known.contains(Some(u))
                &&& forall|j: int| 0 <= j < i ==> known.contains(Some(#[trigger] seen[j]))
            },
    }
}

impl Docking {
    /// What a reading that failed does.
    pub open spec fn failed(self, after: Docking, r: Docked) -> bool {
        &&& after.last == self.last
        &&& after.reported_unknown == self.reported_unknown
        &&& after.consecutive_failures == self.consecutive_failures + 1
        &&& r.unknown is None
        &&& r.reader_fault == (self.consecutive_failures + 1 == FAILURES_BEFORE_ALERT)
    }

    /// What a reading that worked does.
    pub open spec fn read(
        self,
        seen: Seq<Uid>,
        card: Option<CardUid>,
        fallback: [bool; 2],
        after: Docking,
        r: Docked,
    ) -> bool {
        &&& after.consecutive_failures == 0
        &&& !r.reader_fault
        &&& forall|i: int|
            0 <= i < 2 ==> #[trigger] r.docked@[i] == put_back(
                self.known@[i],
                self.known_cards@[i],
                seen,
                card,
                fallback@[i],
            )
        &&& first_unknown(seen, self.known@, after.reported_unknown)
        &&& r.unknown == if after.reported_unknown == self.reported_unknown {
            None
        } else {
            after.reported_unknown
        }
    }

    /// Start docked: until something is known, do not spend.
    pub fn new(known: [Option<Uid>; 2], known_cards: [Option<CardUid>; 2]) -> (r: Self)
        ensures
            r.known == known,
            r.known_cards == known_cards,
            r.last@ == seq![true, true],
            r.reported_unknown is None,
            r.consecutive_failures == 0,
    {
        let r = Docking {
            known,
            known_cards,
            last: [true, true],
            reported_unknown: None,
            consecutive_failures: 0,
        };
        assert(r.last@ =~= seq![true, true]);
        r
    }

    /// True when no device has any identity configured, so the button is the only input.
    pub fn unconfigured(&self) -> (r: bool)
        ensures
            r == (self.known@[0] is None && self.known@[1] is None && self.known_cards@[0] is None
                && self.known_cards@[1] is None),
    {
        self.known[0].is_none() && self.known[1].is_none() && self.known_cards[0].is_none()
            && self.known_cards[1].is_none()
    }

    fn is_put_back(&self, i: usize, seen: &[Uid], card: &Option<CardUid>, fallback: bool) -> (r: bool)
        requires
            i < 2,
        ensures
            r == put_back(
                self.known@[i as int],
                self.known_cards@[i as int],
                seen@,
                *card,
                fallback,
            ),
    {
        let by_tag: Option<bool> = match self.known[i] {
            Some(uid) => Some(pn5180::holds_tag(seen, &uid)),
            None => None,
        };
        let by_card: Option<bool> = match self.known_cards[i] {
            Some(known) => Some(is_card(card, &known)),
            None => None,
        };
        match (by_tag, by_card) {
            (Some(a), Some(b)) => a || b,
            (Some(a), None) => a,
            (None, Some(b)) => b,
            (None, None) => fallback,
        }
    }

    fn knows(&self, uid: &Uid) -> (r: bool)
        ensures
            r == self.known@.contains(Some(*uid)),
    {
        if let Some(a) = self.known[0] {
            if a == *uid {
                assert(self.known@[0] == Some(*uid));
                return true;
            }
        }
        if let Some(b) = self.known[1] {
            if b == *uid {
                assert(self.known@[1] == Some(*uid));
                return true;
            }
        }
        false
    }

    fn stranger(&self, seen: &[Uid]) -> (r: Option<Uid>)
        ensures
            first_unknown(seen@, self.known@, r),
    {
        let mut i: usize = 0;
        while i < seen.len()
            invariant
                i <= seen@.len(),
                forall|j: int| 0 <= j < i ==> self.known@.contains(Some(#[trigger] seen@[j])),
            decreases seen@.len() - i,
        {
            if !self.knows(&seen[i]) {
                assert(seen@[i as int] == seen[i as int]);
                return Some(seen[i]);
            }
            i += 1;
        }
        None
    }

    /// Fold one reading in. A failed reader holds the last state.
    pub fn update(&mut self, seen: Option<&[Uid]>, card: Option<CardUid>, fallback: [bool; 2]) -> (r:
        Docked)
        requires
            seen is None ==> old(self).consecutive_failures < u32::MAX,
        ensures
            final(self).known == old(self).known,
            final(self).known_cards == old(self).known_cards,
            r.docked == final(self).last,
            match seen {
                None => old(self).failed(*final(self), r),
                Some(seen) => old(self).read(seen@, card, fallback, *final(self), r),
            },
    {
        match seen {
            None => {
                self.consecutive_failures = self.consecutive_failures + 1;
                Docked {
                    docked: self.last,
                    unknown: None,
                    reader_fault: self.consecutive_failures == FAILURES_BEFORE_ALERT,
                }
            },
            Some(seen) => {
                self.consecutive_failures = 0;
                let docked: [bool; 2] = [
                    self.is_put_back(0, seen, &card, fallback[0]),
                    self.is_put_back(1, seen, &card, fallback[1]),
                ];
                self.last = docked;
                let unknown: Option<Uid> = self.stranger(seen);
                let report: Option<Uid> = match (unknown, self.reported_unknown) {
                    (Some(u), Some(prev)) => if u == prev {
                        None
                    } else {
                        Some(u)
                    },
                    (u, _) => u,
                };
                self.reported_unknown = unknown;
                Docked { docked, unknown: report, reader_fault: false }
            },
        }
    }
}

/// Reports cards during bring-up, so their identifiers can be copied into the configuration.
/// Debounced as everywhere else: an unfiltered log would show flapping that the running system
/// never sees.
pub struct Bringup {
    pub tracker: CardTracker,
    pub last: Option<CardUid>,
}

impl Bringup {
    pub fn new() -> (r: Self)
        ensures
            r.tracker == (CardTracker {
                current: None,
                candidate: None,
                candidate_hits: 0,
                misses: 0,
            }),
            r.last is None,
    {
        Bringup { tracker: CardTracker::default(), last: None }
    }

    /// Fold one poll in; says what to log when the card that is believed present changed.
    pub fn note(&mut self, raw: Option<CardUid>) -> (r: Option<String>)
        requires
            old(self).tracker.misses < u32::MAX,
            old(self).tracker.candidate_hits < u32::MAX,
        ensures
            final(self).tracker == old(self).tracker.after(raw),
            final(self).last == final(self).tracker.current,
            r is Some <==> final(self).last != old(self).last,
            r is Some ==> r->0@ == match final(self).last {
                Some(c) => "reader: card "@ + text::hex(c.0@),
                None => "reader: card gone"@,
            },
    {
        let card: Option<CardUid> = self.tracker.update(raw);
        let unchanged: bool = match (card, self.last) {
            (None, None) => true,
            (Some(a), Some(b)) => a == b,
            _ => false,
        };
        if unchanged {
            return None;
        }
        self.last = card;
        match card {
            Some(c) => {
                let mut line: String = "reader: card ".to_owned();
                text::push_hex(&mut line, c.0.as_slice());
                Some(line)
            },
            None => Some("reader: card gone".to_owned()),
        }
    }
}

/// Some identifiers, separated by commas.
pub open spec fn comma_list(tags: Seq<Uid>) -> Seq<char>
    decreases tags.len(),
{
    if tags.len() == 0 {
        Seq::empty()
    } else if tags.len() == 1 {
        uid_text(tags[0])
    } else {
        comma_list(tags.drop_last()) + ","@ + uid_text(tags.last())
    }
}

/// What an inventory found, or why it failed.
pub open spec fn findings(r: Result<Seq<Uid>, Error>) -> Seq<char> {
    match r {
        Ok(tags) => if tags.len() == 0 {
            "none"@
        } else {
            comma_list(tags)
        },
        Err(e) => reader::error_word(e),
    }
}

fn push_uids(out: &mut String, tags: &[Uid])
    ensures
        final(out)@ == old(out)@ + findings(Ok(tags@)),
{
    if tags.len() == 0 {
        out.append("none");
        return ;
    }
    push_uid(out, &tags[0]);
    let ghost head = old(out)@;
    let mut i: usize = 1;
    assert(tags@.take(1)[0] == tags@[0]);
    while i < tags.len()
        invariant
            1 <= i <= tags@.len(),
            out@ == head + comma_list(tags@.take(i as int)),
        decreases tags@.len() - i,
    {
        out.append(",");
        push_uid(out, &tags[i]);
        proof {
            let upto = tags@.take(i + 1);
            assert(upto.drop_last() =~= tags@.take(i as int));
            assert(out@ =~= head + comma_list(upto));
        }
        i += 1;
    }
    assert(tags@.take(i as int) =~= tags@);
}

/// Run both inventory methods once and compare what they find. Says what to log.
pub fn compare_inventory<S: SpiBus, B: BusyPin, D: Delay>(reader: &mut Pn5180<S, B, D>) -> (r:
    String)
    requires
        old(reader).recoveries + 32 <= u32::MAX,
    ensures
        exists|mid: Pn5180<S, B, D>, a: Result<Seq<Uid>, Error>, b: Result<Seq<Uid>, Error>|
            {
                &&& #[trigger] round_found(*old(reader), mid, a)
                &&& #[trigger] round_found(mid, *final(reader), b)
                &&& r@ == "reader: single="@ + findings(a) + "  16slot="@ + findings(b)
            },
{
    let (first, a): (Vec<Uid>, Option<Error>) = one_round(reader, false);
    let ghost mid = *reader;
    let (second, b): (Vec<Uid>, Option<Error>) = one_round(reader, true);
    let ghost found_a = told(first@, a);
    let ghost found_b = told(second@, b);
    let mut out: String = "reader: single=".to_owned();
    match &a {
        None => {
            push_uids(&mut out, first.as_slice());
        },
        Some(e) => {
            out.append(reader::error_name(e));
        },
    }
    out.append("  16slot=");
    match &b {
        None => {
            push_uids(&mut out, second.as_slice());
        },
        Some(e) => {
            out.append(reader::error_name(e));
        },
    }
    proof {
        assert(round_found(*old(reader), mid, found_a));
        assert(round_found(mid, *reader, found_b));
    }
    out
}

/// What a round came to.
pub open spec fn told(tags: Seq<Uid>, error: Option<Error>) -> Result<Seq<Uid>, Error> {
    match error {
        None => Ok(tags),
        Some(e) => Err(e),
    }
}

/// Whether an inventory round that left the reader in `after` found this: the tags that answered
/// while all slots were gone through, each once, or an error, which is an overflow only where there
/// were more of them than [`MAX_TAGS`]. The protocol stays as it was.
pub open spec fn round_found<S: SpiBus, B: BusyPin, D: Delay>(
    before: Pn5180<S, B, D>,
    after: Pn5180<S, B, D>,
    found: Result<Seq<Uid>, Error>,
) -> bool {
    let answers = driver::heard(after.bus()).skip(driver::heard(before.bus()).len() as int);
    &&& after.protocol == before.protocol
    &&& before.recoveries <= after.recoveries <= before.recoveries + 16
    &&& driver::heard(before.bus()).is_prefix_of(driver::heard(after.bus()))
    &&& match found {
        Ok(tags) => {
            &&& Pn5180::swept(before, after)
            &&& tags == driver::distinct_tags(answers)
            &&& tags.len() <= MAX_TAGS
        },
        Err(e) => if e == Error::Overflow {
            Pn5180::overran(before, after, MAX_TAGS as nat)
        } else {
            after.stuck(e) && Pn5180::broke_off(before, after, e)
        },
    }
}

fn one_round<S: SpiBus, B: BusyPin, D: Delay>(reader: &mut Pn5180<S, B, D>, by_slot: bool) -> (r: (
    Vec<Uid>,
    Option<Error>,
))
    requires
        old(reader).recoveries + 16 <= u32::MAX,
    ensures
        round_found(*old(reader), *final(reader), told(r.0@, r.1)),
        old(reader).recoveries <= final(reader).recoveries <= old(reader).recoveries + 16,
{
    let mut found: Vec<Uid> = Vec::new();
    let mut i: usize = 0;
    while i < MAX_TAGS
        invariant
            i <= MAX_TAGS,
            found@.len() == i,
        decreases MAX_TAGS - i,
    {
        found.push(Uid([0;8]));
        i += 1;
    }
    let outcome: Result<usize, Error> = if by_slot {
        reader.inventory_16slot(found.as_mut_slice())
    } else {
        reader.inventory(found.as_mut_slice())
    };
    match outcome {
        Ok(n) => {
            found.truncate(n);
            (found, None)
        },
        Err(e) => (found, Some(e)),
    }
}

/// How long each window of the antenna watch lasts, in seconds.
pub const AGC_WINDOW_S: u32 = 8;

/// What the coil is supposed to be doing in a window of the antenna watch, and what to log of it:
/// comparing a baseline against a known-loaded period is the whole point.
pub fn agc_window(round: u32) -> (r: (bool, &'static str))
    ensures
        r.0 == (round % 2 == 1),
        r.1@ == if r.0 {
            "reader: >>> TAG ON the coil for 8s"@
        } else {
            "reader: >>> TAG OFF, nothing near for 8s"@
        },
{
    if round % 2 == 1 {
        (true, "reader: >>> TAG ON the coil for 8s")
    } else {
        (false, "reader: >>> TAG OFF, nothing near for 8s")
    }
}

/// The range of antenna readings with nothing near and with a tag on the coil, each lowest
/// first.
pub struct Agc {
    pub bare: (u32, u32),
    pub loaded: (u32, u32),
}

/// A range widened to hold a reading.
pub open spec fn widened(range: (u32, u32), agc: u32) -> (u32, u32) {
    (
        if agc < range.0 {
            agc
        } else {
            range.0
        },
        if agc > range.1 {
            agc
        } else {
            range.1
        },
    )
}

fn widen(range: (u32, u32), agc: u32) -> (r: (u32, u32))
    ensures
        r == widened(range, agc),
{
    (
        if agc < range.0 {
            agc
        } else {
            range.0
        },
        if agc > range.1 {
            agc
        } else {
            range.1
        },
    )
}

impl Agc {
    /// Ten-bit readings, or none yet.
    pub open spec fn wf(self) -> bool {
        &&& self.bare.0 == u32::MAX || self.bare.0 <= self.bare.1
        &&& self.loaded.0 == u32::MAX || self.loaded.0 <= self.loaded.1
        &&& self.bare.1 < 1_024
        &&& self.loaded.1 < 1_024
    }

    /// What the readings say: whether the tag moves the range by more than five.
    pub open spec fn verdict(self) -> Seq<char> {
        if self.loaded.0 == u32::MAX || self.bare.0 == u32::MAX {
            "reader: agc never read"@
        } else if self.loaded.1 > self.bare.1 + 5 || self.loaded.0 + 5 < self.bare.0 {
            "reader: the tag loads the antenna — they are coupling"@
        } else {
            "reader: no measurable loading — field and tag are not coupling"@
        }
    }

    pub fn new() -> (r: Self)
        ensures
            r.wf(),
            r.bare == (u32::MAX, 0u32),
            r.loaded == (u32::MAX, 0u32),
    {
        Agc { bare: (u32::MAX, 0), loaded: (u32::MAX, 0) }
    }

    /// Note a reading of `RF_STATUS`, whose lowest ten bits are the antenna's gain.
    pub fn note(&mut self, tag_on: bool, rf_status: u32)
        requires
            old(self).wf(),
        ensures
            final(self).wf(),
            tag_on ==> *final(self) == (Agc {
                loaded: widened(old(self).loaded, (rf_status % 1_024) as u32),
                ..*old(self)
            }),
            !tag_on ==> *final(self) == (Agc {
                bare: widened(old(self).bare, (rf_status % 1_024) as u32),
                ..*old(self)
            }),
    {
        let agc: u32 = rf_status % 1024;
        if tag_on {
            self.loaded = widen(self.loaded, agc);
        } else {
            self.bare = widen(self.bare, agc);
        }
    }

    /// What to log of the readings.
    pub fn describe(&self) -> (r: (String, String))
        requires
            self.wf(),
        ensures
            r.0@ == "reader: agc bare "@ + text::decimal(self.bare.0 as nat) + ".."@
                + text::decimal(self.bare.1 as nat) + "  loaded "@ + text::decimal(
                self.loaded.0 as nat,
            ) + ".."@ + text::decimal(self.loaded.1 as nat),
            r.1@ == self.verdict(),
    {
        let mut out = String::new();
        out.append("reader: agc bare ");
        text::push_decimal(&mut out, self.bare.0 as u64);
        out.append("..");
        text::push_decimal(&mut out, self.bare.1 as u64);
        out.append("  loaded ");
        text::push_decimal(&mut out, self.loaded.0 as u64);
        out.append("..");
        text::push_decimal(&mut out, self.loaded.1 as u64);
        let mut verdict = String::new();
        if self.loaded.0 == u32::MAX || self.bare.0 == u32::MAX {
            verdict.append("reader: agc never read");
        } else if self.loaded.1 > self.bare.1 + 5 || self.loaded.0 + 5 < self.bare.0 {
            verdict.append("reader: the tag loads the antenna — they are coupling");
        } else {
            verdict.append("reader: no measurable loading — field and tag are not coupling");
        }
        assert(verdict@ =~= self.verdict());
        (out, verdict)
    }
}

/// A tag counts as gone at the fourth round in a row that misses it, and not before; one that is
/// seen, and was believed in, stays.
pub proof fn a_tag_survives_three_rounds(s: Scan, seen: Seq<Uid>, uid: Uid, missing: u32)
    requires
        s.wf(),
        s.set.entries().contains((uid, missing)),
    ensures
        seen.contains(uid) ==> s.after(seen).contains(uid),
        !seen.contains(uid) ==> (s.after(seen).contains(uid) <==> missing < 3),
{
    let entries = s.set.entries();
    let after = pn5180::after_round(entries, seen, MISS_LIMIT, MAX_TAGS as nat);
    pn5180::presence_is_kept_per_tag(entries, seen, MISS_LIMIT, MAX_TAGS as nat, uid);
    let j = choose|j: int| 0 <= j < entries.len() && entries[j] == (uid, missing);
    assert(entries[j].0 == uid);
    assert(pn5180::believed(entries, uid));
    let tags = s.after(seen);
    if pn5180::believed(after, uid) {
        let i = choose|i: int| 0 <= i < after.len() && (#[trigger] after[i]).0 == uid;
        assert(tags[i] == uid);
    }
    if tags.contains(uid) {
        let i = choose|i: int| 0 <= i < tags.len() && tags[i] == uid;
        assert(after[i].0 == uid);
        assert(pn5180::believed(after, uid));
    }
    assert forall|k: int| 0 <= k < entries.len() && (#[trigger] entries[k]).0 == uid implies k == j by {
        if k < j {
            assert(s.set.tags@[k] != s.set.tags@[j]);
        }
        if j < k {
            assert(s.set.tags@[j] != s.set.tags@[k]);
        }
    }
}

/// A tag that comes into the field is believed at once, while there is room.
pub proof fn a_new_tag_is_believed_at_once(s: Scan, seen: Seq<Uid>, uid: Uid)
    requires
        s.wf(),
        seen.contains(uid),
        s.after(seen).len() < MAX_TAGS,
    ensures
        s.after(seen).contains(uid),
{
    let entries = s.set.entries();
    let after = pn5180::after_round(entries, seen, MISS_LIMIT, MAX_TAGS as nat);
    pn5180::presence_is_kept_per_tag(entries, seen, MISS_LIMIT, MAX_TAGS as nat, uid);
    let i = choose|i: int| 0 <= i < after.len() && (#[trigger] after[i]).0 == uid;
    assert(s.after(seen)[i] == uid);
}

/// A device is put back while its tag is seen or its card lies there, either being enough; the
/// button counts only for a device that has neither, and one device never for the other.
pub proof fn a_tag_or_a_card_puts_a_device_back(
    d: Docking,
    seen: Seq<Uid>,
    card: Option<CardUid>,
    fallback: [bool; 2],
    after: Docking,
    r: Docked,
    i: int,
)
    requires
        d.read(seen, card, fallback, after, r),
        0 <= i < 2,
    ensures
        d.known@[i] is Some && seen.contains(d.known@[i]->0) ==> r.docked@[i],
        d.known_cards@[i] is Some && card == Some(d.known_cards@[i]->0) ==> r.docked@[i],
        d.known@[i] is None && d.known_cards@[i] is None ==> r.docked@[i] == fallback@[i],
        r.docked@[i] && d.known@[i] is Some && d.known_cards@[i] is None ==> seen.contains(
            d.known@[i]->0,
        ),
        r.docked@[i] && d.known@[i] is None && d.known_cards@[i] is Some ==> card == Some(
            d.known_cards@[i]->0,
        ),
        r.docked@[i] && d.known@[i] is Some && d.known_cards@[i] is Some ==> seen.contains(
            d.known@[i]->0,
        ) || card == Some(d.known_cards@[i]->0),
        after.consecutive_failures == 0,
        !r.reader_fault,
        r.unknown is Some ==> seen.contains(r.unknown->0) && !d.known@.contains(
            Some(r.unknown->0),
        ),
{
    if r.unknown is Some {
        let u = after.reported_unknown->0;
        let k = choose|k: int|
            {
                &&& 0 <= k < seen.len()
                &&& #[trigger] seen[k] == u
                &&& !d.known@.contains(Some(u))
                &&& forall|j: int| 0 <= j < k ==> d.known@.contains(Some(#[trigger] seen[j]))
            };
        assert(seen[k] == u);
    }
}

/// A reader that fails leaves every device where it was, and says so at the fifth failure in a row.
pub proof fn a_reader_that_fails_holds_the_state(d: Docking, after: Docking, r: Docked)
    requires
        d.failed(after, r),
    ensures
        after.last == d.last,
        after.consecutive_failures == d.consecutive_failures + 1,
        r.reader_fault <==> d.consecutive_failures == 4,
        r.unknown is None,
{
}

/// A card that lies there is not disturbed by a single other reading, and goes only after six empty
/// polls in a row; seeing it again starts the count anew.
pub proof fn a_card_is_not_disturbed_by_one_reading(t: CardTracker, u: CardUid, other: CardUid)
    requires
        t.current == Some(u),
        other != u,
        t.candidate != Some(other),
        t.misses < u32::MAX,
    ensures
        t.after(Some(other)).current == Some(u),
        t.after(Some(other)).after(Some(u)).current == Some(u),
        t.after(Some(other)).after(Some(u)).candidate is None,
        t.after(Some(u)).current == Some(u),
        t.after(Some(u)).misses == 0,
        t.after(None).current is Some <==> t.misses < 5,
        t.after(None).misses == t.misses + 1,
{
}

} // verus!
