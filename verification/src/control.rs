//! Enforcement: where the devices are, and which of them the box has been told to block.
use crate::fixed;
use crate::fritzbox;
use crate::journal;
use crate::text;
use crate::tr064::hosts::HostEntry;
use vstd::prelude::*;
use vstd::std_specs::cmp::PartialEqSpec;

verus! {

/// Gaps shorter than this are a reboot, not someone pulling the plug.
pub const OUTAGE_MIN_SECS: i64 = 300;

/// What is known of the devices, and what the box was told.
pub struct Control {
    pub present: [bool; 2],
    pub ips: [Option<heapless::String<46>>; 2],
    /// What we have actually told the box, so we only issue changes.
    pub applied: [Option<bool>; 2],
}

fn same<const N: usize>(a: &heapless::String<N>, b: &heapless::String<N>) -> (r: bool)
    ensures
        r == fixed::same_text(*a, *b),
{
    let x: &str = fixed::read(a);
    let y: &str = fixed::read(b);
    let xs: Vec<char> = text::chars_of(x);
    let ys: Vec<char> = text::chars_of(y);
    let r: bool = text::is_text(xs.as_slice(), ys.as_slice(), 0, xs.len());
    proof {
        assert(xs@.subrange(0, xs@.len() as int) =~= xs@);
        if fixed::same_text(*a, *b) {
            assert(a.eq_spec(x));
            assert(b.eq_spec(x));
        }
    }
    r
}

/// The word for an enforcement state.
pub open spec fn label_word(blocked: bool) -> Seq<char> {
    if blocked {
        "blocked"@
    } else {
        "allowed"@
    }
}

/// The word for an enforcement state.
pub fn label(blocked: bool) -> (r: &'static str)
    ensures
        r@ == label_word(blocked),
{
    if blocked {
        "blocked"
    } else {
        "allowed"
    }
}

impl Control {
    pub fn new() -> (r: Self)
        ensures
            r.present@ == seq![false, false],
            r.ips@[0] is None,
            r.ips@[1] is None,
            r.applied@ == seq![None::<bool>, None::<bool>],
    {
        let r = Control { present: [false, false], ips: [None, None], applied: [None, None] };
        assert(r.present@ =~= seq![false, false]);
        assert(r.applied@ =~= seq![None::<bool>, None::<bool>]);
        r
    }

    /// Whether a device was known at another address before.
    pub open spec fn moved(self, i: int, ip: heapless::String<46>) -> bool {
        self.ips@[i] is Some && !fixed::same_text(self.ips@[i]->0, ip)
    }

    /// What is logged of where a device is.
    pub open spec fn presence_lines(
        self,
        i: int,
        name: Seq<char>,
        active: bool,
        ip: heapless::String<46>,
        ip_text: Seq<char>,
    ) -> Seq<Seq<char>> {
        (if self.present@[i] != active {
            seq![
                "presence: "@ + name + " "@ + if active {
                    "at home"@
                } else {
                    "away"@
                },
            ]
        } else {
            Seq::empty()
        }) + (if self.moved(i, ip) {
            seq!["presence: "@ + name + " ip changed to "@ + ip_text]
        } else {
            Seq::empty()
        })
    }

    /// Whether this is what comes of what the box says of a device, and what is logged of it.
    pub open spec fn notes(
        self,
        after: Self,
        i: int,
        name: Seq<char>,
        entry: HostEntry,
        r: Vec<String>,
    ) -> bool {
        &&& after.present@ == self.present@.update(i, entry.active)
        &&& after.ips@[i] is Some
        &&& fixed::same_text(after.ips@[i]->0, entry.ip)
        &&& after.ips@[1 - i] == self.ips@[1 - i]
        &&& after.applied@ == if self.moved(i, entry.ip) {
            self.applied@.update(i, None)
        } else {
            self.applied@
        }
        &&& exists|ip: &str|
            #![trigger fixed::holds(entry.ip, ip@)]
            fixed::holds(entry.ip, ip@) && text::texts(r@) == self.presence_lines(
                i,
                name,
                entry.active,
                entry.ip,
                ip@,
            )
    }

    /// Note what the box says of a device. A changed IP means the lease moved and any existing
    /// rule now points at the wrong device, so what was applied is forgotten. Says what to log.
    pub fn note_presence(&mut self, i: usize, name: &str, entry: HostEntry) -> (r: Vec<String>)
        requires
            i < 2,
        ensures
            old(self).notes(*final(self), i as int, name@, entry, r),
    {
        let mut lines: Vec<String> = Vec::new();
        assert(text::texts(lines@) =~= Seq::<Seq<char>>::empty());
        if self.present[i] != entry.active {
            let mut out: String = "presence: ".to_owned();
            out.append(name);
            out.append(" ");
            out.append(
                if entry.active {
                    "at home"
                } else {
                    "away"
                },
            );
            text::push_line(&mut lines, out);
        }
        self.present[i] = entry.active;
        let ip: &str = fixed::read(&entry.ip);
        assert(fixed::holds(entry.ip, ip@));
        let moved: bool = match &self.ips[i] {
            Some(known) => !same(known, &entry.ip),
            None => false,
        };
        if moved {
            let mut out: String = "presence: ".to_owned();
            out.append(name);
            out.append(" ip changed to ");
            out.append(ip);
            text::push_line(&mut lines, out);
            self.applied[i] = None;
        }
        assert(text::texts(lines@) =~= old(self).presence_lines(
            i as int,
            name@,
            entry.active,
            entry.ip,
            ip@,
        ));
        self.ips[i] = Some(entry.ip);
        lines
    }

    /// Whether the box has to be told that a device is to be blocked, or not: only where its
    /// address is known and the box was not told so already.
    pub open spec fn owes(self, i: int, want: bool) -> bool {
        self.applied@[i] != Some(want) && self.ips@[i] is Some
    }

    /// Whether the box has to be told about a device.
    pub fn to_tell(&self, i: usize, want: bool) -> (r: bool)
        requires
            i < 2,
        ensures
            r == self.owes(i as int, want),
    {
        let done: bool = match self.applied[i] {
            Some(b) => b == want,
            None => false,
        };
        !done && self.ips[i].is_some()
    }

    /// What the box is known to have been told, once it said what it was told about a device, or
    /// said nothing.
    pub open spec fn known_after(self, i: int, said: Option<bool>) -> Seq<Option<bool>> {
        match said {
            Some(blocked) => self.applied@.update(i, Some(blocked)),
            None => self.applied@,
        }
    }

    /// The box took a change, or already was in that state. Not called where it failed, so the
    /// next pass retries: a silently dropped block is the worst failure this can have.
    pub fn told(&mut self, i: usize, blocked: bool)
        requires
            i < 2,
        ensures
            final(self).applied@ == old(self).known_after(i as int, Some(blocked)),
            final(self).present == old(self).present,
            final(self).ips == old(self).ips,
    {
        self.applied[i] = Some(blocked);
    }
}

/// What is logged of a call that failed.
pub open spec fn failure_text(
    head: Seq<char>,
    name: Seq<char>,
    what: Seq<char>,
    e: fritzbox::Error,
) -> Seq<char> {
    head + name + what + e.word() + ")"@
}

fn failure(head: &str, name: &str, what: &str, e: &fritzbox::Error) -> (r: String)
    ensures
        r@ == failure_text(head@, name@, what@, *e),
{
    let mut out: String = head.to_owned();
    out.append(name);
    out.append(what);
    out.append(e.name().as_str());
    out.append(")");
    out
}

impl Control {
    /// Take in what the box answered when it was asked for a device, or that it did not. Where it
    /// did not, nothing changes. Says what to log.
    pub fn looked_up(
        &mut self,
        i: usize,
        name: &str,
        outcome: Result<HostEntry, fritzbox::Error>,
    ) -> (r: Vec<String>)
        requires
            i < 2,
        ensures
            match outcome {
                Ok(entry) => old(self).notes(*final(self), i as int, name@, entry, r),
                Err(e) => *final(self) == *old(self) && text::texts(r@) == seq![
                    failure_text("presence: "@, name@, " lookup failed ("@, e),
                ],
            },
    {
        match outcome {
            Ok(entry) => self.note_presence(i, name, entry),
            Err(e) => {
                let mut lines: Vec<String> = Vec::new();
                text::push_line(&mut lines, failure("presence: ", name, " lookup failed (", &e));
                assert(text::texts(lines@) =~= seq![
                    failure_text("presence: "@, name@, " lookup failed ("@, e),
                ]);
                lines
            },
        }
    }

    /// Take in what the box already believes of a device, rather than assuming it. Says what to
    /// log.
    pub fn found(&mut self, i: usize, name: &str, outcome: Result<bool, fritzbox::Error>) -> (r:
        String)
        requires
            i < 2,
        ensures
            final(self).present == old(self).present,
            final(self).ips == old(self).ips,
            match outcome {
                Ok(blocked) => final(self).applied@ == old(self).known_after(
                    i as int,
                    Some(blocked),
                ) && r@ == "enforce: "@ + name@ + " starts "@ + label_word(blocked),
                Err(e) => final(self).applied@ == old(self).known_after(i as int, None)
                    && *final(self) == *old(self) && r@ == failure_text(
                    "enforce: "@,
                    name@,
                    " readback failed ("@,
                    e,
                ),
            },
    {
        match outcome {
            Ok(blocked) => {
                self.told(i, blocked);
                describe_start(name, blocked)
            },
            Err(e) => failure("enforce: ", name, " readback failed (", &e),
        }
    }

    /// Take in how telling the box about a device went. A change that failed is not recorded, so
    /// the next pass retries: a silently dropped block is the worst failure this can have. Says
    /// what to log.
    pub fn changed(
        &mut self,
        i: usize,
        name: &str,
        want: bool,
        outcome: Result<(), fritzbox::Error>,
    ) -> (r: String)
        requires
            i < 2,
        ensures
            final(self).present == old(self).present,
            final(self).ips == old(self).ips,
            match outcome {
                Ok(_) => final(self).applied@ == old(self).known_after(i as int, Some(want))
                    && r@ == "enforce: "@ + name@ + " -> "@ + label_word(want),
                Err(e) => final(self).applied@ == old(self).known_after(i as int, None)
                    && *final(self) == *old(self) && r@ == failure_text(
                    "enforce: "@,
                    name@,
                    " FAILED ("@,
                    e,
                ),
            },
    {
        match outcome {
            Ok(_) => {
                self.told(i, want);
                describe_change(name, want)
            },
            Err(e) => failure("enforce: ", name, " FAILED (", &e),
        }
    }
}

/// What is logged when a change was applied.
pub fn describe_change(name: &str, blocked: bool) -> (r: String)
    ensures
        r@ == "enforce: "@ + name@ + " -> "@ + label_word(blocked),
{
    let mut out: String = "enforce: ".to_owned();
    out.append(name);
    out.append(" -> ");
    out.append(label(blocked));
    out
}

/// What is logged of the state that the box was found in.
pub fn describe_start(name: &str, blocked: bool) -> (r: String)
    ensures
        r@ == "enforce: "@ + name@ + " starts "@ + label_word(blocked),
{
    let mut out: String = "enforce: ".to_owned();
    out.append(name);
    out.append(" starts ");
    out.append(label(blocked));
    out
}

/// Once the box was told of a state there is nothing to tell it about that device until the state
/// changes, and what it has to be told about the other device is what it was.
pub proof fn told_once(c: Control, after: Control, i: int, want: bool, other: bool)
    requires
        0 <= i < 2,
        after.applied@ == c.applied@.update(i, Some(want)),
        after.ips == c.ips,
    ensures
        !after.owes(i, want),
        after.owes(i, !want) <==> c.ips@[i] is Some,
        after.owes(1 - i, other) == c.owes(1 - i, other),
{
}

/// Four numbers below 256 separated by dots, from the `k`-th on. What follows the fourth is not
/// looked at.
pub open spec fn quad(s: Seq<char>, i: int, k: nat) -> Option<Seq<u8>>
    decreases 4 - k,
{
    let len = s.len() as int;
    let dot = text::next(s, '.', i, len);
    if k >= 4 {
        Some(Seq::empty())
    } else {
        match text::number(s.subrange(i, dot), 255) {
            None => None,
            Some(v) => if k == 3 {
                Some(seq![v as u8])
            } else if dot >= len {
                None
            } else {
                match quad(s, dot + 1, k + 1) {
                    None => None,
                    Some(rest) => Some(seq![v as u8] + rest),
                }
            },
        }
    }
}

fn octet(s: &[char], i: usize) -> (r: Option<(u8, usize)>)
    requires
        i <= s@.len(),
    ensures
        match text::number(
            s@.subrange(i as int, text::next(s@, '.', i as int, s@.len() as int)),
            255,
        ) {
            Some(v) => r is Some && (r->0).0 == v && (r->0).1 == text::next(
                s@,
                '.',
                i as int,
                s@.len() as int,
            ) && (r->0).1 <= s@.len(),
            None => r is None,
        },
{
    let dot: usize = text::find(s, '.', i, s.len());
    match text::parse_number(s, i, dot, 255) {
        Some(v) => Some((v as u8, dot)),
        None => None,
    }
}

/// Dotted quad to an address. An empty or unparseable value yields `None`, meaning "resolve by
/// name instead".
pub fn parse_ipv4(text: &str) -> (r: Option<[u8; 4]>)
    ensures
        match quad(text@, 0, 0) {
            Some(b) => r is Some && r->0@ == b,
            None => r is None,
        },
{
    let chars: Vec<char> = text::chars_of(text);
    let s: &[char] = chars.as_slice();
    proof {
        reveal_with_fuel(quad, 5);
    }
    let (a, i): (u8, usize) = match octet(s, 0) {
        Some(v) => v,
        None => {
            return None;
        },
    };
    if i >= s.len() {
        return None;
    }
    let (b, j): (u8, usize) = match octet(s, i + 1) {
        Some(v) => v,
        None => {
            return None;
        },
    };
    if j >= s.len() {
        return None;
    }
    let (c, k): (u8, usize) = match octet(s, j + 1) {
        Some(v) => v,
        None => {
            return None;
        },
    };
    if k >= s.len() {
        return None;
    }
    let (d, _end): (u8, usize) = match octet(s, k + 1) {
        Some(v) => v,
        None => {
            return None;
        },
    };
    let r: [u8; 4] = [a, b, c, d];
    assert(r@ =~= quad(text@, 0, 0)->0);
    Some(r)
}

/// What to tell the parent about an outage, under two minutes in seconds: whole minutes would
/// round a real outage down to nothing.
pub open spec fn outage_text(secs: int) -> Seq<char> {
    if secs < 120 {
        "Gerät war "@ + text::signed(secs) + "s aus"@
    } else {
        "Gerät war "@ + text::signed(secs / 60) + " min aus"@
    }
}

/// What is logged of an outage.
pub open spec fn outage_wording(secs: int) -> Seq<char> {
    if secs < 120 {
        "  [alert] unit was off for "@ + text::signed(secs) + "s"@
    } else {
        "  [alert] unit was off for "@ + text::signed(secs / 60) + " min"@
    }
}

/// What to log of the time the unit was off, if it was long enough to matter.
pub fn outage_line(last_tick: i64, now: i64) -> (r: Option<String>)
    requires
        now - last_tick <= i64::MAX,
    ensures
        r is Some <==> now - last_tick >= OUTAGE_MIN_SECS,
        r is Some ==> r->0@ == outage_wording(now - last_tick),
{
    match journal::detect_outage(last_tick, now, OUTAGE_MIN_SECS) {
        None => None,
        Some(o) => {
            let secs: i64 = o.secs();
            let mut out: String = "  [alert] unit was off for ".to_owned();
            if secs < 120 {
                text::push_signed(&mut out, secs);
                out.append("s");
            } else {
                text::push_signed(&mut out, secs / 60);
                out.append(" min");
            }
            Some(out)
        },
    }
}

/// What to tell the parent about the time the unit was off, if it was long enough to matter.
pub fn report_outage(last_tick: i64, now: i64) -> (r: Option<String>)
    requires
        now - last_tick <= i64::MAX,
    ensures
        r is Some <==> now - last_tick >= OUTAGE_MIN_SECS,
        r is Some ==> r->0@ == outage_text(now - last_tick),
{
    match journal::detect_outage(last_tick, now, OUTAGE_MIN_SECS) {
        None => None,
        Some(o) => {
            let secs: i64 = o.secs();
            let mut out: String = "Gerät war ".to_owned();
            if secs < 120 {
                text::push_signed(&mut out, secs);
                out.append("s aus");
            } else {
                text::push_signed(&mut out, secs / 60);
                out.append(" min aus");
            }
            Some(out)
        },
    }
}

/// The box has to be told about a device exactly where its address is known and the box was last
/// told something else, or nothing.
pub proof fn the_box_is_told_what_it_does_not_know(c: Control, i: int, want: bool)
    requires
        0 <= i < 2,
    ensures
        c.owes(i, want) <==> c.ips@[i] is Some && (c.applied@[i] is None || c.applied@[i]->0 != want),
{
}

/// What the box says of a device is noted for that device alone. One that moved to another address
/// is told about again, whatever was told before; one that did not is not.
pub proof fn a_device_that_moved_is_told_again(
    c: Control,
    after: Control,
    i: int,
    name: Seq<char>,
    entry: HostEntry,
    r: Vec<String>,
    old_ip: &str,
    new_ip: &str,
    want: bool,
)
    requires
        0 <= i < 2,
        c.notes(after, i, name, entry, r),
        c.ips@[i] is Some,
        fixed::holds(c.ips@[i]->0, old_ip@),
        fixed::holds(entry.ip, new_ip@),
    ensures
        old_ip@ != new_ip@ ==> after.owes(i, want),
        old_ip@ == new_ip@ ==> after.applied@[i] == c.applied@[i],
        after.applied@[1 - i] == c.applied@[1 - i],
        after.present@[i] == entry.active,
        after.present@[1 - i] == c.present@[1 - i],
        after.ips@[1 - i] == c.ips@[1 - i],
        after.ips@[i] is Some,
        fixed::holds(after.ips@[i]->0, new_ip@),
{
    assert(c.ips@[i]->0.eq_spec(old_ip));
    assert(entry.ip.eq_spec(new_ip));
    assert(after.ips@[i]->0.eq_spec(new_ip));
    assert forall|t: &str| #[trigger] after.ips@[i]->0.eq_spec(t) <==> t@ == new_ip@ by {
        assert(entry.ip.eq_spec(t) <==> t@ == new_ip@);
    }
}

/// An address in dotted decimals is read as its four numbers.
#[verifier::rlimit(60)]
pub proof fn a_dotted_quad_is_its_numbers(a: u8, b: u8, c: u8, d: u8)
    ensures
        quad(
            text::decimal(a as nat) + "."@ + text::decimal(b as nat) + "."@ + text::decimal(
                c as nat,
            ) + "."@ + text::decimal(d as nat),
            0,
            0,
        ) == Some(seq![a, b, c, d]),
{
    reveal_strlit(".");
    let (p, q, r, t) = (
        text::decimal(a as nat),
        text::decimal(b as nat),
        text::decimal(c as nat),
        text::decimal(d as nat),
    );
    let s = p + "."@ + q + "."@ + r + "."@ + t;
    let i1 = p.len() as int;
    let i2 = i1 + 1 + q.len();
    let i3 = i2 + 1 + r.len();
    lemma_part(s, 0, i1, a);
    lemma_part(s, i1 + 1, i2, b);
    lemma_part(s, i2 + 1, i3, c);
    lemma_part(s, i3 + 1, s.len() as int, d);
    assert(quad(s, i3 + 1, 3) == Some(seq![d]));
    assert(quad(s, i2 + 1, 2) == Some(seq![c] + seq![d]));
    assert(quad(s, i1 + 1, 1) == Some(seq![b] + (seq![c] + seq![d])));
    assert(quad(s, 0, 0) == Some(seq![a] + (seq![b] + (seq![c] + seq![d]))));
    assert(seq![a] + (seq![b] + (seq![c] + seq![d])) =~= seq![a, b, c, d]);
}

proof fn lemma_part(s: Seq<char>, i: int, end: int, v: u8)
    requires
        0 <= i <= end <= s.len(),
        s.subrange(i, end) =~= text::decimal(v as nat),
        end == s.len() || s[end] == '.',
    ensures
        text::next(s, '.', i, s.len() as int) == end,
        text::number(s.subrange(i, end), 255) == Some(v as nat),
{
    text::decimal_spells_the_number(v as nat);
    text::decimal_round_trip(v as nat, 255);
    assert forall|j: int| i <= j < end implies #[trigger] s[j] != '.' by {
        assert(s[j] == s.subrange(i, end)[j - i]);
    }
    text::next_is_there(s, '.', i, s.len() as int, end);
}

/// A change that failed is tried again, and one that worked is not; neither touches what is known of
/// the other device.
pub proof fn a_change_that_failed_is_tried_again(c: Control, after: Control, i: int, want: bool, worked: bool)
    requires
        0 <= i < 2,
        after.ips == c.ips,
        after.applied@ == c.known_after(
            i,
            if worked {
                Some(want)
            } else {
                None
            },
        ),
        c.owes(i, want),
    ensures
        after.owes(i, want) <==> !worked,
        worked ==> after.applied@[i] == Some(want),
        after.applied@[1 - i] == c.applied@[1 - i],
{
}

} // verus!
