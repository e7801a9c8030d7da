//! Canonical screen states. Each one is produced by actually running the ledger, so the pictures
//! cannot show states that the real logic cannot reach.
use crate::balance;
use crate::balance::{Ledger, Moment, Policy, Snapshot};
use crate::civil;
use crate::sim;
use vstd::prelude::*;

verus! {

pub struct Scenario {
    pub name: &'static str,
    pub description: &'static str,
    pub snapshot: Snapshot<2>,
}

/// What decides the tick at an instant.
pub open spec fn moment(t: int, docked: [bool; 2], present: [bool; 2], p: Policy) -> Moment<2> {
    Moment { utc: t, docked, present, policy: p }
}

/// Whether a device is in use at home.
pub open spec fn used(m: Moment<2>, i: int) -> bool {
    balance::in_use(m.docked@, m.present@, i)
}

/// A ledger before its first tick.
pub open spec fn fresh_ledger(balance: int) -> Ledger<2> {
    Ledger {
        balance_secs: balance as i32,
        earned_parts: 0,
        pending_secs: 0,
        docked: [true, true],
        present: [false, false],
        last_tick: None,
        pickup_since: None,
        was_exhausted: false,
        warned: false,
        was_night: false,
        out_at_night: [false, false],
    }
}

/// The ledger that a tick leaves behind.
pub open spec fn ticked(l: Ledger<2>, m: Moment<2>) -> Ledger<2> {
    Ledger {
        balance_secs: l.balance_after(m) as i32,
        earned_parts: l.parts_after(m) as u32,
        pending_secs: l.pending_after(m),
        docked: m.docked,
        present: m.present,
        last_tick: Some(m.utc as i64),
        pickup_since: l.since(m),
        was_exhausted: l.balance_after(m) <= 0,
        warned: l.balance_after(m) <= balance::WARNING_SECS && (l.warns(m) || l.warned),
        was_night: m.night(),
        out_at_night: [m.night() && used(m, 0), m.night() && used(m, 1)],
    }
}

/// What there is to show after a tick.
pub open spec fn shown(l: Ledger<2>, m: Moment<2>) -> Snapshot<2> {
    let cut_off = m.night() || l.balance_after(m) <= 0;
    Snapshot {
        balance_secs: l.balance_after(m) as i32,
        cap_secs: m.policy.cap_secs,
        docked: m.docked,
        present: m.present,
        flow: l.flow(m),
        night: m.night(),
        in_grace: m.pickup() && l.grace(m) > 0,
        grace_remaining_secs: l.grace(m),
        blocked: [used(m, 0) && cut_off, used(m, 1) && cut_off],
        local: m.local(),
    }
}

proof fn lemma_same_flags(a: [bool; 2], b: [bool; 2])
    requires
        a@[0] == b@[0],
        a@[1] == b@[1],
    ensures
        a == b,
{
    assert(a@ =~= b@);
    assert(a =~= b);
}

/// There is one fresh ledger for a balance.
pub proof fn a_fresh_ledger_is_determined(l: Ledger<2>, balance: int)
    requires
        l.fresh(balance),
    ensures
        l == fresh_ledger(balance),
{
    let f = fresh_ledger(balance);
    lemma_same_flags(l.docked, f.docked);
    lemma_same_flags(l.present, f.present);
    lemma_same_flags(l.out_at_night, f.out_at_night);
}

/// A tick leaves exactly one ledger behind.
pub proof fn a_tick_is_determined(l: Ledger<2>, m: Moment<2>, after: Ledger<2>)
    requires
        l.becomes(m, after),
    ensures
        after == ticked(l, m),
{
    lemma_same_flags(after.out_at_night, ticked(l, m).out_at_night);
}

/// A tick shows exactly one snapshot.
pub proof fn a_snapshot_is_determined(l: Ledger<2>, m: Moment<2>, s: Snapshot<2>)
    requires
        l.shows(m, s),
    ensures
        s == shown(l, m),
{
    lemma_same_flags(s.blocked, shown(l, m).blocked);
}

/// The ledger after `n` ticks, a second apart, the first of them at `start`.
pub open spec fn after_ticks(
    l: Ledger<2>,
    p: Policy,
    start: int,
    docked: [bool; 2],
    present: [bool; 2],
    n: nat,
) -> Ledger<2>
    decreases n,
{
    if n == 0 {
        l
    } else {
        ticked(
            after_ticks(l, p, start, docked, present, (n - 1) as nat),
            moment(start + n - 1, docked, present, p),
        )
    }
}

/// The same rules keep the same books.
pub proof fn the_same_rules_keep_the_same_books(
    l: Ledger<2>,
    p: Policy,
    q: Policy,
    start: int,
    docked: [bool; 2],
    present: [bool; 2],
    n: nat,
)
    requires
        p.same_rules(q),
    ensures
        after_ticks(l, p, start, docked, present, n) == after_ticks(
            l,
            q,
            start,
            docked,
            present,
            n,
        ),
        shown(l, moment(start, docked, present, p)) == shown(l, moment(start, docked, present, q)),
    decreases n,
{
    if n > 0 {
        the_same_rules_keep_the_same_books(l, p, q, start, docked, present, (n - 1) as nat);
    }
}

/// Advance a ledger second by second, which is what the box does, and show where it ends.
pub fn run(
    l: &mut Ledger<2>,
    p: &Policy,
    start: i64,
    secs: u32,
    docked: [bool; 2],
    present: [bool; 2],
) -> (r: Snapshot<2>)
    requires
        p.refill_den > 0,
        start + secs <= i64::MAX,
        forall|t: int| start <= t <= start + secs ==> #[trigger] civil::on_calendar(t),
        i64::MIN <= old(l).gap(start as int) <= i64::MAX,
    ensures
        *final(l) == after_ticks(*old(l), *p, start as int, docked, present, (secs + 1) as nat),
        r == shown(
            after_ticks(*old(l), *p, start as int, docked, present, secs as nat),
            moment(start + secs, docked, present, *p),
        ),
{
    let ghost first = *l;
    assert(civil::on_calendar(start as int));
    let mut last: Snapshot<2> = l.tick(start, docked, present, p).0;
    proof {
        let m = moment(start as int, docked, present, *p);
        a_tick_is_determined(first, m, *l);
        a_snapshot_is_determined(first, m, last);
        assert(after_ticks(first, *p, start as int, docked, present, 0) == first);
        assert(after_ticks(first, *p, start as int, docked, present, 1) == ticked(first, m));
    }
    let mut t: u32 = 0;
    while t < secs
        invariant
            t <= secs,
            start + secs <= i64::MAX,
            p.refill_den > 0,
            forall|i: int| start <= i <= start + secs ==> #[trigger] civil::on_calendar(i),
            *l == after_ticks(first, *p, start as int, docked, present, (t + 1) as nat),
            l.last_tick == Some((start + t) as i64),
            last == shown(
                after_ticks(first, *p, start as int, docked, present, t as nat),
                moment(start + t, docked, present, *p),
            ),
        decreases secs - t,
    {
        let ghost before = *l;
        t += 1;
        let now: i64 = start + t as i64;
        assert(civil::on_calendar(now as int));
        last = l.tick(now, docked, present, p).0;
        proof {
            let m = moment(now as int, docked, present, *p);
            a_tick_is_determined(before, m, *l);
            a_snapshot_is_determined(before, m, last);
        }
    }
    last
}

/// Where a scenario starts and what happens in it.
pub struct Script {
    pub name: Seq<char>,
    pub description: Seq<char>,
    pub balance: int,
    pub start: int,
    pub secs: nat,
    pub docked: [bool; 2],
    pub present: [bool; 2],
}

impl Scenario {
    /// Whether a scenario came out of a script, under the standard rules.
    #[verifier::opaque]
    pub open spec fn plays(self, s: Script) -> bool {
        &&& self.name@ == s.name
        &&& self.description@ == s.description
        &&& forall|p: Policy| #[trigger]
            p.standard() ==> self.snapshot == shown(
                after_ticks(fresh_ledger(s.balance), p, s.start, s.docked, s.present, s.secs),
                moment(s.start + s.secs, s.docked, s.present, p),
            )
    }
}

fn scenario(
    name: &'static str,
    description: &'static str,
    balance: i32,
    start: i64,
    secs: u32,
    docked: [bool; 2],
    present: [bool; 2],
) -> (r: Scenario)
    requires
        start + secs <= i64::MAX,
        forall|t: int| start <= t <= start + secs ==> #[trigger] civil::on_calendar(t),
    ensures
        r.plays(
            Script {
                name: name@,
                description: description@,
                balance: balance as int,
                start: start as int,
                secs: secs as nat,
                docked,
                present,
            },
        ),
{
    reveal(Scenario::plays);
    let p = Policy::default();
    let mut l = Ledger::<2>::with_balance(balance);
    let ghost fresh = l;
    proof {
        a_fresh_ledger_is_determined(l, balance as int);
    }
    let snapshot = run(&mut l, &p, start, secs, docked, present);
    proof {
        assert forall|q: Policy| #[trigger] q.standard() implies snapshot == shown(
            after_ticks(fresh, q, start as int, docked, present, secs as nat),
            moment(start + secs, docked, present, q),
        ) by {
            the_same_rules_keep_the_same_books(
                fresh,
                p,
                q,
                start as int,
                docked,
                present,
                secs as nat,
            );
            the_same_rules_keep_the_same_books(
                after_ticks(fresh, p, start as int, docked, present, secs as nat),
                p,
                q,
                start + secs,
                docked,
                present,
                0,
            );
        }
    }
    Scenario { name, description, snapshot }
}

/// A time of day early in August 2026, and the two hours after it, which the calendar can place.
fn august(d: u32, h: u32, mi: u32) -> (r: i64)
    requires
        1 <= d <= 31,
        h < 24,
        mi < 60,
    ensures
        r == sim::berlin_of(2026, 8, d as int, h as int, mi as int),
        0 <= r <= 2_000_000_000,
        forall|t: int| r <= t <= r + 7_200 ==> #[trigger] civil::on_calendar(t),
{
    proof {
        civil::on_calendar_within(sim::wall(2026, 8, d as int, h as int, mi as int) - 3_600);
    }
    reveal(sim::berlin_of);
    let r: i64 = sim::berlin(2026, 8, d, h, mi);
    assert forall|t: int| r <= t <= r + 7_200 implies #[trigger] civil::on_calendar(t) by {
        civil::on_calendar_within(t);
    }
    r
}

/// The scripts, in the order in which they are shown.
pub open spec fn scripts() -> Seq<Script> {
    let docked = [true, true];
    let one_out = [false, true];
    let both_out = [false, false];
    let home = [true, true];
    let away = [false, false];
    seq![
        Script {
            name: "01-docked-filling"@,
            description: "Put back at home, balance charging up"@,
            balance: 2_400,
            start: sim::berlin_of(2026, 8, 3, 16, 0),
            secs: 600,
            docked,
            present: home,
        },
        Script {
            name: "02-draining"@,
            description: "In use at home, clock running"@,
            balance: 4_500,
            start: sim::berlin_of(2026, 8, 3, 16, 30),
            secs: 900,
            docked: one_out,
            present: home,
        },
        Script {
            name: "03-grace"@,
            description: "Brief pickup inside grace: dashed rule, balance untouched"@,
            balance: 3_000,
            start: sim::berlin_of(2026, 8, 3, 17, 0),
            secs: 90,
            docked: one_out,
            present: home,
        },
        Script {
            name: "04-out-and-about"@,
            description: "Out of the house: undocked but off-network, so it still fills"@,
            balance: 1_800,
            start: sim::berlin_of(2026, 8, 3, 14, 0),
            secs: 1_800,
            docked: both_out,
            present: away,
        },
        Script {
            name: "05-warning"@,
            description: "Four minutes left, thick rule"@,
            balance: 540,
            start: sim::berlin_of(2026, 8, 3, 18, 0),
            secs: 300,
            docked: one_out,
            present: home,
        },
        Script {
            name: "06-exhausted"@,
            description: "Balance exactly gone, still not put back: inverted, blocked"@,
            balance: 300,
            start: sim::berlin_of(2026, 8, 3, 18, 30),
            secs: 300,
            docked: one_out,
            present: home,
        },
        Script {
            name: "07-in-debt"@,
            description: "Overspent into the red, still not put back"@,
            balance: 60,
            start: sim::berlin_of(2026, 8, 3, 19, 0),
            secs: 600,
            docked: one_out,
            present: home,
        },
        Script {
            name: "08-night-docked"@,
            description: "Night, everything put back, charging through to morning"@,
            balance: 2_700,
            start: sim::berlin_of(2026, 8, 3, 22, 0),
            secs: 1_800,
            docked,
            present: home,
        },
        Script {
            name: "09-night-undocked"@,
            description: "Taken out during the night: locked out and alerted"@,
            balance: 2_700,
            start: sim::berlin_of(2026, 8, 3, 23, 0),
            secs: 300,
            docked: one_out,
            present: home,
        },
        Script {
            name: "10-near-cap"@,
            description: "Saved up close to the cap"@,
            balance: 10_200,
            start: sim::berlin_of(2026, 8, 1, 11, 0),
            secs: 1_200,
            docked,
            present: home,
        },
    ]
}

/// Every canonical screen state.
pub fn all() -> (r: Vec<Scenario>)
    ensures
        r@.len() == scripts().len(),
        forall|i: int| 0 <= i < r@.len() ==> #[trigger] r@[i].plays(scripts()[i]),
{
    let docked: [bool; 2] = [true, true];
    let one_out: [bool; 2] = [false, true];
    let both_out: [bool; 2] = [false, false];
    let home: [bool; 2] = [true, true];
    let away: [bool; 2] = [false, false];
    let mut out: Vec<Scenario> = Vec::new();
    out.push(
        scenario(
            "01-docked-filling",
            "Put back at home, balance charging up",
            40 * 60,
            august(3, 16, 0),
            600,
            docked,
            home,
        ),
    );
    out.push(
        scenario(
            "02-draining",
            "In use at home, clock running",
            75 * 60,
            august(3, 16, 30),
            15 * 60,
            one_out,
            home,
        ),
    );
    out.push(
        scenario(
            "03-grace",
            "Brief pickup inside grace: dashed rule, balance untouched",
            50 * 60,
            august(3, 17, 0),
            90,
            one_out,
            home,
        ),
    );
    out.push(
        scenario(
            "04-out-and-about",
            "Out of the house: undocked but off-network, so it still fills",
            30 * 60,
            august(3, 14, 0),
            30 * 60,
            both_out,
            away,
        ),
    );
    out.push(
        scenario(
            "05-warning",
            "Four minutes left, thick rule",
            9 * 60,
            august(3, 18, 0),
            5 * 60,
            one_out,
            home,
        ),
    );
    // Exactly zero, not negative: the run must exceed the grace period or nothing is billed at
    // all and the balance never moves.
    out.push(
        scenario(
            "06-exhausted",
            "Balance exactly gone, still not put back: inverted, blocked",
            5 * 60,
            august(3, 18, 30),
            5 * 60,
            one_out,
            home,
        ),
    );
    out.push(
        scenario(
            "07-in-debt",
            "Overspent into the red, still not put back",
            60,
            august(3, 19, 0),
            10 * 60,
            one_out,
            home,
        ),
    );
    out.push(
        scenario(
            "08-night-docked",
            "Night, everything put back, charging through to morning",
            45 * 60,
            august(3, 22, 0),
            30 * 60,
            docked,
            home,
        ),
    );
    out.push(
        scenario(
            "09-night-undocked",
            "Taken out during the night: locked out and alerted",
            45 * 60,
            august(3, 23, 0),
            5 * 60,
            one_out,
            home,
        ),
    );
    out.push(
        scenario(
            "10-near-cap",
            "Saved up close to the cap",
            170 * 60,
            august(1, 11, 0),
            20 * 60,
            docked,
            home,
        ),
    );
    out
}

} // verus!
