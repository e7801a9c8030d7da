//! Turning "what the reader can see" into "is this device put back".
//!
//! A reader that stops answering holds the last known docking state and reports the fault.
//! Declaring everything undocked would drain the balance for devices sitting untouched at the
//! reader; declaring everything docked would hand out unmetered screen time for as long as the
//! fault lasted. Holding is wrong in neither direction for the length of a glitch, and the
//! alert is what makes a long fault visible.
use vstd::prelude::*;
use vstd::std_specs::cmp::PartialEqSpec;

verus! {

/// Reader failures tolerated before saying so. At one poll per second this is a few seconds of
/// silence, which distinguishes a wedged reader from a single bad transfer.
pub const DEFAULT_FAILURES_BEFORE_ALERT: u32 = 5;

/// What one poll concluded.
#[derive(Debug, Clone, PartialEq, Eq)]
pub struct Docked<T, const N: usize> {
    pub docked: [bool; N],
    /// An identity in the field belonging to no configured device, worth telling the parent
    /// about: a device carrying someone else's sticker looks exactly like this.
    pub unknown: Option<T>,
    /// The reader has been unresponsive long enough to be a fault, not a glitch.
    pub reader_fault: bool,
}

/// Maps identities in the field onto each device's docked flag.
///
/// A device with no configured identity falls back to whatever the caller passes, which is how
/// a button stands in before tags exist.
pub struct Docking<T, const N: usize> {
    pub known: [Option<T>; N],
    pub last: [bool; N],
    pub reported_unknown: Option<T>,
    pub consecutive_failures: u32,
    pub failures_before_alert: u32,
}

/// Whether an identity is among those seen.
pub open spec fn sees<T: PartialEq>(seen: Seq<T>, id: T) -> bool {
    exists|i: int| 0 <= i < seen.len() && #[trigger] seen[i].eq_spec(&id)
}

/// Whether an identity belongs to a configured device.
pub open spec fn is_known<T: PartialEq>(known: Seq<Option<T>>, id: T) -> bool {
    exists|i: int|
        0 <= i < known.len() && (#[trigger] known[i]) is Some && known[i]->0.eq_spec(&id)
}

/// Whether `found` is the first of those seen that belongs to no configured device.
pub open spec fn first_stranger<T: PartialEq>(
    seen: Seq<T>,
    known: Seq<Option<T>>,
    found: Option<T>,
) -> bool {
    match found {
        None => forall|i: int| 0 <= i < seen.len() ==> is_known(known, #[trigger] seen[i]),
        Some(id) => exists|i: int|
            {
                &&& 0 <= i < seen.len()
                &&& #[trigger] seen[i] == id
                &&& !is_known(known, seen[i])
                &&& forall|j: int| 0 <= j < i ==> is_known(known, #[trigger] seen[j])
            },
    }
}

impl<T: Copy + PartialEq, const N: usize> Docking<T, N> {
    /// Nothing seen yet: every device counts as docked.
    pub open spec fn fresh(self, known: [Option<T>; N], threshold: u32) -> bool {
        &&& self.known == known
        &&& forall|i: int| 0 <= i < N ==> #[trigger] self.last@[i]
        &&& self.reported_unknown is None
        &&& self.consecutive_failures == 0
        &&& self.failures_before_alert == threshold
    }

    /// What a failed poll does: it holds the last state, and reports a fault exactly when the
    /// failures in a row reach the threshold.
    pub open spec fn failed(self, after: Self, r: Docked<T, N>) -> bool {
        &&& after == (Docking {
            consecutive_failures: (self.consecutive_failures + 1) as u32,
            ..self
        })
        &&& r.docked == self.last
        &&& r.unknown is None
        &&& r.reader_fault == (self.consecutive_failures + 1 == self.failures_before_alert)
    }

    /// What a poll that worked does whatever equality of identities means: the failures in a row
    /// are over, a device without an identity follows the fallback, and what is reported is
    /// something that was seen.
    pub open spec fn worked(
        self,
        seen: Seq<T>,
        fallback: [bool; N],
        after: Self,
        r: Docked<T, N>,
    ) -> bool {
        &&& after.known == self.known
        &&& after.failures_before_alert == self.failures_before_alert
        &&& after.consecutive_failures == 0
        &&& after.last == r.docked
        &&& !r.reader_fault
        &&& forall|i: int|
            0 <= i < N && self.known@[i] is None ==> #[trigger] r.docked@[i] == fallback@[i]
        &&& after.reported_unknown is Some ==> seen.contains(after.reported_unknown->0)
        &&& r.unknown is None || r.unknown == after.reported_unknown
        &&& self.reported_unknown is None ==> r.unknown == after.reported_unknown
    }

    /// What a poll that worked does.
    pub open spec fn read(
        self,
        seen: Seq<T>,
        fallback: [bool; N],
        after: Self,
        r: Docked<T, N>,
    ) -> bool {
        &&& after.known == self.known
        &&& after.failures_before_alert == self.failures_before_alert
        &&& after.consecutive_failures == 0
        &&& after.last == r.docked
        &&& !r.reader_fault
        &&& forall|i: int|
            0 <= i < N ==> #[trigger] r.docked@[i] == match self.known@[i] {
                Some(id) => sees(seen, id),
                None => fallback@[i],
            }
        &&& first_stranger(seen, self.known@, after.reported_unknown)
        &&& r.unknown == if after.reported_unknown is Some && self.reported_unknown is Some
            && after.reported_unknown->0.eq_spec(&self.reported_unknown->0) {
            None
        } else {
            after.reported_unknown
        }
    }

    pub fn new(known: [Option<T>; N]) -> (r: Self)
        ensures
            r.fresh(known, DEFAULT_FAILURES_BEFORE_ALERT),
    {
        Docking::with_threshold(known, DEFAULT_FAILURES_BEFORE_ALERT)
    }

    pub fn with_threshold(known: [Option<T>; N], failures_before_alert: u32) -> (r: Self)
        ensures
            r.fresh(known, failures_before_alert),
    {
        Docking {
            known,
            // Start docked, matching the ledger's own fresh-state assumption: until something
            // is known, do not spend.
            last: [true;N],
            reported_unknown: None,
            consecutive_failures: 0,
            failures_before_alert,
        }
    }

    /// True when no device has an identity configured, so the reader cannot drive anything and
    /// the fallback is the only input.
    pub fn unconfigured(&self) -> (r: bool)
        ensures
            r == (forall|i: int| 0 <= i < N ==> (#[trigger] self.known@[i]) is None),
    {
        let mut i: usize = 0;
        while i < N
            invariant
                i <= N,
                forall|j: int| 0 <= j < i ==> (#[trigger] self.known@[j]) is None,
            decreases N - i,
        {
            if self.known[i].is_some() {
                return false;
            }
            i += 1;
        }
        true
    }

    fn contains(seen: &[T], id: &T) -> (r: bool)
        ensures
            T::obeys_eq_spec() ==> r == sees(seen@, *id),
    {
        let mut i: usize = 0;
        while i < seen.len()
            invariant
                i <= seen.len(),
                T::obeys_eq_spec() ==> forall|j: int|
                    0 <= j < i ==> !(#[trigger] seen@[j].eq_spec(id)),
            decreases seen.len() - i,
        {
            if seen[i] == *id {
                assert(T::obeys_eq_spec() ==> seen@[i as int].eq_spec(id));
                return true;
            }
            i += 1;
        }
        false
    }

    fn knows(&self, id: &T) -> (r: bool)
        ensures
            T::obeys_eq_spec() ==> r == is_known(self.known@, *id),
    {
        let mut i: usize = 0;
        while i < N
            invariant
                i <= N,
                T::obeys_eq_spec() ==> forall|j: int|
                    0 <= j < i && (#[trigger] self.known@[j]) is Some ==> !self.known@[j]->0.eq_spec(
                        id,
                    ),
            decreases N - i,
        {
            if let Some(k) = self.known[i] {
                if k == *id {
                    assert(T::obeys_eq_spec() ==> self.known@[i as int]->0.eq_spec(id));
                    return true;
                }
            }
            i += 1;
        }
        false
    }

    fn stranger(&self, seen: &[T]) -> (r: Option<T>)
        ensures
            T::obeys_eq_spec() ==> first_stranger(seen@, self.known@, r),
            r is Some ==> seen@.contains(r->0),
    {
        let mut i: usize = 0;
        while i < seen.len()
            invariant
                i <= seen.len(),
                T::obeys_eq_spec() ==> forall|j: int|
                    0 <= j < i ==> is_known(self.known@, #[trigger] seen@[j]),
            decreases seen.len() - i,
        {
            if !self.knows(&seen[i]) {
                assert(seen@[i as int] == seen[i as int]);
                return Some(seen[i]);
            }
            i += 1;
        }
        None
    }

    /// Fold one reading in.
    ///
    /// `seen` is `None` when the reader failed, which is emphatically not the same as an empty
    /// slice. Which device a reading that worked finds rests on the equality of the identities.
    pub fn update(&mut self, seen: Option<&[T]>, fallback: [bool; N]) -> (r: Docked<T, N>)
        requires
            seen is None ==> old(self).consecutive_failures < u32::MAX,
        ensures
            match seen {
                None => old(self).failed(*final(self), r),
                Some(s) => {
                    &&& old(self).worked(s@, fallback, *final(self), r)
                    &&& T::obeys_eq_spec() ==> old(self).read(s@, fallback, *final(self), r)
                },
            },
    {
        match seen {
            None => {
                self.consecutive_failures = self.consecutive_failures + 1;
                Docked {
                    docked: self.last,
                    unknown: None,
                    // Exactly at the threshold, so a persistent fault alerts once rather than
                    // every second for as long as it lasts.
                    reader_fault: self.consecutive_failures == self.failures_before_alert,
                }
            },
            Some(seen) => {
                self.consecutive_failures = 0;
                let mut docked: [bool; N] = [false;N];
                let mut i: usize = 0;
                while i < N
                    invariant
                        i <= N,
                        T::obeys_eq_spec() ==> forall|j: int|
                            0 <= j < i ==> #[trigger] docked@[j] == match self.known@[j] {
                                Some(id) => sees(seen@, id),
                                None => fallback@[j],
                            },
                        forall|j: int|
                            0 <= j < i && self.known@[j] is None ==> #[trigger] docked@[j]
                                == fallback@[j],
                    decreases N - i,
                {
                    docked[i] = match self.known[i] {
                        Some(id) => Self::contains(seen, &id),
                        None => fallback[i],
                    };
                    i += 1;
                }
                self.last = docked;
                let unknown: Option<T> = self.stranger(seen);
                // Report only when the unknown identity changes, so one strange tag left lying
                // at the reader does not alert every second.
                let report: Option<T> = match (unknown, self.reported_unknown) {
                    (Some(u), Some(prev)) => if u == prev {
                        None
                    } else {
                        Some(u)
                    },
                    (u, _) => u,
                };
                self.reported_unknown = unknown;
                Docked { docked, unknown: report, reader_fault: false }
            },
        }
    }
}

/// A device never changes state while the reader fails, and the fault is reported at exactly
/// one of the failures in a row.
pub proof fn a_failing_reader_holds_the_state<T: Copy + PartialEq, const N: usize>(
    d: Docking<T, N>,
    mid: Docking<T, N>,
    end: Docking<T, N>,
    first: Docked<T, N>,
    second: Docked<T, N>,
)
    requires
        d.consecutive_failures + 2 <= u32::MAX,
        d.failed(mid, first),
        mid.failed(end, second),
    ensures
        second.docked == first.docked,
        end.last == d.last,
        !(first.reader_fault && second.reader_fault),
        first.reader_fault <==> mid.consecutive_failures == d.failures_before_alert,
        second.reader_fault <==> end.consecutive_failures == d.failures_before_alert,
{
}

/// One strange tag left lying at the reader is reported once, not at every poll that sees it.
pub proof fn a_stranger_is_reported_once<T: Copy + PartialEq, const N: usize>(
    d: Docking<T, N>,
    mid: Docking<T, N>,
    end: Docking<T, N>,
    seen: Seq<T>,
    fallback: [bool; N],
    first: Docked<T, N>,
    second: Docked<T, N>,
)
    requires
        forall|id: T| #[trigger] id.eq_spec(&id),
        d.read(seen, fallback, mid, first),
        mid.read(seen, fallback, end, second),
    ensures
        end.reported_unknown == mid.reported_unknown,
        second.unknown is None,
{
    let a = mid.reported_unknown;
    let b = end.reported_unknown;
    if a is Some && b is Some {
        let i = choose|i: int|
            {
                &&& 0 <= i < seen.len()
                &&& #[trigger] seen[i] == a->0
                &&& !is_known(d.known@, seen[i])
                &&& forall|j: int| 0 <= j < i ==> is_known(d.known@, #[trigger] seen[j])
            };
        let k = choose|k: int|
            {
                &&& 0 <= k < seen.len()
                &&& #[trigger] seen[k] == b->0
                &&& !is_known(d.known@, seen[k])
                &&& forall|j: int| 0 <= j < k ==> is_known(d.known@, #[trigger] seen[j])
            };
        assert(i == k);
    }
}

/// A device counts as put back exactly while its own tag is among those that the reader sees, and
/// one without a tag as the fallback says. A reading that worked ends the failures in a row and
/// reports no fault.
pub proof fn a_device_is_docked_while_its_tag_is_seen<T: Copy + PartialEq, const N: usize>(
    d: Docking<T, N>,
    seen: Seq<T>,
    fallback: [bool; N],
    after: Docking<T, N>,
    r: Docked<T, N>,
    i: int,
)
    requires
        forall|a: T, b: T| #[trigger] a.eq_spec(&b) <==> a == b,
        d.read(seen, fallback, after, r),
        0 <= i < N,
    ensures
        d.known@[i] is Some ==> (r.docked@[i] <==> seen.contains(d.known@[i]->0)),
        d.known@[i] is None ==> r.docked@[i] == fallback@[i],
        after.last@[i] == r.docked@[i],
        after.known == d.known,
        after.consecutive_failures == 0,
        after.failures_before_alert == d.failures_before_alert,
        !r.reader_fault,
{
    if let Some(id) = d.known@[i] {
        if sees(seen, id) {
            let j = choose|j: int| 0 <= j < seen.len() && #[trigger] seen[j].eq_spec(&id);
            assert(seen[j] == id);
        }
        if seen.contains(id) {
            let j = choose|j: int| 0 <= j < seen.len() && seen[j] == id;
            assert(seen[j].eq_spec(&id));
        }
    }
}

/// A tag of no device is reported, and only such a tag: whatever is reported was seen and belongs to
/// no device, and where nothing was reported before and some tag seen belongs to no device, one is
/// reported.
pub proof fn a_strange_tag_is_reported<T: Copy + PartialEq, const N: usize>(
    d: Docking<T, N>,
    seen: Seq<T>,
    fallback: [bool; N],
    after: Docking<T, N>,
    r: Docked<T, N>,
    stranger: T,
)
    requires
        forall|a: T, b: T| #[trigger] a.eq_spec(&b) <==> a == b,
        d.read(seen, fallback, after, r),
    ensures
        r.unknown is Some ==> seen.contains(r.unknown->0) && !d.known@.contains(
            Some(r.unknown->0),
        ) && r.unknown != d.reported_unknown,
        d.reported_unknown is None && seen.contains(stranger) && !d.known@.contains(Some(stranger))
            ==> r.unknown is Some,
        (forall|j: int| 0 <= j < seen.len() ==> d.known@.contains(Some(#[trigger] seen[j])))
            ==> r.unknown is None && after.reported_unknown is None,
        after.reported_unknown is Some ==> exists|i: int|
            0 <= i < seen.len() && #[trigger] seen[i] == after.reported_unknown->0 && forall|j: int|
                0 <= j < i ==> d.known@.contains(Some(#[trigger] seen[j])),
{
    assert forall|id: T| #[trigger] is_known(d.known@, id) <==> d.known@.contains(Some(id)) by {
        if is_known(d.known@, id) {
            let i = choose|i: int|
                0 <= i < d.known@.len() && (#[trigger] d.known@[i]) is Some
                    && d.known@[i]->0.eq_spec(&id);
            assert(d.known@[i] == Some(id));
        }
        if d.known@.contains(Some(id)) {
            let i = choose|i: int| 0 <= i < d.known@.len() && d.known@[i] == Some(id);
            assert(d.known@[i] is Some && d.known@[i]->0.eq_spec(&id));
        }
    }
    if let Some(id) = after.reported_unknown {
        let i = choose|i: int|
            {
                &&& 0 <= i < seen.len()
                &&& #[trigger] seen[i] == id
                &&& !is_known(d.known@, seen[i])
                &&& forall|j: int| 0 <= j < i ==> is_known(d.known@, #[trigger] seen[j])
            };
        assert(seen.contains(id));
        assert(!d.known@.contains(Some(seen[i])));
        assert forall|j: int| 0 <= j < i implies d.known@.contains(Some(#[trigger] seen[j])) by {
            assert(is_known(d.known@, seen[j]));
        }
    }
    if seen.contains(stranger) {
        let i = choose|i: int| 0 <= i < seen.len() && seen[i] == stranger;
        assert(seen[i] == stranger);
    }
}

/// A failure counts once and changes nothing else; the fault is reported when as many have followed
/// one another as are tolerated, and not again while they go on.
pub proof fn a_fault_is_reported_at_the_threshold<T: Copy + PartialEq, const N: usize>(
    d: Docking<T, N>,
    after: Docking<T, N>,
    r: Docked<T, N>,
)
    requires
        d.failed(after, r),
        d.consecutive_failures < u32::MAX,
    ensures
        r.docked == d.last,
        after.last == d.last,
        after.known == d.known,
        after.reported_unknown == d.reported_unknown,
        after.failures_before_alert == d.failures_before_alert,
        after.consecutive_failures == d.consecutive_failures + 1,
        r.unknown is None,
        r.reader_fault <==> after.consecutive_failures == d.failures_before_alert,
{
}

/// Until something was read every device counts as put back, and nothing was reported.
pub proof fn docking_begins_with_everything_put_back<T: Copy + PartialEq, const N: usize>(
    d: Docking<T, N>,
    known: [Option<T>; N],
    threshold: u32,
    i: int,
)
    requires
        d.fresh(known, threshold),
        0 <= i < N,
    ensures
        d.last@[i],
        d.known@[i] == known@[i],
        d.reported_unknown is None,
        d.consecutive_failures == 0,
        d.failures_before_alert == threshold,
{
}

} // verus!
