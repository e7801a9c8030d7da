//! Measuring what actually blocks.
use crate::text;
use vstd::prelude::*;

verus! {

/// Microseconds, shown as milliseconds to one decimal. Whole milliseconds would round the
/// sub-millisecond calls to zero.
#[derive(Debug, Clone, Copy, PartialEq, Eq)]
pub struct Ms(pub u64);

impl Ms {
    pub open spec fn shown(self) -> Seq<char> {
        text::decimal((self.0 / 1_000) as nat) + "."@ + text::decimal(
            (self.0 % 1_000 / 100) as nat,
        ) + "ms"@
    }

    /// The text for a log line.
    pub fn text(&self) -> (r: String)
        ensures
            r@ == self.shown(),
    {
        let mut out = String::new();
        text::push_decimal(&mut out, self.0 / 1000);
        out.append(".");
        text::push_decimal(&mut out, (self.0 % 1000) / 100);
        out.append("ms");
        assert(out@ =~= self.shown());
        out
    }
}

/// Accumulates durations and reports a summary every `every` calls.
pub struct Stats {
    pub what: &'static str,
    pub every: u32,
    pub n: u32,
    pub total_us: u64,
    pub max_us: u64,
}

impl Stats {
    pub fn new(what: &'static str, every: u32) -> (r: Self)
        ensures
            r == (Stats { what, every, n: 0, total_us: 0, max_us: 0 }),
    {
        Stats { what, every, n: 0, total_us: 0, max_us: 0 }
    }

    /// The larger of the longest call so far and this one.
    pub open spec fn longest(self, us: u64) -> u64 {
        if us > self.max_us {
            us
        } else {
            self.max_us
        }
    }

    /// What is logged of the calls so far and this one.
    pub open spec fn summary(self, us: u64) -> Seq<char> {
        "timing: "@ + self.what@ + " n="@ + text::decimal((self.n + 1) as nat) + " avg="@ + Ms(
            ((self.total_us + us) / (self.n + 1)) as u64,
        ).shown() + " max="@ + Ms(self.longest(us)).shown()
    }

    /// Fold one call in. Says what to log when a summary is due, and starts over.
    pub fn record(&mut self, us: u64) -> (r: Option<String>)
        requires
            old(self).n < u32::MAX,
            old(self).total_us + us <= u64::MAX,
        ensures
            final(self).what == old(self).what,
            final(self).every == old(self).every,
            r is Some <==> old(self).n + 1 >= old(self).every,
            r is Some ==> r->0@ == old(self).summary(us) && final(self).n == 0
                && final(self).total_us == 0 && final(self).max_us == 0,
            r is None ==> final(self).n == old(self).n + 1 && final(self).total_us
                == old(self).total_us + us && final(self).max_us == old(self).longest(us),
    {
        self.n = self.n + 1;
        self.total_us = self.total_us + us;
        if us > self.max_us {
            self.max_us = us;
        }
        if self.n < self.every {
            return None;
        }
        let avg: u64 = self.total_us / self.n as u64;
        let mut out: String = "timing: ".to_owned();
        out.append(self.what);
        out.append(" n=");
        text::push_decimal(&mut out, self.n as u64);
        out.append(" avg=");
        out.append(Ms(avg).text().as_str());
        out.append(" max=");
        out.append(Ms(self.max_us).text().as_str());
        self.n = 0;
        self.total_us = 0;
        self.max_us = 0;
        Some(out)
    }
}

} // verus!
