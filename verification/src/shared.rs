//! What crosses between the room and the network.
//!
//! A value is read again and again and stays until it is published anew. An event is taken once.
use crate::balance::{Policy, Snapshot};
use crate::notify::Health;
use crate::settings::Settings;
use vstd::prelude::*;

verus! {

/// Everything that the two halves exchange. Whoever owns it locks it.
pub struct Shared {
    /// Where the router says each device is. From the network to the room.
    pub presence: [bool; 2],
    /// The rules in force, from the network to the room, for the admin page and flash live there.
    pub policy: Option<Policy>,
    /// What the ledger last computed. From the room to the network.
    pub snapshot: Option<Snapshot<2>>,
    /// The settings in force, so the form can show them.
    pub settings: Option<Settings>,
    /// A settings change that waits to be stored.
    pub pending: Option<Settings>,
    /// A validated wall clock, once.
    pub clock: Option<i64>,
    /// A balance and when it stood so, to be journalled, once.
    pub persist: Option<(i32, i64)>,
    /// Seconds that the admin page granted, once.
    pub bonus: Option<u32>,
    /// How alerting fares, for the admin page.
    pub health: Health,
}

impl Default for Shared {
    /// Nothing published: every device counts as away.
    fn default() -> (r: Self)
        ensures
            r.presence@ == seq![false, false],
            r.policy is None,
            r.snapshot is None,
            r.settings is None,
            r.pending is None,
            r.clock is None,
            r.persist is None,
            r.bonus is None,
            r.health == (Health { sent: 0, failed_in_a_row: 0, last_ok_ms: None }),
    {
        let r = Shared {
            presence: [false, false],
            policy: None,
            snapshot: None,
            settings: None,
            pending: None,
            clock: None,
            persist: None,
            bonus: None,
            health: Health::default(),
        };
        assert(r.presence@ =~= seq![false, false]);
        r
    }
}

impl Shared {
    pub fn publish_presence(&mut self, present: [bool; 2])
        ensures
            *final(self) == (Shared { presence: present, ..*old(self) }),
    {
        self.presence = present;
    }

    /// Where each device is.
    pub fn presence(&self) -> (r: [bool; 2])
        ensures
            r == self.presence,
    {
        self.presence
    }

    pub fn publish_policy(&mut self, p: Policy)
        ensures
            *final(self) == (Shared { policy: Some(p), ..*old(self) }),
    {
        self.policy = Some(p);
    }

    /// The rules in force, where some were published.
    pub fn policy(&self) -> (r: Option<Policy>)
        ensures
            r is Some == self.policy is Some,
            r is Some ==> r->0.same_rules(self.policy->0),
    {
        match &self.policy {
            Some(p) => Some(p.clone()),
            None => None,
        }
    }

    pub fn publish_snapshot(&mut self, s: Snapshot<2>)
        ensures
            *final(self) == (Shared { snapshot: Some(s), ..*old(self) }),
    {
        self.snapshot = Some(s);
    }

    /// What the ledger last computed.
    pub fn snapshot(&self) -> (r: Option<Snapshot<2>>)
        ensures
            r == self.snapshot,
    {
        self.snapshot
    }

    pub fn publish_settings(&mut self, s: Settings)
        ensures
            *final(self) == (Shared { settings: Some(s), ..*old(self) }),
    {
        self.settings = Some(s);
    }

    /// The settings in force.
    pub fn current_settings(&self) -> (r: Option<Settings>)
        ensures
            r == self.settings,
    {
        self.settings
    }

    /// Submit a settings change. One that still waits is replaced.
    pub fn submit_settings(&mut self, s: Settings)
        ensures
            *final(self) == (Shared { pending: Some(s), ..*old(self) }),
    {
        self.pending = Some(s);
    }

    /// Take a pending change, if the page submitted one.
    pub fn take_settings(&mut self) -> (r: Option<Settings>)
        ensures
            r == old(self).pending,
            *final(self) == (Shared { pending: None, ..*old(self) }),
    {
        let r: Option<Settings> = self.pending;
        self.pending = None;
        r
    }

    /// Hand over a validated wall clock.
    pub fn signal_clock(&mut self, t: i64)
        ensures
            *final(self) == (Shared { clock: Some(t), ..*old(self) }),
    {
        self.clock = Some(t);
    }

    /// Take the wall clock, if there is a new one.
    pub fn take_clock(&mut self) -> (r: Option<i64>)
        ensures
            r == old(self).clock,
            *final(self) == (Shared { clock: None, ..*old(self) }),
    {
        let r: Option<i64> = self.clock;
        self.clock = None;
        r
    }

    /// Ask for a balance to be journalled.
    pub fn signal_persist(&mut self, balance_secs: i32, t: i64)
        ensures
            *final(self) == (Shared { persist: Some((balance_secs, t)), ..*old(self) }),
    {
        self.persist = Some((balance_secs, t));
    }

    /// Take the balance to journal, if there is one.
    pub fn take_persist(&mut self) -> (r: Option<(i32, i64)>)
        ensures
            r == old(self).persist,
            *final(self) == (Shared { persist: None, ..*old(self) }),
    {
        let r: Option<(i32, i64)> = self.persist;
        self.persist = None;
        r
    }

    /// Grant seconds.
    pub fn signal_bonus(&mut self, secs: u32)
        ensures
            *final(self) == (Shared { bonus: Some(secs), ..*old(self) }),
    {
        self.bonus = Some(secs);
    }

    /// Take the seconds granted, if there are any.
    pub fn take_bonus(&mut self) -> (r: Option<u32>)
        ensures
            r == old(self).bonus,
            *final(self) == (Shared { bonus: None, ..*old(self) }),
    {
        let r: Option<u32> = self.bonus;
        self.bonus = None;
        r
    }

    /// How alerting fares.
    pub fn health(&self) -> (r: Health)
        ensures
            r == self.health,
    {
        self.health
    }
}

} // verus!
