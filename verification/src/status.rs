//! Status of a tracked dispute.
//!
//! A status exists only once a candidate is disputed. It is a monotonic
//! lattice: confirmation and each conclusion direction can be added but
//! never removed. A conclusion keeps the earliest timestamp it was
//! reached at.

use vstd::prelude::*;

verus! {

/// Seconds a concluded dispute still counts as active.
pub const ACTIVE_DURATION_SECS: u64 = 180;

/// Dispute status of one candidate, as kept in the recent-disputes index.
#[derive(Clone, Copy, Debug)]
pub struct DisputeStatus {
    /// Confirmed by more than the byzantine threshold of distinct voters.
    pub confirmed: bool,
    /// When enough valid votes accumulated, if they did.
    pub concluded_for: Option<u64>,
    /// When enough invalid votes accumulated, if they did.
    pub concluded_against: Option<u64>,
}

impl DisputeStatus {
    /// Whether the dispute was confirmed by more than the byzantine
    /// threshold of distinct voters.
    pub open spec fn spec_confirmed(&self) -> bool {
        self.confirmed
    }

    /// Timestamp at which enough valid votes accumulated, if they did.
    pub open spec fn spec_concluded_for(&self) -> Option<u64> {
        self.concluded_for
    }

    /// Timestamp at which enough invalid votes accumulated, if they did.
    pub open spec fn spec_concluded_against(&self) -> Option<u64> {
        self.concluded_against
    }

    /// A freshly raised, unconfirmed, unconcluded dispute.
    pub fn active() -> (r: Self)
        ensures
            !r.spec_confirmed(),
            r.spec_concluded_for() is None,
            r.spec_concluded_against() is None,
    {
        DisputeStatus { confirmed: false, concluded_for: None, concluded_against: None }
    }

    /// Add confirmation; conclusions are kept.
    pub fn confirm(self) -> (r: Self)
        ensures
            r.spec_confirmed(),
            r.spec_concluded_for() == self.spec_concluded_for(),
            r.spec_concluded_against() == self.spec_concluded_against(),
    {
        DisputeStatus { confirmed: true, ..self }
    }

    /// Record that the dispute concluded for the candidate, keeping the
    /// earliest conclusion time.
    pub fn conclude_for(self, now: u64) -> (r: Self)
        ensures
            r.spec_confirmed() == self.spec_confirmed(),
            r.spec_concluded_against() == self.spec_concluded_against(),
            r.spec_concluded_for() == Some(
                match self.spec_concluded_for() {
                    Some(at) => if at < now { at } else { now },
                    None => now,
                },
            ),
    {
        let at = match self.concluded_for {
            Some(at) => if at < now {
                at
            } else {
                now
            },
            None => now,
        };
        DisputeStatus { concluded_for: Some(at), ..self }
    }

    /// Record that the dispute concluded against the candidate, keeping
    /// the earliest conclusion time.
    pub fn conclude_against(self, now: u64) -> (r: Self)
        ensures
            r.spec_confirmed() == self.spec_confirmed(),
            r.spec_concluded_for() == self.spec_concluded_for(),
            r.spec_concluded_against() == Some(
                match self.spec_concluded_against() {
                    Some(at) => if at < now { at } else { now },
                    None => now,
                },
            ),
    {
        let at = match self.concluded_against {
            Some(at) => if at < now {
                at
            } else {
                now
            },
            None => now,
        };
        DisputeStatus { concluded_against: Some(at), ..self }
    }

    /// Confirmed by quorum or concluded in either direction.
    pub open spec fn spec_is_confirmed_concluded(&self) -> bool {
        self.spec_confirmed() || self.spec_concluded_for() is Some || self.spec_concluded_against()
            is Some
    }

    /// Exec form of `spec_is_confirmed_concluded`.
    pub fn is_confirmed_concluded(&self) -> (r: bool)
        ensures
            r == self.spec_is_confirmed_concluded(),
    {
        self.confirmed || self.concluded_for.is_some() || self.concluded_against.is_some()
    }

    /// Whether enough valid votes accumulated to conclude for the candidate.
    pub fn has_concluded_for(&self) -> (r: bool)
        ensures
            r == (self.spec_concluded_for() is Some),
    {
        self.concluded_for.is_some()
    }

    /// Whether enough invalid votes accumulated to conclude against the candidate.
    pub fn has_concluded_against(&self) -> (r: bool)
        ensures
            r == (self.spec_concluded_against() is Some),
    {
        self.concluded_against.is_some()
    }

    /// Whether the candidate may still turn out invalid: everything but
    /// a clean conclusion in its favour.
    pub open spec fn spec_is_possibly_invalid(&self) -> bool {
        !(self.spec_concluded_for() is Some && self.spec_concluded_against() is None)
    }

    /// Exec form of `spec_is_possibly_invalid`.
    pub fn is_possibly_invalid(&self) -> (r: bool)
        ensures
            r == self.spec_is_possibly_invalid(),
    {
        !(self.concluded_for.is_some() && self.concluded_against.is_none())
    }

    /// Earliest time the dispute concluded in either direction, if it did.
    pub open spec fn spec_concluded_at(&self) -> Option<u64> {
        match (self.spec_concluded_for(), self.spec_concluded_against()) {
            (Some(a), Some(b)) => Some(if a < b { a } else { b }),
            (Some(a), None) => Some(a),
            (None, Some(b)) => Some(b),
            (None, None) => None,
        }
    }

    /// Exec form of `spec_concluded_at`.
    pub fn concluded_at(&self) -> (r: Option<u64>)
        ensures
            r == self.spec_concluded_at(),
    {
        match (self.concluded_for, self.concluded_against) {
            (Some(a), Some(b)) => Some(if a < b {
                a
            } else {
                b
            }),
            (Some(a), None) => Some(a),
            (None, Some(b)) => Some(b),
            (None, None) => None,
        }
    }

    /// A dispute is inactive once it concluded long enough ago.
    pub open spec fn spec_is_inactive(&self, now: u64) -> bool {
        match self.spec_concluded_at() {
            Some(at) => at + ACTIVE_DURATION_SECS < now,
            None => false,
        }
    }

    /// Exec form of `spec_is_inactive`.
    pub fn is_inactive(&self, now: u64) -> (r: bool)
        ensures
            r == self.spec_is_inactive(now),
    {
        match self.concluded_at() {
            Some(at) => at <= u64::MAX - ACTIVE_DURATION_SECS && at + ACTIVE_DURATION_SECS < now,
            None => false,
        }
    }
}

} // verus!
