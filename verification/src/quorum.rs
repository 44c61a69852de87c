//! Quorum arithmetic for dispute resolution.
//!
//! For a session with `n` validators, at most `byzantine_threshold(n)`
//! validators are assumed malicious, and `supermajority_threshold(n)`
//! votes on one side conclude a dispute.

use vstd::prelude::*;

verus! {

/// Greatest number of validators that may be malicious among `n`.
pub open spec fn spec_byzantine_threshold(n: nat) -> nat {
    if n == 0 {
        0
    } else {
        ((n - 1) / 3) as nat
    }
}

/// Number of votes on one side needed to conclude a dispute among `n` validators.
pub open spec fn spec_supermajority_threshold(n: nat) -> nat {
    (n - spec_byzantine_threshold(n)) as nat
}

/// `floor((n - 1) / 3)`: the maximum number of faulty validators tolerated.
pub fn byzantine_threshold(n: usize) -> (t: usize)
    ensures
        t == spec_byzantine_threshold(n as nat),
{
    if n == 0 {
        0
    } else {
        (n - 1) / 3
    }
}

/// `n - byzantine_threshold(n)`: votes needed on one side to conclude.
pub fn supermajority_threshold(n: usize) -> (t: usize)
    ensures
        t == spec_supermajority_threshold(n as nat),
{
    n - byzantine_threshold(n)
}

/// Two supermajorities always overlap: a supermajority takes more than
/// half of the validator set, so votes on both sides reaching the
/// threshold need more voters than the session has.
pub proof fn lemma_two_supermajorities_overlap(n: nat)
    requires
        n >= 1,
    ensures
        2 * spec_supermajority_threshold(n) > n,
{
}

/// The two thresholds partition the validator set.
pub proof fn lemma_thresholds_partition(n: nat)
    ensures
        spec_byzantine_threshold(n) + spec_supermajority_threshold(n) == n,
        spec_byzantine_threshold(n) <= n,
{
}

} // verus!
