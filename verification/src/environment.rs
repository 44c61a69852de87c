//! Session environment of a candidate.
//!
//! Resolving the environment needs runtime queries (session info, the
//! on-chain disabled list) which the embedding performs; this module
//! holds the resolved plain values and the combination rule for the
//! disabled-validator set.

use vstd::prelude::*;

use crate::quorum;
use crate::util::contains_u32;

verus! {

/// Per-session data the coordinator reads: the validators' public keys,
/// ordered by validator index.
pub struct SessionInfo {
    /// Validator public keys, indexed by validator index.
    pub validators: Vec<u64>,
}

/// Combine disabled-validator lists: keep the first occurrence of each
/// index, in order, and stop once `cap` distinct indices are collected.
pub open spec fn spec_combine_disabled(seen: Seq<u32>, rest: Seq<u32>, cap: nat) -> Seq<u32>
    decreases rest.len(),
{
    if rest.len() == 0 || seen.len() >= cap {
        seen
    } else if seen.contains(rest[0]) {
        spec_combine_disabled(seen, rest.drop_first(), cap)
    } else {
        spec_combine_disabled(seen.push(rest[0]), rest.drop_first(), cap)
    }
}

/// (Session) environment of a candidate.
pub struct CandidateEnvironment {
    /// The session the candidate appeared in.
    session_index: u32,
    /// Session data for that index.
    session: SessionInfo,
    /// Executor parameters of the session, carried for participation.
    executor_params: u64,
    /// Validator indices controlled by this node.
    controlled_indices: Vec<u32>,
    /// On-chain and off-chain disabled validators, first occurrences,
    /// capped at the byzantine threshold.
    disabled_indices: Vec<u32>,
}

impl CandidateEnvironment {
    /// The session index.
    pub closed spec fn spec_session_index(&self) -> u32 {
        self.session_index
    }

    /// The validators' keys, by index.
    pub closed spec fn spec_validators(&self) -> Seq<u64> {
        self.session.validators@
    }

    /// Indices this node controls.
    pub closed spec fn spec_controlled(&self) -> Seq<u32> {
        self.controlled_indices@
    }

    /// The combined disabled set.
    pub closed spec fn spec_disabled(&self) -> Seq<u32> {
        self.disabled_indices@
    }

    /// Executor parameters of the session.
    pub closed spec fn spec_executor_params(&self) -> u64 {
        self.executor_params
    }

    /// Build an environment from resolved session data.
    ///
    /// The disabled set starts from the on-chain list, appends the
    /// off-chain list in its priority order, keeps first occurrences
    /// only, and is truncated at the byzantine threshold of the
    /// session's validator count.
    pub fn new(
        session_index: u32,
        session: SessionInfo,
        executor_params: u64,
        disabled_onchain: Vec<u32>,
        disabled_offchain: Vec<u32>,
        controlled_indices: Vec<u32>,
    ) -> (r: Self)
        ensures
            r.spec_session_index() == session_index,
            r.spec_validators() == session.validators@,
            r.spec_executor_params() == executor_params,
            r.spec_controlled() == controlled_indices@,
            r.spec_disabled() == spec_combine_disabled(
                Seq::<u32>::empty(),
                disabled_onchain@ + disabled_offchain@,
                quorum::spec_byzantine_threshold(session.validators@.len()),
            ),
    {
        let cap = quorum::byzantine_threshold(session.validators.len());
        let ghost all = disabled_onchain@ + disabled_offchain@;
        let mut combined: Vec<u32> = Vec::new();
        let mut source = disabled_onchain;
        let mut more = disabled_offchain;
        source.append(&mut more);
        proof {
            assert(source@ =~= all);
        }
        let n = source.len();
        let mut i: usize = 0;
        proof {
            assert(all.skip(0) =~= all);
        }
        while i < n && combined.len() < cap
            invariant
                i <= n,
                n == all.len(),
                source@ == all,
                spec_combine_disabled(Seq::<u32>::empty(), all, cap as nat)
                    == spec_combine_disabled(combined@, all.skip(i as int), cap as nat),
                combined@.len() <= cap,
            decreases n - i,
        {
            proof {
                assert(all.skip(i as int).drop_first() =~= all.skip(i + 1int));
                assert(all.skip(i as int)[0] == all[i as int]);
            }
            let v = source[i];
            if !contains_u32(&combined, v) {
                combined.push(v);
            }
            i = i + 1;
        }
        proof {
            if i == n {
                assert(all.skip(n as int) =~= Seq::<u32>::empty());
            } else {
                lemma_combine_stops(combined@, all.skip(i as int), cap as nat);
            }
        }
        CandidateEnvironment {
            session_index,
            session,
            executor_params,
            controlled_indices,
            disabled_indices: combined,
        }
    }

    /// Validator keys in the candidate's session.
    pub fn validators(&self) -> (r: &Vec<u64>)
        ensures
            r@ == self.spec_validators(),
    {
        &self.session.validators
    }

    /// Session data for the candidate's session.
    pub fn session_info(&self) -> (r: &SessionInfo)
        ensures
            r.validators@ == self.spec_validators(),
    {
        &self.session
    }

    /// Executor parameters for the candidate's session.
    pub fn executor_params(&self) -> (r: u64)
        ensures
            r == self.spec_executor_params(),
    {
        self.executor_params
    }

    /// The session index.
    pub fn session_index(&self) -> (r: u32)
        ensures
            r == self.spec_session_index(),
    {
        self.session_index
    }

    /// Indices controlled by this node.
    pub fn controlled_indices(&self) -> (r: &Vec<u32>)
        ensures
            r@ == self.spec_controlled(),
    {
        &self.controlled_indices
    }

    /// Indices of off-chain and on-chain disabled validators.
    pub fn disabled_indices(&self) -> (r: &Vec<u32>)
        ensures
            r@ == self.spec_disabled(),
    {
        &self.disabled_indices
    }

    /// Whether a validator is in the combined disabled set.
    pub fn is_disabled(&self, validator: u32) -> (r: bool)
        ensures
            r == self.spec_disabled().contains(validator),
    {
        contains_u32(&self.disabled_indices, validator)
    }
}

/// Once the accumulator reached the cap, combining adds nothing more.
proof fn lemma_combine_stops(seen: Seq<u32>, rest: Seq<u32>, cap: nat)
    requires
        seen.len() >= cap,
    ensures
        spec_combine_disabled(seen, rest, cap) == seen,
    decreases rest.len(),
{
}

} // verus!
