//! Votes cast for or against a candidate.
//!
//! Candidates, validator keys and signatures appear here as plain
//! identifying values: the coordinator only compares them, it never
//! inspects their cryptographic structure. Signature checking happens
//! before a statement is handed to this library.

use vstd::prelude::*;

use crate::keymap::{lemma_find_at, lemma_sorted_len_bound, seq_find, VecMap};

verus! {

/// The ways a validator can vouch for a candidate's validity.
///
/// An approval signature may cover several candidates at once; the
/// signature value identifies the full statement, whose candidate list
/// the embedding retains, so the coalesced variant carries no payload
/// here.
#[derive(Clone, Copy, Debug, PartialEq, Eq, Structural)]
pub enum ValidKind {
    /// An explicit dispute statement.
    Explicit,
    /// A seconding statement from backing, bound to its relay parent.
    BackingSeconded(u64),
    /// A validity statement from backing, bound to its relay parent.
    BackingValid(u64),
    /// A vote by the approval checkers.
    ApprovalChecking,
    /// One approval signature covering several candidates at once.
    ApprovalCheckingMultipleCandidates,
}

impl ValidKind {
    /// Whether this vote was cast during backing.
    pub open spec fn spec_is_backing(&self) -> bool {
        match self {
            ValidKind::BackingSeconded(_) => true,
            ValidKind::BackingValid(_) => true,
            _ => false,
        }
    }

    /// Exec form of `spec_is_backing`.
    pub fn is_backing(&self) -> (r: bool)
        ensures
            r == self.spec_is_backing(),
    {
        match self {
            ValidKind::BackingSeconded(_) => true,
            ValidKind::BackingValid(_) => true,
            _ => false,
        }
    }
}

/// The ways a validator can dispute a candidate's validity.
#[derive(Clone, Copy, Debug, PartialEq, Eq, Structural)]
pub enum InvalidKind {
    /// An explicit dispute statement.
    Explicit,
}

/// A dispute statement, either side.
#[derive(Clone, Copy, Debug, PartialEq, Eq, Structural)]
pub enum DisputeStatement {
    /// The candidate is claimed valid.
    Valid(ValidKind),
    /// The candidate is claimed invalid.
    Invalid(InvalidKind),
}

impl DisputeStatement {
    /// Whether the statement vouches for the candidate.
    pub open spec fn spec_indicates_validity(&self) -> bool {
        self is Valid
    }

    /// Exec form of `spec_indicates_validity`.
    pub fn indicates_validity(&self) -> (r: bool)
        ensures
            r == self.spec_indicates_validity(),
    {
        match self {
            DisputeStatement::Valid(_) => true,
            DisputeStatement::Invalid(_) => false,
        }
    }

    /// Whether the statement disputes the candidate.
    pub fn indicates_invalidity(&self) -> (r: bool)
        ensures
            r == !self.spec_indicates_validity(),
    {
        match self {
            DisputeStatement::Valid(_) => false,
            DisputeStatement::Invalid(_) => true,
        }
    }
}

/// What identifies a candidate: its hash and the relay parent its
/// descriptor commits to.
#[derive(Clone, Copy, Debug, PartialEq, Eq, Structural)]
pub struct CandidateReceipt {
    /// Hash of the candidate.
    pub candidate_hash: u64,
    /// Relay parent from the candidate's descriptor.
    pub relay_parent: u64,
}

impl CandidateReceipt {
    /// The candidate's hash.
    pub fn hash(&self) -> (h: u64)
        ensures
            h == self.candidate_hash,
    {
        self.candidate_hash
    }
}

/// A dispute statement whose signature was already checked.
#[derive(Clone, Copy, Debug, PartialEq, Eq, Structural)]
pub struct SignedDisputeStatement {
    /// The statement itself.
    pub statement: DisputeStatement,
    /// The candidate the statement speaks of.
    pub candidate_hash: u64,
    /// The session the statement was cast in.
    pub session_index: u32,
    /// Public key of the signing validator.
    pub validator_public: u64,
    /// The signature over the statement.
    pub validator_signature: u64,
}

/// Votes vouching for a candidate, keyed by validator index.
///
/// A later backing vote replaces a previously stored non-backing vote
/// for the same validator (backing votes matter for slashing), but a
/// stored vote is never dropped and a backing vote is never downgraded.
pub struct ValidCandidateVotes {
    votes: VecMap<(ValidKind, u64)>,
}

/// The entry stored after offering `(kind, sig)` to a slot that held `prior`.
pub open spec fn upgraded_entry(
    prior: Option<(ValidKind, u64)>,
    kind: ValidKind,
    sig: u64,
) -> (ValidKind, u64) {
    match prior {
        None => (kind, sig),
        Some(p) => if p.0.spec_is_backing() {
            p
        } else if kind.spec_is_backing() {
            (kind, sig)
        } else {
            p
        },
    }
}

impl ValidCandidateVotes {
    /// Well-formed: sorted entries under validator-index keys.
    pub open spec fn wf(&self) -> bool {
        &&& self.spec_raw().wf()
        &&& forall|k: u128| self.spec_raw().has_key(k) ==> k < 0x1_0000_0000
    }

    /// The vote stored for a validator, if any.
    pub open spec fn spec_get(&self, validator: u32) -> Option<(ValidKind, u64)> {
        self.spec_raw().spec_get(validator as u128)
    }

    /// The underlying entry map.
    pub closed spec fn spec_raw(&self) -> &VecMap<(ValidKind, u64)> {
        &self.votes
    }

    /// No votes yet.
    pub fn new() -> (r: Self)
        ensures
            r.wf(),
            r.spec_raw().entries() == Seq::<(u128, (ValidKind, u64))>::empty(),
    {
        ValidCandidateVotes { votes: VecMap::new() }
    }

    /// A copy with the same entries.
    pub fn duplicate(&self) -> (r: Self)
        ensures
            r.spec_raw().entries() == self.spec_raw().entries(),
    {
        ValidCandidateVotes { votes: self.votes.clone_map() }
    }

    /// The underlying map of votes.
    pub fn raw(&self) -> (r: &VecMap<(ValidKind, u64)>)
        ensures
            r == self.spec_raw(),
    {
        &self.votes
    }

    /// Insert a vote, replacing a non-backing vote by a backing one.
    /// Returns whether the validator had no vote stored before.
    pub fn insert_vote(&mut self, validator_index: u32, kind: ValidKind, sig: u64) -> (fresh:
        bool)
        requires
            old(self).wf(),
        ensures
            final(self).wf(),
            fresh == (old(self).spec_get(validator_index) is None),
            final(self).spec_get(validator_index) == Some(
                upgraded_entry(old(self).spec_get(validator_index), kind, sig),
            ),
            forall|k2: u128|
                k2 != validator_index as u128 ==> final(self).spec_raw().spec_get(k2) == old(
                    self,
                ).spec_raw().spec_get(k2),
            final(self).spec_raw().entries().len() == old(self).spec_raw().entries().len() + (
            if old(self).spec_get(validator_index) is None {
                1int
            } else {
                0int
            }),
    {
        let k = validator_index as u128;
        let mut fresh = false;
        let mut store = false;
        match self.votes.get(k) {
            None => {
                fresh = true;
                store = true;
            },
            Some(p) => {
                store = !p.0.is_backing() && kind.is_backing();
            },
        }
        if store {
            self.votes.insert(k, (kind, sig));
        }
        proof {
            assert forall|k2: u128| self.votes.has_key(k2) implies k2 < 0x1_0000_0000 by {
                if k2 != k {
                    assert(self.votes.spec_get(k2) == old(self).votes.spec_get(k2));
                    assert(old(self).votes.has_key(k2));
                } else {
                    assert(k2 == validator_index as u128);
                }
            }
        }
        fresh
    }
}

/// Two vote ledgers with the same receipt and the same entries.
pub open spec fn votes_equivalent(a: &CandidateVotes, b: &CandidateVotes) -> bool {
    &&& a.candidate_receipt == b.candidate_receipt
    &&& a.valid.spec_raw().entries() == b.valid.spec_raw().entries()
    &&& a.invalid.entries() == b.invalid.entries()
}

/// All votes seen for one candidate, plus its receipt.
pub struct CandidateVotes {
    /// Receipt of the candidate the votes are about.
    pub candidate_receipt: CandidateReceipt,
    /// Votes vouching for the candidate.
    pub valid: ValidCandidateVotes,
    /// Votes disputing the candidate, keyed by validator index.
    pub invalid: VecMap<(InvalidKind, u64)>,
}

/// A vote map's size is bounded by the validator-index key space.
pub proof fn lemma_vote_map_len_bound<V>(m: &VecMap<V>)
    requires
        m.wf(),
        forall|k: u128| m.has_key(k) ==> k < 0x1_0000_0000,
    ensures
        m.entries().len() <= 0x1_0000_0000,
{
    assert forall|i: int| 0 <= i < m.entries().len() implies m.entries()[i].0 < 0x1_0000_0000 by {
        lemma_find_at(m.entries(), i);
        assert(m.has_key(m.entries()[i].0));
    }
    lemma_sorted_len_bound(m.entries(), 0x1_0000_0000);
}

/// How many keys of `s` are absent from `t`.
pub open spec fn count_fresh_keys<V1, V2>(s: Seq<(u128, V1)>, t: Seq<(u128, V2)>) -> nat
    decreases s.len(),
{
    if s.len() == 0 {
        0
    } else {
        count_fresh_keys(s.drop_last(), t) + (if seq_find(t, s.last().0) is None {
            1nat
        } else {
            0nat
        })
    }
}

impl CandidateVotes {
    /// Well-formed: both vote maps sorted under validator-index keys.
    pub open spec fn wf(&self) -> bool {
        &&& self.valid.wf()
        &&& self.invalid.wf()
        &&& forall|k: u128| self.invalid.has_key(k) ==> k < 0x1_0000_0000
    }

    /// Number of distinct validators with a vote on either side.
    pub open spec fn spec_distinct_voters(&self) -> nat {
        self.valid.spec_raw().entries().len() + count_fresh_keys(
            self.invalid.entries(),
            self.valid.spec_raw().entries(),
        )
    }

    /// An empty ledger for a candidate known only by its receipt.
    pub fn new_from_receipt_only(candidate_receipt: CandidateReceipt) -> (r: Self)
        ensures
            r.wf(),
            r.candidate_receipt == candidate_receipt,
            r.valid.spec_raw().entries() == Seq::<(u128, (ValidKind, u64))>::empty(),
            r.invalid.entries() == Seq::<(u128, (InvalidKind, u64))>::empty(),
    {
        CandidateVotes {
            candidate_receipt,
            valid: ValidCandidateVotes::new(),
            invalid: VecMap::new(),
        }
    }

    /// A copy with the same receipt and entries.
    pub fn duplicate(&self) -> (r: Self)
        ensures
            votes_equivalent(&r, self),
    {
        CandidateVotes {
            candidate_receipt: self.candidate_receipt,
            valid: self.valid.duplicate(),
            invalid: self.invalid.clone_map(),
        }
    }

    /// Count the distinct validators that voted on either side.
    pub fn distinct_voters(&self) -> (n: u64)
        requires
            self.wf(),
        ensures
            n == self.spec_distinct_voters(),
    {
        proof {
            lemma_vote_map_len_bound(self.valid.spec_raw());
            lemma_vote_map_len_bound(&self.invalid);
        }
        let valid = self.valid.raw();
        let n_invalid = self.invalid.len();
        let mut count: u64 = valid.len() as u64;
        let mut i: usize = 0;
        while i < n_invalid
            invariant
                self.wf(),
                i <= n_invalid,
                n_invalid == self.invalid.entries().len(),
                n_invalid <= 0x1_0000_0000,
                self.valid.spec_raw().entries().len() <= 0x1_0000_0000,
                count == self.valid.spec_raw().entries().len() + count_fresh_keys(
                    self.invalid.entries().take(i as int),
                    self.valid.spec_raw().entries(),
                ),
                count <= self.valid.spec_raw().entries().len() + i,
            decreases n_invalid - i,
        {
            let k = self.invalid.key_at(i);
            let fresh = !self.valid.raw().contains_key(k);
            proof {
                let pre = self.invalid.entries().take(i as int);
                let cur = self.invalid.entries().take(i + 1int);
                assert(cur.drop_last() =~= pre);
                assert(cur.last() == self.invalid.entries()[i as int]);
            }
            if fresh {
                count = count + 1;
            }
            i = i + 1;
        }
        proof {
            assert(self.invalid.entries().take(n_invalid as int) =~= self.invalid.entries());
        }
        count
    }
}

} // verus!
