//! The import orchestrator.
//!
//! Owns the dispute-coordinator state: spam slots, off-chain disabled
//! validators, the recent-disputes index and the per-candidate vote
//! ledgers. The embedding performs the outside work (runtime queries,
//! the store, gossip, participation and the approval-vote fetch) and
//! drives these decision functions; an import runs in three steps:
//! `load_vote_state`, then `CandidateVoteState::import_statements`
//! (plus `ImportResult::import_approval_votes` when the result asks for
//! approval signatures), then `finish_import`.

use vstd::prelude::*;

use crate::disabled::OffchainDisabledValidators;
use crate::environment::{CandidateEnvironment, SessionInfo};
use crate::import::{
    approval_votes_of, spec_vote_missing, state_derived, CandidateVoteState, ImportResult,
};
use crate::keymap::{
    lemma_find_at, session_candidate_key, spec_session_candidate_key, VecMap,
};
use crate::spam_slots::SpamSlots;
use crate::status::DisputeStatus;
use crate::votes::{
    CandidateReceipt, CandidateVotes, DisputeStatement, SignedDisputeStatement, ValidKind,
};

verus! {

/// Sessions a dispute may lag behind the highest seen before imports
/// for it are rejected as ancient.
pub const DISPUTE_WINDOW: u32 = 6;

/// How many scraped blocks are imported per leaf update; the rest waits
/// in the backlog so the coordinator stays responsive under finality lag.
pub const CHAIN_IMPORT_MAX_BATCH_SIZE: usize = 8;

/// Outcome of an import request, reported to the requester.
#[derive(Clone, Copy, Debug, PartialEq, Eq, Structural)]
pub enum ImportStatementsResult {
    /// The import was invalid and was not applied.
    InvalidImport,
    /// The import was valid and is being persisted.
    ValidImport,
}

/// A candidate receipt, or the hash of a candidate whose receipt was
/// seen before by means of a backing vote.
#[derive(Clone, Copy, Debug)]
pub enum MaybeCandidateReceipt {
    /// Directly provides the candidate receipt.
    Provides(CandidateReceipt),
    /// Assumes the receipt was stored with an earlier backing vote.
    AssumeBackingVotePresent(u64),
}

impl MaybeCandidateReceipt {
    /// The hash of the candidate.
    pub open spec fn spec_hash(&self) -> u64 {
        match self {
            MaybeCandidateReceipt::Provides(r) => r.candidate_hash,
            MaybeCandidateReceipt::AssumeBackingVotePresent(h) => *h,
        }
    }

    /// The hash of the candidate.
    pub fn hash(&self) -> (h: u64)
        ensures
            h == self.spec_hash(),
    {
        match self {
            MaybeCandidateReceipt::Provides(receipt) => receipt.hash(),
            MaybeCandidateReceipt::AssumeBackingVotePresent(hash) => *hash,
        }
    }
}

/// A backing attestation scraped from chain, in compact form.
#[derive(Clone, Copy, Debug, PartialEq, Eq, Structural)]
pub enum BackingKind {
    /// The backer seconded the candidate.
    Seconded,
    /// The backer attested validity.
    Valid,
}

/// A dispute statement set scraped from chain: votes of a concluded
/// dispute, already checked on chain.
pub struct DisputeStatementSet {
    /// The candidate disputed.
    pub candidate_hash: u64,
    /// The session the dispute ran in.
    pub session: u32,
    /// The votes: statement, validator index, signature.
    pub statements: Vec<(DisputeStatement, u32, u64)>,
}

/// On-chain votes scraped from one block.
pub struct ScrapedOnChainVotes {
    /// The session of the block.
    pub session: u32,
    /// Backing votes per candidate: receipt and its backers.
    pub backing_validators_per_candidate: Vec<(CandidateReceipt, Vec<(u32, BackingKind, u64)>)>,
    /// Concluded disputes recorded on chain.
    pub disputes: Vec<DisputeStatementSet>,
}

/// `sub` with a floor of zero.
pub open spec fn spec_saturating_sub(a: u32, b: u32) -> u32 {
    if a >= b {
        (a - b) as u32
    } else {
        0
    }
}

/// The session floor of the dispute window below `highest`.
pub open spec fn spec_window_floor(highest: u32) -> u32 {
    spec_saturating_sub(highest, (DISPUTE_WINDOW - 1) as u32)
}

/// The statements derived from scraped backing votes: each backer with
/// a known validator index contributes a backing statement bound to the
/// candidate's relay parent.
pub open spec fn backing_statements_of(
    session_info: &SessionInfo,
    session: u32,
    receipt: CandidateReceipt,
    backers: Seq<(u32, BackingKind, u64)>,
) -> Seq<(SignedDisputeStatement, u32)>
    decreases backers.len(),
{
    if backers.len() == 0 {
        Seq::empty()
    } else {
        let b = backers[0];
        let head: Seq<(SignedDisputeStatement, u32)> = if (b.0 as int)
            < session_info.validators@.len() {
            seq![
                (
                    SignedDisputeStatement {
                        statement: DisputeStatement::Valid(
                            match b.1 {
                                BackingKind::Seconded => ValidKind::BackingSeconded(
                                    receipt.relay_parent,
                                ),
                                BackingKind::Valid => ValidKind::BackingValid(receipt.relay_parent),
                            },
                        ),
                        candidate_hash: receipt.candidate_hash,
                        session_index: session,
                        validator_public: session_info.validators@[b.0 as int],
                        validator_signature: b.2,
                    },
                    b.0,
                ),
            ]
        } else {
            Seq::empty()
        };
        head + backing_statements_of(session_info, session, receipt, backers.drop_first())
    }
}

/// The statements derived from a scraped dispute set: each vote with a
/// known validator index is taken as already checked.
pub open spec fn dispute_statements_of(
    session_info: &SessionInfo,
    set_session: u32,
    set_hash: u64,
    stmts: Seq<(DisputeStatement, u32, u64)>,
) -> Seq<(SignedDisputeStatement, u32)>
    decreases stmts.len(),
{
    if stmts.len() == 0 {
        Seq::empty()
    } else {
        let t = stmts[0];
        let head: Seq<(SignedDisputeStatement, u32)> = if (t.1 as int)
            < session_info.validators@.len() {
            seq![
                (
                    SignedDisputeStatement {
                        statement: t.0,
                        candidate_hash: set_hash,
                        session_index: set_session,
                        validator_public: session_info.validators@[t.1 as int],
                        validator_signature: t.2,
                    },
                    t.1,
                ),
            ]
        } else {
            Seq::empty()
        };
        head + dispute_statements_of(session_info, set_session, set_hash, stmts.drop_first())
    }
}

/// Turn scraped backing votes into importable statements, skipping
/// backers whose validator index the session does not know.
pub fn backing_statements_from_chain(
    session_info: &SessionInfo,
    session: u32,
    receipt: &CandidateReceipt,
    backers: &Vec<(u32, BackingKind, u64)>,
) -> (r: Vec<(SignedDisputeStatement, u32)>)
    ensures
        r@ == backing_statements_of(session_info, session, *receipt, backers@),
{
    let ghost all = backers@;
    let n = backers.len();
    let mut out: Vec<(SignedDisputeStatement, u32)> = Vec::new();
    let mut i: usize = 0;
    proof {
        assert(all.skip(0) =~= all);
    }
    while i < n
        invariant
            i <= n,
            n == all.len(),
            backers@ == all,
            backing_statements_of(session_info, session, *receipt, all) == out@
                + backing_statements_of(session_info, session, *receipt, all.skip(i as int)),
        decreases n - i,
    {
        proof {
            assert(all.skip(i as int).drop_first() =~= all.skip(i + 1int));
            assert(all.skip(i as int)[0] == all[i as int]);
        }
        let ghost out_before = out@;
        let (index, kind, sig) = backers[i];
        if (index as usize) < session_info.validators.len() {
            let statement_kind = match kind {
                BackingKind::Seconded => ValidKind::BackingSeconded(receipt.relay_parent),
                BackingKind::Valid => ValidKind::BackingValid(receipt.relay_parent),
            };
            out.push(
                (
                    SignedDisputeStatement {
                        statement: DisputeStatement::Valid(statement_kind),
                        candidate_hash: receipt.candidate_hash,
                        session_index: session,
                        validator_public: session_info.validators[index as usize],
                        validator_signature: sig,
                    },
                    index,
                ),
            );
            proof {
                assert(backing_statements_of(session_info, session, *receipt, all.skip(i as int))
                    == seq![out@[out@.len() - 1]] + backing_statements_of(
                    session_info,
                    session,
                    *receipt,
                    all.skip(i + 1int),
                ));
                assert(out_before + backing_statements_of(
                    session_info,
                    session,
                    *receipt,
                    all.skip(i as int),
                ) =~= out@ + backing_statements_of(
                    session_info,
                    session,
                    *receipt,
                    all.skip(i + 1int),
                ));
            }
        } else {
            proof {
                assert(backing_statements_of(session_info, session, *receipt, all.skip(i as int))
                    == backing_statements_of(session_info, session, *receipt, all.skip(i + 1int)));
            }
        }
        i = i + 1;
    }
    proof {
        assert(all.skip(n as int) =~= Seq::<(u32, BackingKind, u64)>::empty());
        assert(out@ =~= backing_statements_of(session_info, session, *receipt, all));
    }
    out
}

/// Turn a scraped dispute set into importable statements, skipping
/// votes whose validator index the session does not know.
pub fn dispute_statements_from_chain(
    session_info: &SessionInfo,
    set: &DisputeStatementSet,
) -> (r: Vec<(SignedDisputeStatement, u32)>)
    ensures
        r@ == dispute_statements_of(session_info, set.session, set.candidate_hash, set.statements@),
{
    let ghost all = set.statements@;
    let n = set.statements.len();
    let mut out: Vec<(SignedDisputeStatement, u32)> = Vec::new();
    let mut i: usize = 0;
    proof {
        assert(all.skip(0) =~= all);
    }
    while i < n
        invariant
            i <= n,
            n == all.len(),
            set.statements@ == all,
            dispute_statements_of(session_info, set.session, set.candidate_hash, all) == out@
                + dispute_statements_of(
                session_info,
                set.session,
                set.candidate_hash,
                all.skip(i as int),
            ),
        decreases n - i,
    {
        proof {
            assert(all.skip(i as int).drop_first() =~= all.skip(i + 1int));
            assert(all.skip(i as int)[0] == all[i as int]);
        }
        let ghost out_before = out@;
        let (statement, index, sig) = set.statements[i];
        if (index as usize) < session_info.validators.len() {
            out.push(
                (
                    SignedDisputeStatement {
                        statement,
                        candidate_hash: set.candidate_hash,
                        session_index: set.session,
                        validator_public: session_info.validators[index as usize],
                        validator_signature: sig,
                    },
                    index,
                ),
            );
            proof {
                assert(dispute_statements_of(
                    session_info,
                    set.session,
                    set.candidate_hash,
                    all.skip(i as int),
                ) == seq![out@[out@.len() - 1]] + dispute_statements_of(
                    session_info,
                    set.session,
                    set.candidate_hash,
                    all.skip(i + 1int),
                ));
                assert(out_before + dispute_statements_of(
                    session_info,
                    set.session,
                    set.candidate_hash,
                    all.skip(i as int),
                ) =~= out@ + dispute_statements_of(
                    session_info,
                    set.session,
                    set.candidate_hash,
                    all.skip(i + 1int),
                ));
            }
        } else {
            proof {
                assert(dispute_statements_of(
                    session_info,
                    set.session,
                    set.candidate_hash,
                    all.skip(i as int),
                ) == dispute_statements_of(
                    session_info,
                    set.session,
                    set.candidate_hash,
                    all.skip(i + 1int),
                ));
            }
        }
        i = i + 1;
    }
    proof {
        assert(all.skip(n as int) =~= Seq::<(DisputeStatement, u32, u64)>::empty());
        assert(out@ =~= dispute_statements_of(
            session_info,
            set.session,
            set.candidate_hash,
            all,
        ));
    }
    out
}

/// A block in a chain handed to `determine_undisputed_chain`.
pub struct BlockDescription {
    /// The block's hash.
    pub block_hash: u64,
    /// The session the block belongs to.
    pub session: u32,
    /// The candidates included in the block.
    pub candidates: Vec<u64>,
}

/// The coordinator's state.
pub struct Coordinator {
    highest_session_seen: u32,
    gaps_in_cache: bool,
    spam_slots: SpamSlots,
    offchain_disabled_validators: OffchainDisabledValidators,
    recent_disputes: VecMap<DisputeStatus>,
    candidate_votes: VecMap<CandidateVotes>,
    chain_import_backlog: Vec<ScrapedOnChainVotes>,
}

impl Coordinator {
    /// The highest session seen via leaf updates.
    pub closed spec fn spec_highest_session(&self) -> u32 {
        self.highest_session_seen
    }

    /// Whether a session-info fetch failed during the last caching attempt.
    pub closed spec fn spec_gaps_in_cache(&self) -> bool {
        self.gaps_in_cache
    }

    /// The spam-slot accounting.
    pub closed spec fn spec_spam_slots(&self) -> &SpamSlots {
        &self.spam_slots
    }

    /// The off-chain disabled validators.
    pub closed spec fn spec_offchain_disabled(&self) -> &OffchainDisabledValidators {
        &self.offchain_disabled_validators
    }

    /// The recent-disputes index, keyed by session and candidate.
    pub closed spec fn spec_recent_disputes(&self) -> &VecMap<DisputeStatus> {
        &self.recent_disputes
    }

    /// The vote ledgers, keyed by session and candidate.
    pub closed spec fn spec_candidate_votes(&self) -> &VecMap<CandidateVotes> {
        &self.candidate_votes
    }

    /// The not-yet-imported scraped votes.
    pub closed spec fn spec_backlog(&self) -> Seq<ScrapedOnChainVotes> {
        self.chain_import_backlog@
    }

    /// Well-formed: all maps sorted, all stored ledgers well-formed.
    pub closed spec fn wf(&self) -> bool {
        &&& self.spam_slots.wf()
        &&& self.offchain_disabled_validators.wf()
        &&& self.recent_disputes.wf()
        &&& self.candidate_votes.wf()
        &&& forall|k: u128|
            #[trigger] self.candidate_votes.spec_get(k) matches Some(v) ==> v.wf()
    }

    /// A fresh coordinator that has seen `highest_session_seen`.
    pub fn new(highest_session_seen: u32, gaps_in_cache: bool) -> (r: Self)
        ensures
            r.wf(),
            r.spec_highest_session() == highest_session_seen,
            r.spec_gaps_in_cache() == gaps_in_cache,
            r.spec_recent_disputes().entries().len() == 0,
            r.spec_candidate_votes().entries().len() == 0,
            r.spec_backlog().len() == 0,
    {
        Coordinator {
            highest_session_seen,
            gaps_in_cache,
            spam_slots: SpamSlots::new(),
            offchain_disabled_validators: OffchainDisabledValidators::new(),
            recent_disputes: VecMap::new(),
            candidate_votes: VecMap::new(),
            chain_import_backlog: Vec::new(),
        }
    }

    /// Whether a session lies before the dispute window.
    pub fn session_is_ancient(&self, session_idx: u32) -> (r: bool)
        ensures
            r == (session_idx < spec_window_floor(self.spec_highest_session())),
    {
        session_idx < self.highest_session_seen.saturating_sub(DISPUTE_WINDOW - 1)
    }

    /// On a new leaf of `session_idx`: which sessions to fetch, and the
    /// new window floor, if the leaf brings a new session or the cache
    /// had gaps. Mirrors the window arithmetic of the leaf handler.
    pub fn session_window_update(&self, session_idx: u32) -> (r: Option<(u32, u32)>)
        ensures
            match r {
                Some((fetch_lower_bound, prune_up_to)) => {
                    &&& (self.spec_gaps_in_cache() || session_idx > self.spec_highest_session())
                    &&& prune_up_to == spec_window_floor(session_idx)
                    &&& fetch_lower_bound == (if !self.spec_gaps_in_cache()
                        && self.spec_highest_session() > prune_up_to {
                        (self.spec_highest_session() + 1) as u32
                    } else {
                        prune_up_to
                    })
                },
                None => !self.spec_gaps_in_cache() && session_idx
                    <= self.spec_highest_session(),
            },
    {
        if self.gaps_in_cache || session_idx > self.highest_session_seen {
            let prune_up_to = session_idx.saturating_sub(DISPUTE_WINDOW - 1);
            let fetch_lower_bound = if !self.gaps_in_cache && self.highest_session_seen
                > prune_up_to {
                self.highest_session_seen + 1
            } else {
                prune_up_to
            };
            Some((fetch_lower_bound, prune_up_to))
        } else {
            None
        }
    }

    /// Note the outcome of caching a new session: the highest session
    /// seen, whether fetches failed, and prune all state before the
    /// window floor.
    pub fn apply_session_update(&mut self, session_idx: u32, gaps: bool)
        requires
            old(self).wf(),
        ensures
            final(self).wf(),
            final(self).spec_highest_session() == session_idx,
            final(self).spec_gaps_in_cache() == gaps,
            final(self).spec_backlog() == old(self).spec_backlog(),
            forall|s2: u32, v2: u32|
                final(self).spec_spam_slots().spec_count(s2, v2) == (if s2 >= spec_window_floor(
                    session_idx,
                ) {
                    old(self).spec_spam_slots().spec_count(s2, v2)
                } else {
                    0nat
                }),
            forall|s2: u32, v2: u32|
                final(self).spec_offchain_disabled().spec_is_disabled(s2, v2) == (s2
                    >= spec_window_floor(session_idx) && old(
                    self,
                ).spec_offchain_disabled().spec_is_disabled(s2, v2)),
            forall|k: u128|
                final(self).spec_recent_disputes().spec_get(k) == (if k
                    >= spec_session_candidate_key(spec_window_floor(session_idx), 0) {
                    old(self).spec_recent_disputes().spec_get(k)
                } else {
                    Option::<DisputeStatus>::None
                }),
    {
        let prune_up_to = session_idx.saturating_sub(DISPUTE_WINDOW - 1);
        self.highest_session_seen = session_idx;
        self.gaps_in_cache = gaps;
        self.spam_slots.prune_old(prune_up_to);
        self.offchain_disabled_validators.prune_old(prune_up_to);
        let floor_key = session_candidate_key(prune_up_to, 0);
        self.recent_disputes.retain_from(floor_key);
    }

    /// Append freshly scraped votes to the backlog and take the batch
    /// to import now.
    pub fn take_backlog_batch(&mut self, new_votes: Vec<ScrapedOnChainVotes>) -> (batch: Vec<
        ScrapedOnChainVotes,
    >)
        requires
            old(self).wf(),
            old(self).spec_backlog().len() + new_votes@.len() <= usize::MAX,
        ensures
            final(self).wf(),
            ({
                let combined = old(self).spec_backlog() + new_votes@;
                let k = (if combined.len() < CHAIN_IMPORT_MAX_BATCH_SIZE as nat {
                    combined.len() as int
                } else {
                    CHAIN_IMPORT_MAX_BATCH_SIZE as int
                });
                batch@ == combined.take(k) && final(self).spec_backlog() == combined.skip(k)
            }),
            final(self).spec_highest_session() == old(self).spec_highest_session(),
            final(self).spec_gaps_in_cache() == old(self).spec_gaps_in_cache(),
            final(self).spec_spam_slots() == old(self).spec_spam_slots(),
            final(self).spec_offchain_disabled() == old(self).spec_offchain_disabled(),
            final(self).spec_recent_disputes() == old(self).spec_recent_disputes(),
            final(self).spec_candidate_votes() == old(self).spec_candidate_votes(),
    {
        let ghost backlog0 = self.chain_import_backlog@;
        let ghost new0 = new_votes@;
        let mut incoming = new_votes;
        self.chain_import_backlog.append(&mut incoming);
        let total = self.chain_import_backlog.len();
        let k = if total < CHAIN_IMPORT_MAX_BATCH_SIZE {
            total
        } else {
            CHAIN_IMPORT_MAX_BATCH_SIZE
        };
        let rest = self.chain_import_backlog.split_off(k);
        let mut batch = rest;
        core::mem::swap(&mut self.chain_import_backlog, &mut batch);
        proof {
            let combined = backlog0 + new0;
            assert(batch@ =~= combined.take(k as int));
            assert(self.chain_import_backlog@ =~= combined.skip(k as int));
        }
        batch
    }

    /// The recent disputes, as (session, candidate, status) triples in
    /// ascending session-then-candidate order.
    pub fn recent_disputes(&self) -> (r: Vec<(u32, u64, DisputeStatus)>)
        requires
            self.wf(),
        ensures
            r@.len() == self.spec_recent_disputes().entries().len(),
            forall|i: int|
                0 <= i < r@.len() ==> (#[trigger] r@[i]) == (
                    (self.spec_recent_disputes().entries()[i].0 / 0x1_0000_0000_0000_0000) as u32,
                    self.spec_recent_disputes().entries()[i].0 as u64,
                    self.spec_recent_disputes().entries()[i].1,
                ),
    {
        let n = self.recent_disputes.len();
        let mut out: Vec<(u32, u64, DisputeStatus)> = Vec::new();
        let mut i: usize = 0;
        while i < n
            invariant
                i <= n,
                self.wf(),
                n == self.spec_recent_disputes().entries().len(),
                out@.len() == i,
                forall|j: int|
                    0 <= j < i ==> (#[trigger] out@[j]) == (
                        (self.spec_recent_disputes().entries()[j].0
                            / 0x1_0000_0000_0000_0000) as u32,
                        self.spec_recent_disputes().entries()[j].0 as u64,
                        self.spec_recent_disputes().entries()[j].1,
                    ),
            decreases n - i,
        {
            let k = self.recent_disputes.key_at(i);
            let status = *self.recent_disputes.val_at(i);
            out.push((((k / 0x1_0000_0000_0000_0000) as u32), (k as u64), status));
            i = i + 1;
        }
        out
    }

    /// The recent disputes that are still active at `now`: concluded
    /// disputes fall out of the set once they concluded long enough ago.
    pub fn active_disputes(&self, now: u64) -> (r: Vec<(u32, u64, DisputeStatus)>)
        requires
            self.wf(),
        ensures
            r@ == spec_active_triples(self.spec_recent_disputes().entries(), now),
    {
        let ghost all = self.spec_recent_disputes().entries();
        let n = self.recent_disputes.len();
        let mut out: Vec<(u32, u64, DisputeStatus)> = Vec::new();
        let mut i: usize = 0;
        proof {
            assert(all.skip(0) =~= all);
        }
        while i < n
            invariant
                i <= n,
                self.wf(),
                n == all.len(),
                all == self.spec_recent_disputes().entries(),
                spec_active_triples(all, now) == out@ + spec_active_triples(
                    all.skip(i as int),
                    now,
                ),
            decreases n - i,
        {
            proof {
                assert(all.skip(i as int).drop_first() =~= all.skip(i + 1int));
                assert(all.skip(i as int)[0] == all[i as int]);
            }
            let ghost out_before = out@;
            let k = self.recent_disputes.key_at(i);
            let status = *self.recent_disputes.val_at(i);
            if !status.is_inactive(now) {
                out.push((((k / 0x1_0000_0000_0000_0000) as u32), (k as u64), status));
                proof {
                    assert(spec_active_triples(all.skip(i as int), now) == seq![
                        out@[out@.len() - 1],
                    ] + spec_active_triples(all.skip(i + 1int), now));
                    assert(out_before + spec_active_triples(all.skip(i as int), now) =~= out@
                        + spec_active_triples(all.skip(i + 1int), now));
                }
            } else {
                proof {
                    assert(spec_active_triples(all.skip(i as int), now) == spec_active_triples(
                        all.skip(i + 1int),
                        now,
                    ));
                }
            }
            i = i + 1;
        }
        proof {
            assert(all.skip(n as int) =~= Seq::<(u128, DisputeStatus)>::empty());
            assert(out@ =~= spec_active_triples(all, now));
        }
        out
    }

    /// The stored votes for a candidate, if any.
    pub fn query_candidate_votes(&self, session: u32, candidate_hash: u64) -> (r: Option<
        &CandidateVotes,
    >)
        requires
            self.wf(),
        ensures
            match r {
                Some(v) => self.spec_candidate_votes().spec_get(
                    spec_session_candidate_key(session, candidate_hash),
                ) == Some(*v),
                None => self.spec_candidate_votes().spec_get(
                    spec_session_candidate_key(session, candidate_hash),
                ) is None,
            },
    {
        self.candidate_votes.get(session_candidate_key(session, candidate_hash))
    }

    /// The best undisputed block of a chain: walks `block_descriptions`
    /// from the base and stops before the first block that contains a
    /// candidate with an active, possibly-invalid dispute.
    pub fn determine_undisputed_chain(
        &self,
        base_number: u32,
        base_hash: u64,
        block_descriptions: Vec<BlockDescription>,
    ) -> (r: (u32, u64))
        requires
            self.wf(),
            base_number + block_descriptions@.len() <= u32::MAX,
        ensures
            (forall|i: int|
                0 <= i < block_descriptions@.len() ==> !self.spec_block_possibly_invalid(
                    #[trigger] block_descriptions@[i],
                )) ==> r == (if block_descriptions@.len() == 0 {
                (base_number, base_hash)
            } else {
                (
                    (base_number + block_descriptions@.len()) as u32,
                    block_descriptions@[block_descriptions@.len() - 1].block_hash,
                )
            }),
            (exists|i: int|
                0 <= i < block_descriptions@.len() && self.spec_block_possibly_invalid(
                    #[trigger] block_descriptions@[i],
                )) ==> exists|i: int|
                {
                    &&& 0 <= i < block_descriptions@.len()
                    &&& self.spec_block_possibly_invalid(#[trigger] block_descriptions@[i])
                    &&& forall|j: int|
                        0 <= j < i ==> !self.spec_block_possibly_invalid(
                            #[trigger] block_descriptions@[j],
                        )
                    &&& r == (if i == 0 {
                        (base_number, base_hash)
                    } else {
                        ((base_number + i) as u32, block_descriptions@[i - 1].block_hash)
                    })
                },
    {
        let n = block_descriptions.len();
        let last: (u32, u64) = if n == 0 {
            (base_number, base_hash)
        } else {
            (base_number + n as u32, block_descriptions[n - 1].block_hash)
        };
        let mut i: usize = 0;
        while i < n
            invariant
                i <= n,
                self.wf(),
                n == block_descriptions@.len(),
                base_number + n <= u32::MAX,
                forall|j: int|
                    0 <= j < i ==> !self.spec_block_possibly_invalid(
                        #[trigger] block_descriptions@[j],
                    ),
            decreases n - i,
        {
            if self.block_possibly_invalid(&block_descriptions[i]) {
                proof {
                    assert(self.spec_block_possibly_invalid(block_descriptions@[i as int]));
                }
                if i == 0 {
                    return (base_number, base_hash);
                } else {
                    return (base_number + i as u32, block_descriptions[i - 1].block_hash);
                }
            }
            i = i + 1;
        }
        last
    }

    /// Whether a block holds a candidate with an active, possibly
    /// invalid dispute.
    pub open spec fn spec_block_possibly_invalid(&self, bd: BlockDescription) -> bool {
        exists|j: int|
            0 <= j < bd.candidates@.len() && (
            match self.spec_recent_disputes().spec_get(
                spec_session_candidate_key(bd.session, #[trigger] bd.candidates@[j]),
            ) {
                Some(status) => status.spec_is_possibly_invalid(),
                None => false,
            })
    }

    /// Exec form of `spec_block_possibly_invalid`.
    fn block_possibly_invalid(&self, bd: &BlockDescription) -> (r: bool)
        requires
            self.wf(),
        ensures
            r == self.spec_block_possibly_invalid(*bd),
    {
        let n = bd.candidates.len();
        let mut j: usize = 0;
        while j < n
            invariant
                j <= n,
                self.wf(),
                n == bd.candidates@.len(),
                forall|j2: int|
                    0 <= j2 < j ==> !(match self.spec_recent_disputes().spec_get(
                        spec_session_candidate_key(bd.session, #[trigger] bd.candidates@[j2]),
                    ) {
                        Some(status) => status.spec_is_possibly_invalid(),
                        None => false,
                    }),
            decreases n - j,
        {
            let possibly_invalid = match self.recent_disputes.get(
                session_candidate_key(bd.session, bd.candidates[j]),
            ) {
                Some(status) => status.is_possibly_invalid(),
                None => false,
            };
            if possibly_invalid {
                return true;
            }
            j = j + 1;
        }
        false
    }
}

/// The block hashes usable for a key-ownership proof of a pending
/// slash: the block pinned for the session first, then the blocks that
/// included the candidate, in their given order.
pub open spec fn spec_slash_proof_blocks(pinned: Option<u64>, inclusions: Seq<(u32, u64)>) -> Seq<
    u64,
> {
    (match pinned {
        Some(h) => seq![h],
        None => Seq::empty(),
    }) + inclusions.map_values(|e: (u32, u64)| e.1)
}

/// Order the blocks to try when generating key-ownership proofs for an
/// unapplied slash: the session's pinned block first, inclusion parents
/// as a fallback. An empty result means the slash cannot be processed
/// now.
pub fn slash_proof_blocks(pinned: Option<u64>, inclusions: &Vec<(u32, u64)>) -> (r: Vec<u64>)
    ensures
        r@ == spec_slash_proof_blocks(pinned, inclusions@),
{
    let mut out: Vec<u64> = Vec::new();
    match pinned {
        Some(h) => out.push(h),
        None => {},
    }
    let ghost base = out@;
    let n = inclusions.len();
    let mut i: usize = 0;
    while i < n
        invariant
            i <= n,
            n == inclusions@.len(),
            out@ == base + inclusions@.take(i as int).map_values(|e: (u32, u64)| e.1),
        decreases n - i,
    {
        out.push(inclusions[i].1);
        proof {
            assert(inclusions@.take(i + 1int).map_values(|e: (u32, u64)| e.1) =~= inclusions@.take(
                i as int,
            ).map_values(|e: (u32, u64)| e.1).push(inclusions@[i as int].1));
            assert(out@ =~= base + inclusions@.take(i + 1int).map_values(
                |e: (u32, u64)| e.1,
            ));
        }
        i = i + 1;
    }
    proof {
        assert(inclusions@.take(n as int) =~= inclusions@);
        assert(out@ =~= spec_slash_proof_blocks(pinned, inclusions@));
    }
    out
}

/// The entries of the recent-disputes index that are still active at
/// `now`, as (session, candidate, status) triples in index order.
pub open spec fn spec_active_triples(entries: Seq<(u128, DisputeStatus)>, now: u64) -> Seq<
    (u32, u64, DisputeStatus),
>
    decreases entries.len(),
{
    if entries.len() == 0 {
        Seq::empty()
    } else {
        let head: Seq<(u32, u64, DisputeStatus)> = if entries[0].1.spec_is_inactive(now) {
            Seq::empty()
        } else {
            seq![
                (
                    (entries[0].0 / 0x1_0000_0000_0000_0000) as u32,
                    entries[0].0 as u64,
                    entries[0].1,
                ),
            ]
        };
        head + spec_active_triples(entries.drop_first(), now)
    }
}

/// The invalid voters of a ledger, as validator indices in key order.
pub open spec fn invalid_voters_of(votes: &CandidateVotes) -> Seq<u32> {
    votes.invalid.entries().map_values(|e: (u128, (crate::votes::InvalidKind, u64))| e.0 as u32)
}

/// The valid voters of a ledger with their backer flags, in key order.
pub open spec fn valid_voters_flags_of(votes: &CandidateVotes) -> Seq<(u32, bool)> {
    votes.valid.spec_raw().entries().map_values(
        |e: (u128, (ValidKind, u64))| (e.0 as u32, e.1.0.spec_is_backing()),
    )
}

/// Whether a validator has an invalid vote in a ledger.
pub open spec fn spec_is_invalid_voter(votes: &CandidateVotes, v: u32) -> bool {
    votes.invalid.spec_get(v as u128) is Some
}

/// Whether a validator has a valid vote in a ledger.
pub open spec fn spec_is_valid_voter(votes: &CandidateVotes, v: u32) -> bool {
    votes.valid.spec_get(v) is Some
}

/// Every invalid vote comes from a validator in the environment's
/// disabled set.
pub open spec fn spec_all_invalid_disabled(
    votes: &CandidateVotes,
    env: &CandidateEnvironment,
) -> bool {
    forall|i: int|
        0 <= i < votes.invalid.entries().len() ==> env.spec_disabled().contains(
            (#[trigger] votes.invalid.entries()[i]).0 as u32,
        )
}

/// A dispute is potential spam while it is neither confirmed nor its
/// candidate known on chain, or while only disabled validators raised it.
pub open spec fn spec_is_potential_spam(
    st: &CandidateVoteState<CandidateVotes>,
    env: &CandidateEnvironment,
    is_included: bool,
    is_backed: bool,
) -> bool {
    (st.spec_is_disputed() && !is_included && !is_backed && !st.spec_is_confirmed()) || (
    !st.spec_is_confirmed() && spec_all_invalid_disabled(st.spec_votes(), env))
}

/// Whether a new vote state is potential spam: disputed but neither
/// included, backed nor confirmed; or unconfirmed with all invalid
/// votes from disabled validators.
pub fn is_potential_spam(
    st: &CandidateVoteState<CandidateVotes>,
    env: &CandidateEnvironment,
    is_included: bool,
    is_backed: bool,
) -> (r: bool)
    requires
        st.spec_votes().wf(),
    ensures
        r == spec_is_potential_spam(st, env, is_included, is_backed),
{
    let is_disputed = st.is_disputed();
    let is_confirmed = st.is_confirmed();
    let all_invalid_votes_disabled = st.invalid_votes_all_disabled(env.disabled_indices());
    let ignore_disabled = !is_confirmed && all_invalid_votes_disabled;
    (is_disputed && !is_included && !is_backed && !is_confirmed) || ignore_disabled
}

/// A dispute entry is unactivated when it sits in the given session, is
/// not confirmed or concluded, and every one of its (at least one)
/// invalid voters is off-chain disabled.
pub open spec fn spec_should_unactivate(
    votes_store: &VecMap<CandidateVotes>,
    disabled: &OffchainDisabledValidators,
    session: u32,
    k: u128,
    status: DisputeStatus,
) -> bool {
    &&& spec_session_candidate_key(session, 0) <= k
    &&& k <= spec_session_candidate_key(session, u64::MAX)
    &&& !status.spec_is_confirmed_concluded()
    &&& match votes_store.spec_get(k) {
        Some(v) => v.invalid.entries().len() > 0 && forall|i: int|
            0 <= i < v.invalid.entries().len() ==> disabled.spec_is_disabled(
                session,
                (#[trigger] v.invalid.entries()[i]).0 as u32,
            ),
        None => false,
    }
}

/// Membership in a sequence with one key appended.
proof fn lemma_push_membership(s: Seq<u32>, v: u32, v2: u32)
    requires
        v2 != v,
    ensures
        s.push(v).contains(v2) == s.contains(v2),
{
    if s.contains(v2) {
        let j = choose|j: int| 0 <= j < s.len() && (#[trigger] s[j]) == v2;
        assert(s.push(v)[j] == v2);
    }
    if s.push(v).contains(v2) {
        let j = choose|j: int| 0 <= j < s.push(v).len() && (#[trigger] s.push(v)[j]) == v2;
        assert(j < s.len());
        assert(s[j] == v2);
    }
}

/// What `finish_import` asks the embedding to do.
pub struct ImportOutcome {
    /// Whether the import was accepted.
    pub result: ImportStatementsResult,
    /// `Some(high_priority)` when dispute participation should be queued.
    pub participation: Option<bool>,
    /// Own approval votes to re-broadcast as dispute statements, as
    /// (validator index, signature) pairs.
    pub rebroadcast_own_approval: Vec<(u32, u64)>,
    /// Whether the blocks including this candidate must be reverted.
    pub request_revert: bool,
    /// Validators disabled for voting against a candidate found valid.
    pub newly_disabled_against_valid: Vec<u32>,
    /// Validators disabled for voting for a candidate found invalid,
    /// with their backer flags.
    pub newly_disabled_for_invalid: Vec<(u32, bool)>,
}

impl Coordinator {
    /// Load the vote state a new import starts from: the stored votes
    /// of the candidate, or an empty state seeded from the receipt.
    /// Rejects imports for ancient sessions and imports for which
    /// neither stored votes nor a receipt exist.
    pub fn load_vote_state(
        &self,
        env: &CandidateEnvironment,
        candidate_receipt: &MaybeCandidateReceipt,
        session: u32,
        now: u64,
    ) -> (r: Result<CandidateVoteState<CandidateVotes>, ImportStatementsResult>)
        requires
            self.wf(),
        ensures
            ({
                let key = spec_session_candidate_key(session, candidate_receipt.spec_hash());
                match r {
                    Result::Err(e) => e == ImportStatementsResult::InvalidImport && (session
                        < spec_window_floor(self.spec_highest_session()) || (
                    self.spec_candidate_votes().spec_get(key) is None
                        && candidate_receipt is AssumeBackingVotePresent)),
                    Result::Ok(st) => {
                        &&& session >= spec_window_floor(self.spec_highest_session())
                        &&& st.spec_votes().wf()
                        &&& match self.spec_candidate_votes().spec_get(key) {
                            Some(v) => crate::votes::votes_equivalent(st.spec_votes(), &v)
                                && state_derived(&st, env, now),
                            None => {
                                &&& candidate_receipt matches MaybeCandidateReceipt::Provides(rec)
                                    && st.spec_votes().candidate_receipt == rec
                                &&& st.spec_votes().valid.spec_raw().entries().len() == 0
                                &&& st.spec_votes().invalid.entries().len() == 0
                                &&& st.spec_own_vote() is CannotVote
                                &&& st.spec_dispute_status() is None
                                &&& !st.spec_byzantine_threshold_against()
                            },
                        }
                    },
                }
            }),
    {
        if self.session_is_ancient(session) {
            return Err(ImportStatementsResult::InvalidImport);
        }
        let candidate_hash = candidate_receipt.hash();
        match self.candidate_votes.get(session_candidate_key(session, candidate_hash)) {
            Some(stored) => {
                proof {
                    assert(self.candidate_votes.spec_get(
                        spec_session_candidate_key(session, candidate_receipt.spec_hash()),
                    ) == Some(*stored));
                    assert(stored.wf());
                }
                let votes = stored.duplicate();
                proof {
                    assert forall|k2: u128| votes.valid.spec_raw().has_key(k2) implies k2
                        < 0x1_0000_0000 by {
                        assert(stored.valid.spec_raw().has_key(k2));
                    }
                    assert forall|k2: u128| votes.invalid.has_key(k2) implies k2
                        < 0x1_0000_0000 by {
                        assert(stored.invalid.has_key(k2));
                    }
                    assert(votes.wf());
                }
                Ok(CandidateVoteState::new(votes, env, now))
            },
            None => match candidate_receipt {
                MaybeCandidateReceipt::Provides(receipt) => Ok(
                    CandidateVoteState::new_from_receipt(*receipt),
                ),
                MaybeCandidateReceipt::AssumeBackingVotePresent(_) => Err(
                    ImportStatementsResult::InvalidImport,
                ),
            },
        }
    }

    /// Unactivate the unconfirmed disputes of a session whose raising
    /// parties (invalid voters) are all off-chain disabled by now.
    pub fn revisit_active_disputes_after_disabling(&mut self, session: u32)
        requires
            old(self).wf(),
        ensures
            final(self).wf(),
            final(self).spec_highest_session() == old(self).spec_highest_session(),
            final(self).spec_gaps_in_cache() == old(self).spec_gaps_in_cache(),
            final(self).spec_spam_slots() == old(self).spec_spam_slots(),
            final(self).spec_offchain_disabled() == old(self).spec_offchain_disabled(),
            final(self).spec_candidate_votes() == old(self).spec_candidate_votes(),
            final(self).spec_backlog() == old(self).spec_backlog(),
            forall|k: u128|
                final(self).spec_recent_disputes().spec_get(k) == (
                match old(self).spec_recent_disputes().spec_get(k) {
                    Some(st) => if spec_should_unactivate(
                        old(self).spec_candidate_votes(),
                        old(self).spec_offchain_disabled(),
                        session,
                        k,
                        st,
                    ) {
                        Option::<DisputeStatus>::None
                    } else {
                        Some(st)
                    },
                    None => Option::<DisputeStatus>::None,
                }),
    {
        let lo = session_candidate_key(session, 0);
        let hi = session_candidate_key(session, u64::MAX);
        let n = self.recent_disputes.len();
        let mut to_remove: Vec<u128> = Vec::new();
        let mut i: usize = 0;
        while i < n
            invariant
                i <= n,
                self.wf(),
                n == self.spec_recent_disputes().entries().len(),
                lo == spec_session_candidate_key(session, 0),
                hi == spec_session_candidate_key(session, u64::MAX),
                forall|j: int|
                    0 <= j < to_remove@.len() ==> old(self).spec_recent_disputes().has_key(
                        #[trigger] to_remove@[j],
                    ) && spec_should_unactivate(
                        old(self).spec_candidate_votes(),
                        old(self).spec_offchain_disabled(),
                        session,
                        to_remove@[j],
                        old(self).spec_recent_disputes().spec_get(to_remove@[j])->Some_0,
                    ),
                forall|j: int|
                    0 <= j < i ==> (to_remove@.contains(
                        (#[trigger] old(self).spec_recent_disputes().entries()[j]).0,
                    ) <==> spec_should_unactivate(
                        old(self).spec_candidate_votes(),
                        old(self).spec_offchain_disabled(),
                        session,
                        old(self).spec_recent_disputes().entries()[j].0,
                        old(self).spec_recent_disputes().entries()[j].1,
                    )),
                *self == *old(self),
            decreases n - i,
        {
            let ghost to_remove_before = to_remove@;
            let k = self.recent_disputes.key_at(i);
            let status = *self.recent_disputes.val_at(i);
            proof {
                lemma_find_at(self.recent_disputes.entries(), i as int);
            }
            let mut unactivate = false;
            if lo <= k && k <= hi && !status.is_confirmed_concluded() {
                match self.candidate_votes.get(k) {
                    Some(votes) => {
                        if votes.invalid.len() > 0 {
                            unactivate = self.all_invalid_offchain_disabled(votes, session);
                        }
                    },
                    None => {},
                }
            }
            proof {
                assert(unactivate == spec_should_unactivate(
                    old(self).spec_candidate_votes(),
                    old(self).spec_offchain_disabled(),
                    session,
                    k,
                    status,
                ));
            }
            if unactivate {
                to_remove.push(k);
            }
            proof {
                assert forall|j: int|
                    0 <= j < i + 1 implies (to_remove@.contains(
                    (#[trigger] old(self).spec_recent_disputes().entries()[j]).0,
                ) <==> spec_should_unactivate(
                    old(self).spec_candidate_votes(),
                    old(self).spec_offchain_disabled(),
                    session,
                    old(self).spec_recent_disputes().entries()[j].0,
                    old(self).spec_recent_disputes().entries()[j].1,
                )) by {
                    let kj = old(self).spec_recent_disputes().entries()[j].0;
                    if j < i {
                        if to_remove@.contains(kj) {
                            let x = choose|x: int|
                                0 <= x < to_remove@.len() && (#[trigger] to_remove@[x]) == kj;
                            if x == to_remove@.len() - 1 && unactivate {
                                assert(kj == k);
                                assert(old(self).spec_recent_disputes().entries()[j].0 < old(
                                    self,
                                ).spec_recent_disputes().entries()[i as int].0);
                            } else {
                                if unactivate {
                                    assert(to_remove@ == to_remove_before.push(k));
                                    assert(x < to_remove_before.len());
                                    assert(to_remove_before[x] == to_remove@[x]);
                                } else {
                                    assert(to_remove@ == to_remove_before);
                                }
                                assert(to_remove_before[x] == kj);
                                assert(to_remove_before.contains(kj));
                            }
                        } else {
                            assert(!to_remove_before.contains(kj)) by {
                                if to_remove_before.contains(kj) {
                                    let y = choose|y: int|
                                        0 <= y < to_remove_before.len() && (
                                        #[trigger] to_remove_before[y]) == kj;
                                    assert(to_remove@[y] == kj);
                                    assert(to_remove@.contains(kj));
                                }
                            }
                        }
                    } else {
                        assert(kj == k);
                        if unactivate {
                            assert(to_remove@[to_remove@.len() - 1] == k);
                            assert(to_remove@.contains(k));
                        } else {
                            if to_remove@.contains(k) {
                                let x = choose|x: int|
                                    0 <= x < to_remove@.len() && (#[trigger] to_remove@[x]) == k;
                                assert(old(self).spec_recent_disputes().has_key(k));
                                assert(spec_should_unactivate(
                                    old(self).spec_candidate_votes(),
                                    old(self).spec_offchain_disabled(),
                                    session,
                                    k,
                                    old(self).spec_recent_disputes().spec_get(k)->Some_0,
                                ));
                            }
                        }
                    }
                }
            }
            i = i + 1;
        }
        let m = to_remove.len();
        let mut x: usize = 0;
        while x < m
            invariant
                x <= m,
                m == to_remove@.len(),
                self.recent_disputes.wf(),
                self.spam_slots == old(self).spam_slots,
                self.offchain_disabled_validators == old(self).offchain_disabled_validators,
                self.candidate_votes == old(self).candidate_votes,
                self.chain_import_backlog == old(self).chain_import_backlog,
                self.highest_session_seen == old(self).highest_session_seen,
                self.gaps_in_cache == old(self).gaps_in_cache,
                forall|j: int|
                    0 <= j < to_remove@.len() ==> old(self).spec_recent_disputes().has_key(
                        #[trigger] to_remove@[j],
                    ) && spec_should_unactivate(
                        old(self).spec_candidate_votes(),
                        old(self).spec_offchain_disabled(),
                        session,
                        to_remove@[j],
                        old(self).spec_recent_disputes().spec_get(to_remove@[j])->Some_0,
                    ),
                forall|j: int|
                    0 <= j < old(self).spec_recent_disputes().entries().len() ==> (
                    to_remove@.contains(
                        (#[trigger] old(self).spec_recent_disputes().entries()[j]).0,
                    ) <==> spec_should_unactivate(
                        old(self).spec_candidate_votes(),
                        old(self).spec_offchain_disabled(),
                        session,
                        old(self).spec_recent_disputes().entries()[j].0,
                        old(self).spec_recent_disputes().entries()[j].1,
                    )),
                forall|k2: u128|
                    self.spec_recent_disputes().spec_get(k2) == (if to_remove@.take(
                        x as int,
                    ).contains(k2) {
                        Option::<DisputeStatus>::None
                    } else {
                        old(self).spec_recent_disputes().spec_get(k2)
                    }),
            decreases m - x,
        {
            let k = to_remove[x];
            let ghost pre_rd = self.recent_disputes;
            proof {
                assert forall|k2: u128|
                    pre_rd.spec_get(k2) == (if to_remove@.take(x as int).contains(k2) {
                        Option::<DisputeStatus>::None
                    } else {
                        old(self).spec_recent_disputes().spec_get(k2)
                    }) by {
                    assert(self.spec_recent_disputes().spec_get(k2) == (if to_remove@.take(
                        x as int,
                    ).contains(k2) {
                        Option::<DisputeStatus>::None
                    } else {
                        old(self).spec_recent_disputes().spec_get(k2)
                    }));
                }
            }
            self.recent_disputes.remove(k);
            proof {
                assert forall|k2: u128|
                    self.spec_recent_disputes().spec_get(k2) == (if to_remove@.take(
                        x + 1int,
                    ).contains(k2) {
                        Option::<DisputeStatus>::None
                    } else {
                        old(self).spec_recent_disputes().spec_get(k2)
                    }) by {
                    assert(to_remove@.take(x + 1int).drop_last() =~= to_remove@.take(x as int));
                    assert(to_remove@.take(x + 1int)[x as int] == k);
                    if to_remove@.take(x + 1int).contains(k2) {
                        let y = choose|y: int|
                            0 <= y < x + 1 && (#[trigger] to_remove@.take(x + 1int)[y]) == k2;
                        if y < x {
                            assert(to_remove@.take(x as int)[y] == k2);
                            assert(to_remove@.take(x as int).contains(k2));
                            assert(pre_rd.spec_get(k2) is None);
                            if k2 != k {
                                assert(self.recent_disputes.spec_get(k2) == pre_rd.spec_get(k2));
                            }
                        } else {
                            assert(k2 == k);
                            assert(self.recent_disputes.spec_get(k2) is None);
                        }
                    } else {
                        assert(!to_remove@.take(x as int).contains(k2)) by {
                            if to_remove@.take(x as int).contains(k2) {
                                let y = choose|y: int|
                                    0 <= y < x && (#[trigger] to_remove@.take(x as int)[y]) == k2;
                                assert(to_remove@.take(x + 1int)[y] == k2);
                            }
                        }
                        assert(k2 != k);
                        assert(self.recent_disputes.spec_get(k2) == pre_rd.spec_get(k2));
                        assert(pre_rd.spec_get(k2) == old(self).spec_recent_disputes().spec_get(
                            k2,
                        ));
                    }
                }
            }
            x = x + 1;
        }
        proof {
            assert(to_remove@.take(m as int) =~= to_remove@);
            assert forall|k2: u128|
                self.spec_recent_disputes().spec_get(k2) == (
                match old(self).spec_recent_disputes().spec_get(k2) {
                    Some(st) => if spec_should_unactivate(
                        old(self).spec_candidate_votes(),
                        old(self).spec_offchain_disabled(),
                        session,
                        k2,
                        st,
                    ) {
                        Option::<DisputeStatus>::None
                    } else {
                        Some(st)
                    },
                    None => Option::<DisputeStatus>::None,
                }) by {
                if old(self).spec_recent_disputes().spec_get(k2) is Some {
                    crate::keymap::lemma_find_contains(
                        old(self).spec_recent_disputes().entries(),
                        k2,
                    );
                    let j = choose|j: int|
                        0 <= j < old(self).spec_recent_disputes().entries().len() && (
                        #[trigger] crate::keymap::seq_keys(
                            old(self).spec_recent_disputes().entries(),
                        )[j]) == k2;
                    assert(old(self).spec_recent_disputes().entries()[j].0 == k2);
                    lemma_find_at(old(self).spec_recent_disputes().entries(), j);
                    assert(old(self).spec_recent_disputes().entries()[j].1 == old(
                        self,
                    ).spec_recent_disputes().spec_get(k2)->Some_0);
                } else {
                    if to_remove@.contains(k2) {
                        let y = choose|y: int|
                            0 <= y < to_remove@.len() && (#[trigger] to_remove@[y]) == k2;
                    }
                }
            }
        }
    }

    /// Whether every invalid voter of a ledger is off-chain disabled in
    /// a session.
    fn all_invalid_offchain_disabled(&self, votes: &CandidateVotes, session: u32) -> (r: bool)
        requires
            self.wf(),
            votes.wf(),
        ensures
            r == forall|i: int|
                0 <= i < votes.invalid.entries().len()
                    ==> self.spec_offchain_disabled().spec_is_disabled(
                    session,
                    (#[trigger] votes.invalid.entries()[i]).0 as u32,
                ),
    {
        let n = votes.invalid.len();
        let mut i: usize = 0;
        while i < n
            invariant
                i <= n,
                self.wf(),
                votes.wf(),
                n == votes.invalid.entries().len(),
                forall|j: int|
                    0 <= j < i ==> self.spec_offchain_disabled().spec_is_disabled(
                        session,
                        (#[trigger] votes.invalid.entries()[j]).0 as u32,
                    ),
            decreases n - i,
        {
            let k = votes.invalid.key_at(i);
            proof {
                lemma_find_at(votes.invalid.entries(), i as int);
            }
            if !self.offchain_disabled_validators.is_disabled(session, k as u32) {
                return false;
            }
            i = i + 1;
        }
        true
    }
}

impl Coordinator {
    /// Apply a finished import: spam admission, the participation
    /// decision, the recent-disputes index, chain reversion, off-chain
    /// disabling with the revisit pass, and the vote-ledger update.
    ///
    /// `is_included` and `is_backed` are the chain scraper's view of
    /// the candidate; approval votes, if the result asked for them,
    /// were merged into `import` beforehand.
    pub fn finish_import(
        &mut self,
        env: &CandidateEnvironment,
        session: u32,
        import: ImportResult,
        is_included: bool,
        is_backed: bool,
    ) -> (r: ImportOutcome)
        requires
            old(self).wf(),
            import.spec_new_state().spec_votes().wf(),
            import.spec_new_invalid_voters()@.no_duplicates(),
        ensures
            final(self).wf(),
            ({
                let new_state = import.spec_new_state();
                let hash = new_state.spec_votes().candidate_receipt.candidate_hash;
                let key = spec_session_candidate_key(session, hash);
                let potential_spam = spec_is_potential_spam(new_state, env, is_included, is_backed);
                let voters = import.spec_new_invalid_voters()@;
                let rejected = potential_spam && voters.len() > 0 && (forall|j: int|
                    0 <= j < voters.len() ==> old(self).spec_spam_slots().spec_count(
                        session,
                        #[trigger] voters[j],
                    ) >= crate::spam_slots::MAX_SPAM_VOTES);
                &&& r.result == (if rejected {
                    ImportStatementsResult::InvalidImport
                } else {
                    ImportStatementsResult::ValidImport
                })
                &&& (rejected ==> *final(self) == *old(self))
                &&& (rejected ==> r.participation is None && r.rebroadcast_own_approval@.len() == 0
                    && !r.request_revert && r.newly_disabled_against_valid@.len() == 0
                    && r.newly_disabled_for_invalid@.len() == 0)
                &&& (!rejected ==> {
                    &&& r.participation == (if spec_vote_missing(new_state.spec_own_vote())
                        && new_state.spec_is_disputed() && !potential_spam {
                        Some(is_included)
                    } else {
                        Option::<bool>::None
                    })
                    &&& r.request_revert == import.spec_has_fresh_byzantine_threshold_against()
                    &&& r.rebroadcast_own_approval@ == (if import.spec_is_freshly_disputed()
                        && new_state.spec_own_vote() is Voted {
                        approval_votes_of(new_state.spec_own_vote()->Voted_0@)
                    } else {
                        Seq::<(u32, u64)>::empty()
                    })
                    &&& r.newly_disabled_against_valid@ == (
                    if import.spec_is_freshly_concluded_for() {
                        invalid_voters_of(new_state.spec_votes())
                    } else {
                        Seq::<u32>::empty()
                    })
                    &&& r.newly_disabled_for_invalid@ == (
                    if import.spec_is_freshly_concluded_against() {
                        valid_voters_flags_of(new_state.spec_votes())
                    } else {
                        Seq::<(u32, bool)>::empty()
                    })
                    &&& (!potential_spam ==> final(self).spec_spam_slots().spec_tracked(
                        session,
                        hash,
                    ).len() == 0)
                    &&& (!potential_spam ==> forall|v2: u32|
                        final(self).spec_spam_slots().spec_count(session, v2)
                            == (if old(self).spec_spam_slots().spec_tracked(
                            session,
                            hash,
                        ).contains(v2) {
                            if old(self).spec_spam_slots().spec_count(session, v2) >= 1 {
                                (old(self).spec_spam_slots().spec_count(session, v2) - 1) as nat
                            } else {
                                0nat
                            }
                        } else {
                            old(self).spec_spam_slots().spec_count(session, v2)
                        }))
                    &&& (potential_spam ==> forall|v2: u32|
                        !voters.contains(v2) ==> final(self).spec_spam_slots().spec_count(
                            session,
                            v2,
                        ) == old(self).spec_spam_slots().spec_count(session, v2))
                    &&& (forall|s2: u32, v2: u32|
                        s2 != session ==> final(self).spec_spam_slots().spec_count(s2, v2)
                            == old(self).spec_spam_slots().spec_count(s2, v2))
                    &&& (forall|s2: u32, c2: u64|
                        !(s2 == session && c2 == hash) ==> final(self).spec_spam_slots(
                        ).spec_tracked(s2, c2) == old(self).spec_spam_slots().spec_tracked(
                            s2,
                            c2,
                        ))
                    &&& (potential_spam ==> forall|j: int|
                        0 <= j < voters.len() ==> final(self).spec_spam_slots().spec_count(
                            session,
                            #[trigger] voters[j],
                        ) == (if old(self).spec_spam_slots().spec_count(session, voters[j])
                            < crate::spam_slots::MAX_SPAM_VOTES {
                            old(self).spec_spam_slots().spec_count(session, voters[j]) + (if old(
                                self,
                            ).spec_spam_slots().spec_tracked(session, hash).contains(voters[j]) {
                                0nat
                            } else {
                                1nat
                            })
                        } else {
                            old(self).spec_spam_slots().spec_count(session, voters[j])
                        }))
                    &&& (import.spec_is_freshly_concluded_for() ==> forall|j: int|
                        0 <= j < new_state.spec_votes().invalid.entries().len() ==> final(self).spec_offchain_disabled().spec_against_valid(session).contains(
                            (#[trigger] new_state.spec_votes().invalid.entries()[j]).0 as u32,
                        ))
                    &&& (import.spec_is_freshly_concluded_against() ==> forall|j: int|
                        0 <= j < new_state.spec_votes().valid.spec_raw().entries().len() ==> (
                        if (#[trigger] new_state.spec_votes().valid.spec_raw().entries()[j]).1.0.spec_is_backing() {
                            final(self).spec_offchain_disabled().spec_backers(session).contains(
                                new_state.spec_votes().valid.spec_raw().entries()[j].0 as u32,
                            )
                        } else {
                            final(self).spec_offchain_disabled().spec_for_invalid(
                                session,
                            ).contains(
                                new_state.spec_votes().valid.spec_raw().entries()[j].0 as u32,
                            )
                        }))
                    &&& (!(import.spec_is_freshly_concluded_for()
                        || import.spec_is_freshly_concluded_against())
                        ==> final(self).spec_offchain_disabled()
                        == old(self).spec_offchain_disabled())
                    &&& (forall|s2: u32|
                        s2 != session ==> final(self).spec_offchain_disabled().spec_backers(s2)
                            == old(self).spec_offchain_disabled().spec_backers(s2)
                            && final(self).spec_offchain_disabled().spec_for_invalid(s2)
                            == old(self).spec_offchain_disabled().spec_for_invalid(s2)
                            && final(self).spec_offchain_disabled().spec_against_valid(s2)
                            == old(self).spec_offchain_disabled().spec_against_valid(s2))
                    &&& (forall|v2: u32|
                        (!(import.spec_is_freshly_concluded_for() && spec_is_invalid_voter(
                            new_state.spec_votes(),
                            v2,
                        )) && !(import.spec_is_freshly_concluded_against() && spec_is_valid_voter(
                            new_state.spec_votes(),
                            v2,
                        ))) ==> final(self).spec_offchain_disabled().spec_is_disabled(session, v2)
                            == old(self).spec_offchain_disabled().spec_is_disabled(session, v2))
                    &&& (forall|k2: u128|
                        k2 != key ==> final(self).spec_candidate_votes().spec_get(k2) == old(
                            self,
                        ).spec_candidate_votes().spec_get(k2))
                    &&& ((import.spec_imported_valid_votes() != 0
                        || import.spec_imported_invalid_votes() != 0)
                        ==> (final(self).spec_candidate_votes().spec_get(key) matches Some(v)
                            && crate::votes::votes_equivalent(&v, new_state.spec_votes())))
                    &&& ((import.spec_imported_valid_votes() == 0
                        && import.spec_imported_invalid_votes() == 0)
                        ==> final(self).spec_candidate_votes().spec_get(key)
                        == old(self).spec_candidate_votes().spec_get(key))
                    &&& (forall|k2: u128|
                        final(self).spec_recent_disputes().spec_get(k2) == ({
                            let changed = import.spec_is_freshly_disputed()
                                || import.spec_is_freshly_confirmed()
                                || import.spec_is_freshly_concluded_for()
                                || import.spec_is_freshly_concluded_against();
                            let base = if k2 == key && changed
                                && new_state.spec_dispute_status() is Some {
                                new_state.spec_dispute_status()
                            } else {
                                old(self).spec_recent_disputes().spec_get(k2)
                            };
                            let concluded = import.spec_is_freshly_concluded_for()
                                || import.spec_is_freshly_concluded_against();
                            match base {
                                Some(st) => if concluded && spec_should_unactivate(
                                    old(self).spec_candidate_votes(),
                                    final(self).spec_offchain_disabled(),
                                    session,
                                    k2,
                                    st,
                                ) {
                                    Option::<DisputeStatus>::None
                                } else {
                                    Some(st)
                                },
                                None => Option::<DisputeStatus>::None,
                            }
                        }))
                    &&& final(self).spec_highest_session() == old(self).spec_highest_session()
                    &&& final(self).spec_gaps_in_cache() == old(self).spec_gaps_in_cache()
                    &&& final(self).spec_backlog() == old(self).spec_backlog()
                })
            }),
    {
        let candidate_hash = import.new_state().candidate_receipt().hash();
        let key = session_candidate_key(session, candidate_hash);
        let own_vote_missing = import.new_state().own_vote_missing();
        let is_disputed = import.new_state().is_disputed();
        let potential_spam = is_potential_spam(import.new_state(), env, is_included, is_backed);

        if !potential_spam {
            self.spam_slots.clear(session, candidate_hash);
        } else if import.new_invalid_voters().len() > 0 {
            let ghost voters = import.spec_new_invalid_voters()@;
            let ghost slots0 = *old(self).spec_spam_slots();
            let n_voters = import.new_invalid_voters().len();
            let mut free_spam_slots_available = false;
            let mut vi: usize = 0;
            while vi < n_voters
                invariant
                    vi <= n_voters,
                    old(self).wf(),
                    self.wf(),
                    n_voters == voters.len(),
                    import.spec_new_invalid_voters()@ == voters,
                    voters.no_duplicates(),
                    slots0 == *old(self).spec_spam_slots(),
                    self.offchain_disabled_validators == old(self).offchain_disabled_validators,
                    self.recent_disputes == old(self).recent_disputes,
                    self.candidate_votes == old(self).candidate_votes,
                    self.chain_import_backlog == old(self).chain_import_backlog,
                    self.highest_session_seen == old(self).highest_session_seen,
                    self.gaps_in_cache == old(self).gaps_in_cache,
                    free_spam_slots_available == !(forall|j: int|
                        0 <= j < vi ==> slots0.spec_count(session, #[trigger] voters[j])
                            >= crate::spam_slots::MAX_SPAM_VOTES),
                    !free_spam_slots_available ==> self.spam_slots == slots0,
                    forall|v2: u32|
                        !voters.contains(v2) ==> self.spam_slots.spec_count(session, v2)
                            == slots0.spec_count(session, v2),
                    forall|s2: u32, v2: u32|
                        s2 != session ==> self.spam_slots.spec_count(s2, v2) == slots0.spec_count(
                            s2,
                            v2,
                        ),
                    forall|s2: u32, c2: u64|
                        !(s2 == session && c2 == candidate_hash)
                            ==> self.spam_slots.spec_tracked(s2, c2) == slots0.spec_tracked(
                            s2,
                            c2,
                        ),
                    forall|j: int|
                        vi <= j < voters.len() ==> self.spam_slots.spec_count(
                            session,
                            #[trigger] voters[j],
                        ) == slots0.spec_count(session, voters[j]),
                    forall|j: int|
                        vi <= j < voters.len() ==> self.spam_slots.spec_tracked(
                            session,
                            candidate_hash,
                        ).contains(#[trigger] voters[j]) == slots0.spec_tracked(
                            session,
                            candidate_hash,
                        ).contains(voters[j]),
                    forall|j: int|
                        0 <= j < vi ==> self.spam_slots.spec_count(session, #[trigger] voters[j])
                            == (if slots0.spec_count(session, voters[j])
                            < crate::spam_slots::MAX_SPAM_VOTES {
                            slots0.spec_count(session, voters[j]) + (if slots0.spec_tracked(
                                session,
                                candidate_hash,
                            ).contains(voters[j]) {
                                0nat
                            } else {
                                1nat
                            })
                        } else {
                            slots0.spec_count(session, voters[j])
                        }),
                decreases n_voters - vi,
            {
                let index = import.new_invalid_voters()[vi];
                let ghost slots_before = self.spam_slots;
                let had_room = self.spam_slots.add_unconfirmed(session, candidate_hash, index);
                free_spam_slots_available = free_spam_slots_available || had_room;
                proof {
                    assert(voters[vi as int] == index);
                    assert(voters.contains(index));
                    assert forall|j: int| 0 <= j < voters.len() && j != vi implies (
                    #[trigger] voters[j]) != index by {}
                    assert(slots_before.spec_count(session, index) == slots0.spec_count(
                        session,
                        index,
                    ));
                    assert(slots_before.spec_tracked(session, candidate_hash).contains(index)
                        == slots0.spec_tracked(session, candidate_hash).contains(index));
                    assert(had_room == (slots0.spec_count(session, index)
                        < crate::spam_slots::MAX_SPAM_VOTES));
                    assert forall|j: int|
                        0 <= j < voters.len() && j != vi implies self.spam_slots.spec_count(
                        session,
                        #[trigger] voters[j],
                    ) == slots_before.spec_count(session, voters[j]) by {
                        assert(voters[j] != index);
                    }
                    assert forall|j: int|
                        vi + 1 <= j < voters.len() implies self.spam_slots.spec_tracked(
                        session,
                        candidate_hash,
                    ).contains(#[trigger] voters[j]) == slots_before.spec_tracked(
                        session,
                        candidate_hash,
                    ).contains(voters[j]) by {
                        assert(voters[j] != index);
                        if had_room && !slots_before.spec_tracked(
                            session,
                            candidate_hash,
                        ).contains(index) {
                            assert(self.spam_slots.spec_tracked(session, candidate_hash)
                                == slots_before.spec_tracked(session, candidate_hash).push(index));
                            lemma_push_membership(
                                slots_before.spec_tracked(session, candidate_hash),
                                index,
                                voters[j],
                            );
                        }
                    }
                }
                vi = vi + 1;
            }
            if !free_spam_slots_available {
                proof {
                    assert(*self == *old(self));
                }
                return ImportOutcome {
                    result: ImportStatementsResult::InvalidImport,
                    participation: None,
                    rebroadcast_own_approval: Vec::new(),
                    request_revert: false,
                    newly_disabled_against_valid: Vec::new(),
                    newly_disabled_for_invalid: Vec::new(),
                };
            }
        }
        let participation = if own_vote_missing && is_disputed && !potential_spam {
            Some(is_included)
        } else {
            None
        };
        let rebroadcast_own_approval: Vec<(u32, u64)> = if import.is_freshly_disputed() {
            match import.new_state().own_approval_votes() {
                Some(list) => list,
                None => Vec::new(),
            }
        } else {
            Vec::new()
        };
        let state_changed = import.dispute_state_changed();
        if state_changed {
            match import.new_state().dispute_status() {
                Some(new_status) => {
                    self.recent_disputes.insert(key, *new_status);
                },
                None => {},
            }
        }
        let ghost rd1 = self.recent_disputes;
        let ghost spam_done = self.spam_slots;
        let request_revert = import.has_fresh_byzantine_threshold_against();
        let freshly_concluded_for = import.is_freshly_concluded_for();
        let freshly_concluded_against = import.is_freshly_concluded_against();
        let mut newly_disabled_against_valid: Vec<u32> = Vec::new();
        let mut newly_disabled_for_invalid: Vec<(u32, bool)> = Vec::new();
        if freshly_concluded_for {
            let votes = import.new_state().votes();
            let n = votes.invalid.len();
            let mut i: usize = 0;
            while i < n
                invariant
                    i <= n,
                    votes.wf(),
                    votes == import.spec_new_state().spec_votes(),
                    self.spam_slots.wf(),
                    self.recent_disputes.wf(),
                    self.candidate_votes.wf(),
                    forall|k2: u128|
                        #[trigger] self.candidate_votes.spec_get(k2) matches Some(v) ==> v.wf(),
                    self.offchain_disabled_validators.wf(),
                    self.spam_slots == spam_done,
                    self.recent_disputes == rd1,
                    self.candidate_votes == old(self).candidate_votes,
                    self.chain_import_backlog == old(self).chain_import_backlog,
                    self.highest_session_seen == old(self).highest_session_seen,
                    self.gaps_in_cache == old(self).gaps_in_cache,
                    n == votes.invalid.entries().len(),
                    newly_disabled_against_valid@.len() == i,
                    forall|j: int|
                        0 <= j < i ==> (#[trigger] newly_disabled_against_valid@[j])
                            == votes.invalid.entries()[j].0 as u32,
                    forall|j2: int|
                        0 <= j2 < i ==> self.offchain_disabled_validators.spec_against_valid(
                            session,
                        ).contains((#[trigger] votes.invalid.entries()[j2]).0 as u32),
                    self.offchain_disabled_validators.spec_backers(session) == old(
                        self,
                    ).spec_offchain_disabled().spec_backers(session),
                    self.offchain_disabled_validators.spec_for_invalid(session) == old(
                        self,
                    ).spec_offchain_disabled().spec_for_invalid(session),
                    forall|s2: u32|
                        s2 != session ==> self.offchain_disabled_validators.spec_backers(s2)
                            == old(self).spec_offchain_disabled().spec_backers(s2)
                            && self.offchain_disabled_validators.spec_for_invalid(s2) == old(
                            self,
                        ).spec_offchain_disabled().spec_for_invalid(s2)
                            && self.offchain_disabled_validators.spec_against_valid(s2) == old(
                            self,
                        ).spec_offchain_disabled().spec_against_valid(s2),
                    forall|v2: u32|
                        !spec_is_invalid_voter(votes, v2)
                            ==> self.offchain_disabled_validators.spec_is_disabled(session, v2)
                            == old(self).spec_offchain_disabled().spec_is_disabled(session, v2),
                decreases n - i,
            {
                let k = votes.invalid.key_at(i);
                proof {
                    lemma_find_at(votes.invalid.entries(), i as int);
                    assert(votes.invalid.has_key(k));
                    assert(k < 0x1_0000_0000);
                }
                let validator_index = k as u32;
                let ghost before_off = self.offchain_disabled_validators;
                self.offchain_disabled_validators.insert_against_valid(session, validator_index);
                newly_disabled_against_valid.push(validator_index);
                proof {
                    assert(spec_is_invalid_voter(votes, validator_index));
                    assert forall|j2: int|
                        0 <= j2 < i + 1 implies self.offchain_disabled_validators.spec_against_valid(
                        session,
                    ).contains((#[trigger] votes.invalid.entries()[j2]).0 as u32) by {
                        if j2 < i {
                            assert(before_off.spec_against_valid(session).contains(
                                votes.invalid.entries()[j2].0 as u32,
                            ));
                        } else {
                            assert(votes.invalid.entries()[j2].0 == k);
                        }
                    }
                    assert forall|v2: u32|
                        !spec_is_invalid_voter(votes, v2) implies
                        self.offchain_disabled_validators.spec_is_disabled(session, v2) == old(
                        self,
                    ).spec_offchain_disabled().spec_is_disabled(session, v2) by {
                        assert(v2 != validator_index);
                    }
                }
                i = i + 1;
            }
            proof {
                assert(newly_disabled_against_valid@ =~= invalid_voters_of(votes));
            }
        }
        if freshly_concluded_against {
            let votes = import.new_state().votes();
            let valid_raw = votes.valid.raw();
            let ghost off_mid = self.offchain_disabled_validators;
            let n = valid_raw.len();
            let mut i: usize = 0;
            while i < n
                invariant
                    i <= n,
                    votes.wf(),
                    votes == import.spec_new_state().spec_votes(),
                    self.spam_slots.wf(),
                    self.recent_disputes.wf(),
                    self.candidate_votes.wf(),
                    forall|k2: u128|
                        #[trigger] self.candidate_votes.spec_get(k2) matches Some(v) ==> v.wf(),
                    self.offchain_disabled_validators.wf(),
                    self.spam_slots == spam_done,
                    self.recent_disputes == rd1,
                    self.candidate_votes == old(self).candidate_votes,
                    self.chain_import_backlog == old(self).chain_import_backlog,
                    self.highest_session_seen == old(self).highest_session_seen,
                    self.gaps_in_cache == old(self).gaps_in_cache,
                    valid_raw == votes.valid.spec_raw(),
                    n == valid_raw.entries().len(),
                    newly_disabled_for_invalid@.len() == i,
                    forall|j: int|
                        0 <= j < i ==> (#[trigger] newly_disabled_for_invalid@[j]) == (
                            valid_raw.entries()[j].0 as u32,
                            valid_raw.entries()[j].1.0.spec_is_backing(),
                        ),
                    freshly_concluded_for ==> forall|j2: int|
                        0 <= j2 < votes.invalid.entries().len()
                            ==> self.offchain_disabled_validators.spec_against_valid(
                            session,
                        ).contains((#[trigger] votes.invalid.entries()[j2]).0 as u32),
                    forall|j2: int|
                        0 <= j2 < i ==> (if (
                        #[trigger] valid_raw.entries()[j2]).1.0.spec_is_backing() {
                            self.offchain_disabled_validators.spec_backers(session).contains(
                                valid_raw.entries()[j2].0 as u32,
                            )
                        } else {
                            self.offchain_disabled_validators.spec_for_invalid(session).contains(
                                valid_raw.entries()[j2].0 as u32,
                            )
                        }),
                    forall|s2: u32|
                        s2 != session ==> self.offchain_disabled_validators.spec_backers(s2)
                            == old(self).spec_offchain_disabled().spec_backers(s2)
                            && self.offchain_disabled_validators.spec_for_invalid(s2) == old(
                            self,
                        ).spec_offchain_disabled().spec_for_invalid(s2)
                            && self.offchain_disabled_validators.spec_against_valid(s2) == old(
                            self,
                        ).spec_offchain_disabled().spec_against_valid(s2),
                    forall|v2: u32|
                        (!(freshly_concluded_for && spec_is_invalid_voter(votes, v2))
                            && !spec_is_valid_voter(votes, v2))
                            ==> self.offchain_disabled_validators.spec_is_disabled(session, v2)
                            == old(self).spec_offchain_disabled().spec_is_disabled(session, v2),
                decreases n - i,
            {
                let k = valid_raw.key_at(i);
                let is_backer = valid_raw.val_at(i).0.is_backing();
                proof {
                    lemma_find_at(valid_raw.entries(), i as int);
                    assert(valid_raw.has_key(k));
                    assert(votes.valid.wf());
                    assert(k < 0x1_0000_0000);
                }
                let validator_index = k as u32;
                let ghost before_off = self.offchain_disabled_validators;
                self.offchain_disabled_validators.insert_for_invalid(
                    session,
                    validator_index,
                    is_backer,
                );
                newly_disabled_for_invalid.push((validator_index, is_backer));
                proof {
                    assert(spec_is_valid_voter(votes, validator_index));
                    if freshly_concluded_for {
                        assert forall|j2: int|
                            0 <= j2 < votes.invalid.entries().len() implies
                            self.offchain_disabled_validators.spec_against_valid(
                            session,
                        ).contains((#[trigger] votes.invalid.entries()[j2]).0 as u32) by {
                            assert(before_off.spec_against_valid(session).contains(
                                votes.invalid.entries()[j2].0 as u32,
                            ));
                        }
                    }
                    assert forall|j2: int|
                        0 <= j2 < i + 1 implies (if (
                        #[trigger] valid_raw.entries()[j2]).1.0.spec_is_backing() {
                            self.offchain_disabled_validators.spec_backers(session).contains(
                                valid_raw.entries()[j2].0 as u32,
                            )
                        } else {
                            self.offchain_disabled_validators.spec_for_invalid(session).contains(
                                valid_raw.entries()[j2].0 as u32,
                            )
                        }) by {
                        if j2 < i {
                            if valid_raw.entries()[j2].1.0.spec_is_backing() {
                                assert(before_off.spec_backers(session).contains(
                                    valid_raw.entries()[j2].0 as u32,
                                ));
                            } else {
                                assert(before_off.spec_for_invalid(session).contains(
                                    valid_raw.entries()[j2].0 as u32,
                                ));
                            }
                        } else {
                            assert(valid_raw.entries()[j2].0 == k);
                            assert(valid_raw.entries()[j2].1.0.spec_is_backing() == is_backer);
                        }
                    }
                    assert forall|v2: u32|
                        (!(freshly_concluded_for && spec_is_invalid_voter(votes, v2))
                            && !spec_is_valid_voter(votes, v2)) implies
                        self.offchain_disabled_validators.spec_is_disabled(session, v2) == old(
                        self,
                    ).spec_offchain_disabled().spec_is_disabled(session, v2) by {
                        assert(v2 != validator_index);
                    }
                }
                i = i + 1;
            }
            proof {
                assert(newly_disabled_for_invalid@ =~= valid_voters_flags_of(votes));
            }
        }
        let ghost offchain_done = self.offchain_disabled_validators;
        let ghost cv_before_revisit = self.candidate_votes;
        if freshly_concluded_for || freshly_concluded_against {
            self.revisit_active_disputes_after_disabling(session);
        }
        let ghost rd_final = self.recent_disputes;
        proof {
            assert forall|k2: u128|
                rd_final.spec_get(k2) == ({
                    let concluded = import.spec_is_freshly_concluded_for()
                        || import.spec_is_freshly_concluded_against();
                    match rd1.spec_get(k2) {
                        Some(st) => if concluded && spec_should_unactivate(
                            old(self).spec_candidate_votes(),
                            &offchain_done,
                            session,
                            k2,
                            st,
                        ) {
                            Option::<DisputeStatus>::None
                        } else {
                            Some(st)
                        },
                        None => Option::<DisputeStatus>::None,
                    }
                }) by {
                assert(cv_before_revisit == old(self).candidate_votes);
                if freshly_concluded_for || freshly_concluded_against {
                } else {
                    assert(rd_final == rd1);
                }
            }
        }
        match import.into_updated_votes() {
            Some(votes) => {
                proof {
                    assert(votes.wf());
                }
                let ghost cv_pre = self.candidate_votes;
                self.candidate_votes.insert(key, votes);
                proof {
                    assert forall|k2: u128|
                        #[trigger] self.candidate_votes.spec_get(k2) is Some implies
                        self.candidate_votes.spec_get(k2)->Some_0.wf() by {
                        if k2 != key {
                            assert(self.candidate_votes.spec_get(k2) == cv_pre.spec_get(k2));
                        }
                    }
                }
            },
            None => {},
        }
        ImportOutcome {
            result: ImportStatementsResult::ValidImport,
            participation,
            rebroadcast_own_approval,
            request_revert,
            newly_disabled_against_valid,
            newly_disabled_for_invalid,
        }
    }
}

/// Whether a validator already has a vote stored for a candidate.
pub open spec fn spec_has_voted(cv: &VecMap<CandidateVotes>, key: u128, v: u32) -> bool {
    match cv.spec_get(key) {
        Some(votes) => votes.valid.spec_get(v) is Some || votes.invalid.spec_get(v as u128)
            is Some,
        None => false,
    }
}

/// The controlled indices that still need a local statement for a
/// candidate, in controlled order.
pub open spec fn spec_needs_local_statement(
    cv: &VecMap<CandidateVotes>,
    key: u128,
    controlled: Seq<u32>,
) -> Seq<u32>
    decreases controlled.len(),
{
    if controlled.len() == 0 {
        Seq::empty()
    } else {
        let head: Seq<u32> = if spec_has_voted(cv, key, controlled[0]) {
            Seq::empty()
        } else {
            seq![controlled[0]]
        };
        head + spec_needs_local_statement(cv, key, controlled.drop_first())
    }
}

impl Coordinator {
    /// The off-chain disabled validators of a session, in priority
    /// order (may contain a validator twice).
    pub fn offchain_disabled(&self, session: u32) -> (r: Vec<u32>)
        requires
            self.wf(),
        ensures
            r@ == self.spec_offchain_disabled().spec_backers(session)
                + self.spec_offchain_disabled().spec_for_invalid(session)
                + self.spec_offchain_disabled().spec_against_valid(session),
    {
        self.offchain_disabled_validators.iter(session)
    }

    /// The validator indices this node controls that have not yet voted
    /// on a candidate: each gets one local statement signed for it.
    pub fn plan_local_statements(
        &self,
        env: &CandidateEnvironment,
        candidate_hash: u64,
        session: u32,
    ) -> (r: Vec<u32>)
        requires
            self.wf(),
        ensures
            r@ == spec_needs_local_statement(
                self.spec_candidate_votes(),
                spec_session_candidate_key(session, candidate_hash),
                env.spec_controlled(),
            ),
    {
        let ghost key_g = spec_session_candidate_key(session, candidate_hash);
        let key = session_candidate_key(session, candidate_hash);
        let controlled = env.controlled_indices();
        let ghost cseq = controlled@;
        let n = controlled.len();
        let mut out: Vec<u32> = Vec::new();
        let mut i: usize = 0;
        proof {
            assert(cseq.skip(0) =~= cseq);
        }
        while i < n
            invariant
                i <= n,
                self.wf(),
                n == cseq.len(),
                controlled@ == cseq,
                key == key_g,
                spec_needs_local_statement(self.spec_candidate_votes(), key_g, cseq) == out@
                    + spec_needs_local_statement(
                    self.spec_candidate_votes(),
                    key_g,
                    cseq.skip(i as int),
                ),
            decreases n - i,
        {
            proof {
                assert(cseq.skip(i as int).drop_first() =~= cseq.skip(i + 1int));
                assert(cseq.skip(i as int)[0] == cseq[i as int]);
            }
            let ghost out_before = out@;
            let v = controlled[i];
            let voted = match self.candidate_votes.get(key) {
                Some(votes) => votes.valid.raw().get(v as u128).is_some() || votes.invalid.get(
                    v as u128,
                ).is_some(),
                None => false,
            };
            if !voted {
                out.push(v);
                proof {
                    assert(spec_needs_local_statement(
                        self.spec_candidate_votes(),
                        key_g,
                        cseq.skip(i as int),
                    ) == seq![v] + spec_needs_local_statement(
                        self.spec_candidate_votes(),
                        key_g,
                        cseq.skip(i + 1int),
                    ));
                    assert(out_before + spec_needs_local_statement(
                        self.spec_candidate_votes(),
                        key_g,
                        cseq.skip(i as int),
                    ) =~= out@ + spec_needs_local_statement(
                        self.spec_candidate_votes(),
                        key_g,
                        cseq.skip(i + 1int),
                    ));
                }
            } else {
                proof {
                    assert(spec_needs_local_statement(
                        self.spec_candidate_votes(),
                        key_g,
                        cseq.skip(i as int),
                    ) == spec_needs_local_statement(
                        self.spec_candidate_votes(),
                        key_g,
                        cseq.skip(i + 1int),
                    ));
                }
            }
            i = i + 1;
        }
        proof {
            assert(cseq.skip(n as int) =~= Seq::<u32>::empty());
            assert(out@ =~= spec_needs_local_statement(
                self.spec_candidate_votes(),
                key_g,
                cseq,
            ));
        }
        out
    }
}

} // verus!
