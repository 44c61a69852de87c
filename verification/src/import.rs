//! Vote import logic.
//!
//! `CandidateVoteState` tells what can be concluded from a set of votes
//! for one candidate: whether a dispute is ongoing, confirmed or
//! concluded. `ImportResult` describes what changed when additional
//! votes were imported on top of an existing state.

use vstd::prelude::*;

use crate::environment::CandidateEnvironment;
use crate::keymap::lemma_find_at;
use crate::quorum;
use crate::status::DisputeStatus;
use crate::votes::{
    lemma_vote_map_len_bound, upgraded_entry, CandidateReceipt, CandidateVotes, DisputeStatement,
    InvalidKind, SignedDisputeStatement, ValidKind,
};

verus! {

/// Whether a statement is acceptable in this context: the claimed key
/// must be the session's key at that validator index, and the statement
/// must speak of this candidate in this session.
pub open spec fn stmt_accepted(
    env: &CandidateEnvironment,
    expected_hash: u64,
    stmt: SignedDisputeStatement,
    v: u32,
) -> bool {
    &&& (v as int) < env.spec_validators().len()
    &&& env.spec_validators()[v as int] == stmt.validator_public
    &&& stmt.candidate_hash == expected_hash
    &&& stmt.session_index == env.spec_session_index()
}

/// The valid-vote map after the first `i` statements were offered.
pub open spec fn valid_map_after(
    m0: Map<u128, (ValidKind, u64)>,
    stmts: Seq<(SignedDisputeStatement, u32)>,
    env: &CandidateEnvironment,
    expected_hash: u64,
    i: int,
) -> Map<u128, (ValidKind, u64)>
    decreases i,
{
    if i <= 0 {
        m0
    } else {
        let prev = valid_map_after(m0, stmts, env, expected_hash, i - 1);
        let stmt = stmts[i - 1].0;
        let v = stmts[i - 1].1;
        if stmt_accepted(env, expected_hash, stmt, v) {
            match stmt.statement {
                DisputeStatement::Valid(kind) => prev.insert(
                    v as u128,
                    upgraded_entry(
                        if prev.contains_key(v as u128) {
                            Some(prev[v as u128])
                        } else {
                            None
                        },
                        kind,
                        stmt.validator_signature,
                    ),
                ),
                DisputeStatement::Invalid(_) => prev,
            }
        } else {
            prev
        }
    }
}

/// The invalid-vote map after the first `i` statements were offered.
pub open spec fn invalid_map_after(
    m0: Map<u128, (InvalidKind, u64)>,
    stmts: Seq<(SignedDisputeStatement, u32)>,
    env: &CandidateEnvironment,
    expected_hash: u64,
    i: int,
) -> Map<u128, (InvalidKind, u64)>
    decreases i,
{
    if i <= 0 {
        m0
    } else {
        let prev = invalid_map_after(m0, stmts, env, expected_hash, i - 1);
        let stmt = stmts[i - 1].0;
        let v = stmts[i - 1].1;
        if stmt_accepted(env, expected_hash, stmt, v) {
            match stmt.statement {
                DisputeStatement::Valid(_) => prev,
                DisputeStatement::Invalid(kind) => prev.insert(
                    v as u128,
                    (kind, stmt.validator_signature),
                ),
            }
        } else {
            prev
        }
    }
}

/// How many of the first `i` statements added a previously absent valid vote.
pub open spec fn imported_valid_after(
    m0: Map<u128, (ValidKind, u64)>,
    stmts: Seq<(SignedDisputeStatement, u32)>,
    env: &CandidateEnvironment,
    expected_hash: u64,
    i: int,
) -> nat
    decreases i,
{
    if i <= 0 {
        0
    } else {
        let stmt = stmts[i - 1].0;
        let v = stmts[i - 1].1;
        imported_valid_after(m0, stmts, env, expected_hash, i - 1) + (if stmt_accepted(
            env,
            expected_hash,
            stmt,
            v,
        ) && stmt.statement is Valid && !valid_map_after(
            m0,
            stmts,
            env,
            expected_hash,
            i - 1,
        ).contains_key(v as u128) {
            1nat
        } else {
            0nat
        })
    }
}

/// How many of the first `i` statements added a previously absent invalid vote.
pub open spec fn imported_invalid_after(
    m0: Map<u128, (InvalidKind, u64)>,
    stmts: Seq<(SignedDisputeStatement, u32)>,
    env: &CandidateEnvironment,
    expected_hash: u64,
    i: int,
) -> nat
    decreases i,
{
    if i <= 0 {
        0
    } else {
        let stmt = stmts[i - 1].0;
        let v = stmts[i - 1].1;
        imported_invalid_after(m0, stmts, env, expected_hash, i - 1) + (if stmt_accepted(
            env,
            expected_hash,
            stmt,
            v,
        ) && stmt.statement is Invalid && !invalid_map_after(
            m0,
            stmts,
            env,
            expected_hash,
            i - 1,
        ).contains_key(v as u128) {
            1nat
        } else {
            0nat
        })
    }
}

/// The validators whose first invalid vote arrived among the first `i`
/// statements, in order of appearance.
pub open spec fn new_invalid_voters_after(
    m0: Map<u128, (InvalidKind, u64)>,
    stmts: Seq<(SignedDisputeStatement, u32)>,
    env: &CandidateEnvironment,
    expected_hash: u64,
    i: int,
) -> Seq<u32>
    decreases i,
{
    if i <= 0 {
        Seq::empty()
    } else {
        let stmt = stmts[i - 1].0;
        let v = stmts[i - 1].1;
        let prev = new_invalid_voters_after(m0, stmts, env, expected_hash, i - 1);
        if stmt_accepted(env, expected_hash, stmt, v) && stmt.statement is Invalid
            && !invalid_map_after(m0, stmts, env, expected_hash, i - 1).contains_key(v as u128) {
            prev.push(v)
        } else {
            prev
        }
    }
}

/// Whether some invalid vote came from a validator outside the disabled set.
pub open spec fn spec_has_non_disabled_invalid(
    votes: &CandidateVotes,
    env: &CandidateEnvironment,
) -> bool {
    exists|i: int|
        0 <= i < votes.invalid.entries().len() && !env.spec_disabled().contains(
            votes.invalid.entries()[i].0 as u32,
        )
}

/// Votes exist on both sides.
pub open spec fn spec_votes_on_both_sides(votes: &CandidateVotes) -> bool {
    votes.valid.spec_raw().entries().len() > 0 && votes.invalid.entries().len() > 0
}

/// Confirmed: votes on both sides from more than `byzantine_threshold`
/// distinct validators.
pub open spec fn spec_confirmed_votes(votes: &CandidateVotes, n: nat) -> bool {
    spec_votes_on_both_sides(votes) && votes.spec_distinct_voters()
        > quorum::spec_byzantine_threshold(n)
}

/// Disputed: confirmed, or at least one invalid vote from a non-disabled
/// validator beside at least one valid vote.
pub open spec fn spec_disputed_votes(votes: &CandidateVotes, env: &CandidateEnvironment) -> bool {
    spec_confirmed_votes(votes, env.spec_validators().len()) || (spec_has_non_disabled_invalid(
        votes,
        env,
    ) && votes.valid.spec_raw().entries().len() > 0)
}

/// Concluded for: a supermajority of valid votes.
pub open spec fn spec_concluded_for_votes(votes: &CandidateVotes, n: nat) -> bool {
    votes.valid.spec_raw().entries().len() >= quorum::spec_supermajority_threshold(n)
}

/// Concluded against: a supermajority of invalid votes.
pub open spec fn spec_concluded_against_votes(votes: &CandidateVotes, n: nat) -> bool {
    votes.invalid.entries().len() >= quorum::spec_supermajority_threshold(n)
}

/// More than `byzantine_threshold` invalid votes.
pub open spec fn spec_byzantine_threshold_against(votes: &CandidateVotes, n: nat) -> bool {
    votes.invalid.entries().len() > quorum::spec_byzantine_threshold(n)
}

/// The dispute status derived from a set of votes, if any.
pub open spec fn spec_status_of(
    votes: &CandidateVotes,
    env: &CandidateEnvironment,
    now: u64,
) -> Option<DisputeStatus> {
    let n = env.spec_validators().len();
    if spec_disputed_votes(votes, env) {
        Some(
            DisputeStatus {
                confirmed: spec_confirmed_votes(votes, n),
                concluded_for: if spec_concluded_for_votes(votes, n) {
                    Some(now)
                } else {
                    None
                },
                concluded_against: if spec_concluded_against_votes(votes, n) {
                    Some(now)
                } else {
                    None
                },
            },
        )
    } else {
        None
    }
}

/// Our own valid votes among the controlled indices, in controlled order.
pub open spec fn own_valid_votes_of(votes: &CandidateVotes, controlled: Seq<u32>) -> Seq<
    (u32, (DisputeStatement, u64)),
>
    decreases controlled.len(),
{
    if controlled.len() == 0 {
        Seq::empty()
    } else {
        let head: Seq<(u32, (DisputeStatement, u64))> = match votes.valid.spec_get(controlled[0]) {
            Some(p) => seq![(controlled[0], (DisputeStatement::Valid(p.0), p.1))],
            None => Seq::empty(),
        };
        head + own_valid_votes_of(votes, controlled.drop_first())
    }
}

/// Our own invalid votes among the controlled indices, in controlled order.
pub open spec fn own_invalid_votes_of(votes: &CandidateVotes, controlled: Seq<u32>) -> Seq<
    (u32, (DisputeStatement, u64)),
>
    decreases controlled.len(),
{
    if controlled.len() == 0 {
        Seq::empty()
    } else {
        let head: Seq<(u32, (DisputeStatement, u64))> = match votes.invalid.spec_get(
            controlled[0] as u128,
        ) {
            Some(p) => seq![(controlled[0], (DisputeStatement::Invalid(p.0), p.1))],
            None => Seq::empty(),
        };
        head + own_invalid_votes_of(votes, controlled.drop_first())
    }
}

/// Our approval votes among a list of own votes.
pub open spec fn approval_votes_of(l: Seq<(u32, (DisputeStatement, u64))>) -> Seq<(u32, u64)>
    decreases l.len(),
{
    if l.len() == 0 {
        Seq::empty()
    } else {
        let head: Seq<(u32, u64)> = match l[0].1.0 {
            DisputeStatement::Valid(ValidKind::ApprovalChecking) => seq![(l[0].0, l[0].1.1)],
            _ => Seq::empty(),
        };
        head + approval_votes_of(l.drop_first())
    }
}

/// Whether or not we already issued some statement about a candidate.
pub enum OwnVoteState {
    /// Our votes, if any.
    Voted(Vec<(u32, (DisputeStatement, u64))>),
    /// We are not a parachain validator in the session, so we cannot vote.
    CannotVote,
}

/// What `OwnVoteState::new` computes from votes and controlled indices.
pub open spec fn own_vote_ok(
    own: &OwnVoteState,
    votes: &CandidateVotes,
    controlled: Seq<u32>,
) -> bool {
    match own {
        OwnVoteState::CannotVote => controlled.len() == 0,
        OwnVoteState::Voted(l) => controlled.len() > 0 && l@ == own_valid_votes_of(votes, controlled)
            + own_invalid_votes_of(votes, controlled),
    }
}

impl OwnVoteState {
    /// Collect the votes cast by the validators this node controls.
    fn new(votes: &CandidateVotes, env: &CandidateEnvironment) -> (r: Self)
        requires
            votes.wf(),
        ensures
            own_vote_ok(&r, votes, env.spec_controlled()),
    {
        let controlled = env.controlled_indices();
        let n = controlled.len();
        if n == 0 {
            return OwnVoteState::CannotVote;
        }
        let ghost cseq = controlled@;
        let mut list: Vec<(u32, (DisputeStatement, u64))> = Vec::new();
        let mut i: usize = 0;
        proof {
            assert(cseq.skip(0) =~= cseq);
        }
        while i < n
            invariant
                i <= n,
                n == cseq.len(),
                controlled@ == cseq,
                votes.wf(),
                own_valid_votes_of(votes, cseq) == list@ + own_valid_votes_of(
                    votes,
                    cseq.skip(i as int),
                ),
            decreases n - i,
        {
            proof {
                assert(cseq.skip(i as int).drop_first() =~= cseq.skip(i + 1int));
                assert(cseq.skip(i as int)[0] == cseq[i as int]);
            }
            let ghost list_before = list@;
            let v = controlled[i];
            match votes.valid.raw().get(v as u128) {
                Some(p) => {
                    list.push((v, (DisputeStatement::Valid(p.0), p.1)));
                    proof {
                        assert(own_valid_votes_of(votes, cseq.skip(i as int)) == seq![
                            (v, (DisputeStatement::Valid(p.0), p.1)),
                        ] + own_valid_votes_of(votes, cseq.skip(i + 1int)));
                        assert(list_before + own_valid_votes_of(votes, cseq.skip(i as int))
                            =~= list@ + own_valid_votes_of(votes, cseq.skip(i + 1int)));
                    }
                },
                None => {
                    proof {
                        assert(own_valid_votes_of(votes, cseq.skip(i as int))
                            == own_valid_votes_of(votes, cseq.skip(i + 1int)));
                    }
                },
            }
            i = i + 1;
        }
        proof {
            assert(cseq.skip(n as int) =~= Seq::<u32>::empty());
            assert(own_valid_votes_of(votes, cseq.skip(n as int)) == Seq::<
                (u32, (DisputeStatement, u64)),
            >::empty());
            assert(list@ =~= own_valid_votes_of(votes, cseq));
        }
        let ghost valid_part = list@;
        let mut i: usize = 0;
        proof {
            assert(cseq.skip(0) =~= cseq);
        }
        while i < n
            invariant
                i <= n,
                n == cseq.len(),
                controlled@ == cseq,
                votes.wf(),
                valid_part == own_valid_votes_of(votes, cseq),
                list@ + own_invalid_votes_of(votes, cseq.skip(i as int)) == valid_part
                    + own_invalid_votes_of(votes, cseq),
            decreases n - i,
        {
            proof {
                assert(cseq.skip(i as int).drop_first() =~= cseq.skip(i + 1int));
                assert(cseq.skip(i as int)[0] == cseq[i as int]);
            }
            let ghost list_before = list@;
            let v = controlled[i];
            match votes.invalid.get(v as u128) {
                Some(p) => {
                    list.push((v, (DisputeStatement::Invalid(p.0), p.1)));
                    proof {
                        assert(own_invalid_votes_of(votes, cseq.skip(i as int)) == seq![
                            (v, (DisputeStatement::Invalid(p.0), p.1)),
                        ] + own_invalid_votes_of(votes, cseq.skip(i + 1int)));
                        assert(list_before + own_invalid_votes_of(votes, cseq.skip(i as int))
                            =~= list@ + own_invalid_votes_of(votes, cseq.skip(i + 1int)));
                    }
                },
                None => {
                    proof {
                        assert(own_invalid_votes_of(votes, cseq.skip(i as int))
                            == own_invalid_votes_of(votes, cseq.skip(i + 1int)));
                    }
                },
            }
            i = i + 1;
        }
        proof {
            assert(cseq.skip(n as int) =~= Seq::<u32>::empty());
            assert(own_invalid_votes_of(votes, cseq.skip(n as int)) == Seq::<
                (u32, (DisputeStatement, u64)),
            >::empty());
            assert(list@ =~= own_valid_votes_of(votes, cseq) + own_invalid_votes_of(votes, cseq));
        }
        OwnVoteState::Voted(list)
    }

    /// Is a vote from us missing although we are able to vote?
    fn vote_missing(&self) -> (r: bool)
        ensures
            r == spec_vote_missing(self),
    {
        match self {
            OwnVoteState::Voted(votes) => votes.len() == 0,
            OwnVoteState::CannotVote => false,
        }
    }

    /// Our approval votes, if we can vote at all.
    fn approval_votes(&self) -> (r: Option<Vec<(u32, u64)>>)
        ensures
            match r {
                Some(l) => self is Voted && l@ == approval_votes_of(self->Voted_0@),
                None => self is CannotVote,
            },
    {
        match self {
            OwnVoteState::CannotVote => None,
            OwnVoteState::Voted(votes) => {
                let ghost all = votes@;
                let n = votes.len();
                let mut out: Vec<(u32, u64)> = Vec::new();
                let mut i: usize = 0;
                proof {
                    assert(all.skip(0) =~= all);
                }
                while i < n
                    invariant
                        i <= n,
                        n == all.len(),
                        votes@ == all,
                        approval_votes_of(all) =~= out@ + approval_votes_of(all.skip(i as int)),
                    decreases n - i,
                {
                    proof {
                        assert(all.skip(i as int).drop_first() =~= all.skip(i + 1int));
                        assert(all.skip(i as int)[0] == all[i as int]);
                    }
                    let is_approval = match &votes[i].1.0 {
                        DisputeStatement::Valid(ValidKind::ApprovalChecking) => true,
                        _ => false,
                    };
                    if is_approval {
                        out.push((votes[i].0, votes[i].1.1));
                    }
                    i = i + 1;
                }
                proof {
                    assert(all.skip(n as int) =~= Seq::<(u32, (DisputeStatement, u64))>::empty());
                    assert(out@ =~= approval_votes_of(all));
                }
                Some(out)
            },
        }
    }
}

/// Whether we can vote but have not voted.
pub open spec fn spec_vote_missing(own: &OwnVoteState) -> bool {
    match own {
        OwnVoteState::Voted(votes) => votes@.len() == 0,
        OwnVoteState::CannotVote => false,
    }
}

/// Complete state of votes for a candidate: all votes, whether a dispute
/// is ongoing, confirmed or concluded, and whether we voted ourselves.
pub struct CandidateVoteState<V> {
    votes: V,
    own_vote: OwnVoteState,
    dispute_status: Option<DisputeStatus>,
    byzantine_threshold_against: bool,
}

impl<V> CandidateVoteState<V> {
    /// The wrapped votes.
    pub closed spec fn spec_votes(&self) -> &V {
        &self.votes
    }

    /// Our own vote state.
    pub closed spec fn spec_own_vote(&self) -> &OwnVoteState {
        &self.own_vote
    }

    /// The dispute status, if disputed.
    pub closed spec fn spec_dispute_status(&self) -> Option<DisputeStatus> {
        self.dispute_status
    }

    /// Whether more than the byzantine threshold voted against.
    pub closed spec fn spec_byzantine_threshold_against(&self) -> bool {
        self.byzantine_threshold_against
    }

    /// Whether a dispute is ongoing.
    pub open spec fn spec_is_disputed(&self) -> bool {
        self.spec_dispute_status() is Some
    }

    /// Whether the ongoing dispute is confirmed or concluded.
    pub open spec fn spec_is_confirmed(&self) -> bool {
        match self.spec_dispute_status() {
            Some(s) => s.spec_is_confirmed_concluded(),
            None => false,
        }
    }

    /// Whether the dispute has enough valid votes to conclude.
    pub open spec fn spec_has_concluded_for(&self) -> bool {
        match self.spec_dispute_status() {
            Some(s) => s.spec_concluded_for() is Some,
            None => false,
        }
    }

    /// Whether the dispute has enough invalid votes to conclude.
    pub open spec fn spec_has_concluded_against(&self) -> bool {
        match self.spec_dispute_status() {
            Some(s) => s.spec_concluded_against() is Some,
            None => false,
        }
    }

    /// Whether or not we have an ongoing dispute.
    pub fn is_disputed(&self) -> (r: bool)
        ensures
            r == self.spec_is_disputed(),
    {
        self.dispute_status.is_some()
    }

    /// Whether there is an ongoing confirmed dispute.
    pub fn is_confirmed(&self) -> (r: bool)
        ensures
            r == self.spec_is_confirmed(),
    {
        match &self.dispute_status {
            Some(s) => s.is_confirmed_concluded(),
            None => false,
        }
    }

    /// Are we a validator in the session, but have not yet voted?
    pub fn own_vote_missing(&self) -> (r: bool)
        ensures
            r == spec_vote_missing(self.spec_own_vote()),
    {
        self.own_vote.vote_missing()
    }

    /// Own approval votes, if we can vote at all.
    pub fn own_approval_votes(&self) -> (r: Option<Vec<(u32, u64)>>)
        ensures
            match r {
                Some(l) => self.spec_own_vote() is Voted && l@ == approval_votes_of(
                    self.spec_own_vote()->Voted_0@,
                ),
                None => self.spec_own_vote() is CannotVote,
            },
    {
        self.own_vote.approval_votes()
    }

    /// Own votes, if we can vote at all.
    pub fn own_votes(&self) -> (r: Option<&Vec<(u32, (DisputeStatement, u64))>>)
        ensures
            match r {
                Some(l) => self.spec_own_vote() is Voted && l@ == self.spec_own_vote()->Voted_0@,
                None => self.spec_own_vote() is CannotVote,
            },
    {
        match &self.own_vote {
            OwnVoteState::Voted(votes) => Some(votes),
            OwnVoteState::CannotVote => None,
        }
    }

    /// Whether the dispute has enough valid votes to conclude.
    pub fn has_concluded_for(&self) -> (r: bool)
        ensures
            r == self.spec_has_concluded_for(),
    {
        match &self.dispute_status {
            Some(s) => s.has_concluded_for(),
            None => false,
        }
    }

    /// Whether the dispute has enough invalid votes to conclude.
    pub fn has_concluded_against(&self) -> (r: bool)
        ensures
            r == self.spec_has_concluded_against(),
    {
        match &self.dispute_status {
            Some(s) => s.has_concluded_against(),
            None => false,
        }
    }

    /// Access to the dispute status, if there is one.
    pub fn dispute_status(&self) -> (r: &Option<DisputeStatus>)
        ensures
            *r == self.spec_dispute_status(),
    {
        &self.dispute_status
    }

    /// Access to the underlying votes.
    pub fn votes(&self) -> (r: &V)
        ensures
            r == self.spec_votes(),
    {
        &self.votes
    }

    /// Whether more than the byzantine threshold voted against.
    pub fn byzantine_threshold_against(&self) -> (r: bool)
        ensures
            r == self.spec_byzantine_threshold_against(),
    {
        self.byzantine_threshold_against
    }
}

/// The state agrees with what `CandidateVoteState::new` derives from
/// its votes in the given environment at the given time.
pub open spec fn state_derived(
    st: &CandidateVoteState<CandidateVotes>,
    env: &CandidateEnvironment,
    now: u64,
) -> bool {
    &&& st.spec_votes().wf()
    &&& own_vote_ok(st.spec_own_vote(), st.spec_votes(), env.spec_controlled())
    &&& st.spec_dispute_status() == spec_status_of(st.spec_votes(), env, now)
    &&& st.spec_byzantine_threshold_against() == (spec_disputed_votes(st.spec_votes(), env)
        && spec_byzantine_threshold_against(st.spec_votes(), env.spec_validators().len()))
}

impl CandidateVoteState<CandidateVotes> {
    /// An empty state for a candidate seen for the first time.
    pub fn new_from_receipt(candidate_receipt: CandidateReceipt) -> (r: Self)
        ensures
            r.spec_votes().wf(),
            r.spec_votes().candidate_receipt == candidate_receipt,
            r.spec_votes().valid.spec_raw().entries().len() == 0,
            r.spec_votes().invalid.entries().len() == 0,
            r.spec_own_vote() is CannotVote,
            r.spec_dispute_status() is None,
            !r.spec_byzantine_threshold_against(),
    {
        CandidateVoteState {
            votes: CandidateVotes::new_from_receipt_only(candidate_receipt),
            own_vote: OwnVoteState::CannotVote,
            dispute_status: None,
            byzantine_threshold_against: false,
        }
    }

    /// Derive the full state from raw votes.
    pub fn new(votes: CandidateVotes, env: &CandidateEnvironment, now: u64) -> (r: Self)
        requires
            votes.wf(),
        ensures
            r.spec_votes() == &votes,
            state_derived(&r, env, now),
    {
        let own_vote = OwnVoteState::new(&votes, env);
        let n = env.validators().len();
        let supermajority_threshold = quorum::supermajority_threshold(n);
        let byzantine_threshold = quorum::byzantine_threshold(n);
        let has_non_disabled_invalid_votes = has_non_disabled_invalid(&votes, env);
        let n_valid = votes.valid.raw().len();
        let n_invalid = votes.invalid.len();
        let votes_on_both_sides = n_valid > 0 && n_invalid > 0;
        let distinct = votes.distinct_voters();
        let is_confirmed = votes_on_both_sides && distinct > byzantine_threshold as u64;
        let is_disputed = is_confirmed || (has_non_disabled_invalid_votes && n_valid > 0);
        let mut dispute_status: Option<DisputeStatus> = None;
        let mut byzantine_threshold_against = false;
        if is_disputed {
            let mut status = DisputeStatus::active();
            if is_confirmed {
                status = status.confirm();
            }
            if n_valid >= supermajority_threshold {
                status = status.conclude_for(now);
            }
            if n_invalid >= supermajority_threshold {
                status = status.conclude_against(now);
            }
            dispute_status = Some(status);
            byzantine_threshold_against = n_invalid > byzantine_threshold;
        }
        CandidateVoteState { votes, own_vote, dispute_status, byzantine_threshold_against }
    }

    /// Import fresh statements, giving the new state plus what changed.
    pub fn import_statements(
        self,
        env: &CandidateEnvironment,
        statements: Vec<(SignedDisputeStatement, u32)>,
        now: u64,
    ) -> (r: ImportResult)
        requires
            self.spec_votes().wf(),
        ensures
            import_described(&r, &self, env, statements@, now),
    {
        let CandidateVoteState { votes: votes_in, own_vote, dispute_status, byzantine_threshold_against } =
            self;
        let ghost old_valid = votes_in.valid.spec_raw().as_map();
        let ghost old_invalid = votes_in.invalid.as_map();
        let ghost vlen0 = votes_in.valid.spec_raw().entries().len();
        let ghost ilen0 = votes_in.invalid.entries().len();
        let ghost receipt0 = votes_in.candidate_receipt;
        let old_state = CandidateVoteState {
            votes: (),
            own_vote,
            dispute_status,
            byzantine_threshold_against,
        };
        let mut votes = votes_in;

        let mut new_invalid_voters: Vec<u32> = Vec::new();
        let mut imported_invalid_votes: u64 = 0;
        let mut imported_valid_votes: u64 = 0;

        let expected_candidate_hash = votes.candidate_receipt.hash();
        let ghost stmts0 = statements@;
        let n_statements = statements.len();
        let mut remaining = statements;
        let mut i: usize = 0;
        proof {
            assert(stmts0.skip(0) =~= stmts0);
        }
        while remaining.len() > 0
            invariant
                i + remaining@.len() == stmts0.len(),
                stmts0.len() == n_statements,
                remaining@ == stmts0.skip(i as int),
                votes.wf(),
                votes.candidate_receipt == receipt0,
                expected_candidate_hash == receipt0.candidate_hash,
                votes.valid.spec_raw().as_map() == valid_map_after(
                    old_valid,
                    stmts0,
                    env,
                    expected_candidate_hash,
                    i as int,
                ),
                votes.invalid.as_map() == invalid_map_after(
                    old_invalid,
                    stmts0,
                    env,
                    expected_candidate_hash,
                    i as int,
                ),
                votes.valid.spec_raw().entries().len() == vlen0 + imported_valid_votes,
                votes.invalid.entries().len() == ilen0 + imported_invalid_votes,
                imported_valid_votes == imported_valid_after(
                    old_valid,
                    stmts0,
                    env,
                    expected_candidate_hash,
                    i as int,
                ),
                imported_invalid_votes == imported_invalid_after(
                    old_invalid,
                    stmts0,
                    env,
                    expected_candidate_hash,
                    i as int,
                ),
                new_invalid_voters@ == new_invalid_voters_after(
                    old_invalid,
                    stmts0,
                    env,
                    expected_candidate_hash,
                    i as int,
                ),
                imported_valid_votes <= i,
                imported_invalid_votes <= i,
                new_invalid_voters@.no_duplicates(),
                forall|j: int|
                    0 <= j < new_invalid_voters@.len() ==> votes.invalid.has_key(
                        (#[trigger] new_invalid_voters@[j]) as u128,
                    ),
            decreases remaining.len(),
        {
            proof {
                assert(stmts0.skip(i as int)[0] == stmts0[i as int]);
                assert(stmts0.skip(i as int).drop_first() =~= stmts0.skip(i + 1int));
            }
            let ghost stmt_g = stmts0[i as int].0;
            let ghost v_g = stmts0[i as int].1;
            let (statement, val_index) = remaining.remove(0);
            proof {
                assert(remaining@ =~= stmts0.skip(i + 1int));
                assert(statement == stmt_g && val_index == v_g);
            }
            let ghost prev_valid = votes.valid.spec_raw().as_map();
            let ghost prev_invalid = votes.invalid.as_map();
            let SignedDisputeStatement {
                statement: stmt_inner,
                candidate_hash: stmt_candidate,
                session_index: stmt_session,
                validator_public: stmt_public,
                validator_signature: stmt_signature,
            } = statement;
            let validators = env.validators();
            let accepted = (val_index as usize) < validators.len() && validators[val_index
                as usize] == stmt_public && stmt_candidate == expected_candidate_hash
                && stmt_session == env.session_index();
            proof {
                assert(accepted == stmt_accepted(env, expected_candidate_hash, stmt_g, v_g));
            }
            if accepted {
                match stmt_inner {
                    DisputeStatement::Valid(valid_kind) => {
                        let ghost was_there = votes.valid.spec_get(val_index);
                        let fresh = votes.valid.insert_vote(val_index, valid_kind, stmt_signature);
                        if fresh {
                            imported_valid_votes = imported_valid_votes + 1;
                        }
                        proof {
                            assert(prev_valid.contains_key(v_g as u128) == (was_there is Some));
                            if was_there is Some {
                                assert(prev_valid[v_g as u128] == was_there->Some_0);
                            }
                            assert(votes.valid.spec_raw().as_map() =~= prev_valid.insert(
                                v_g as u128,
                                upgraded_entry(
                                    if prev_valid.contains_key(v_g as u128) {
                                        Some(prev_valid[v_g as u128])
                                    } else {
                                        None
                                    },
                                    valid_kind,
                                    stmt_signature,
                                ),
                            ));
                            assert(votes.valid.spec_raw().as_map() == valid_map_after(
                                old_valid,
                                stmts0,
                                env,
                                expected_candidate_hash,
                                i + 1int,
                            ));
                        }
                    },
                    DisputeStatement::Invalid(invalid_kind) => {
                        let ghost was_there = votes.invalid.spec_get(val_index as u128);
                        let ghost voters_before = new_invalid_voters@;
                        let fresh = votes.invalid.insert(
                            val_index as u128,
                            (invalid_kind, stmt_signature),
                        ).is_none();
                        if fresh {
                            new_invalid_voters.push(val_index);
                            imported_invalid_votes = imported_invalid_votes + 1;
                            proof {
                                assert(!voters_before.contains(val_index)) by {
                                    if voters_before.contains(val_index) {
                                        let j = choose|j: int|
                                            0 <= j < voters_before.len() && (
                                            #[trigger] voters_before[j]) == val_index;
                                        assert(old_invalid_has(
                                            prev_invalid,
                                            voters_before[j],
                                        ));
                                    }
                                }
                                assert(new_invalid_voters@.drop_last() =~= voters_before);
                            }
                        }
                        proof {
                            assert(prev_invalid.contains_key(v_g as u128) == (was_there
                                is Some));
                            assert(votes.invalid.as_map() =~= prev_invalid.insert(
                                v_g as u128,
                                (invalid_kind, stmt_signature),
                            ));
                            assert(votes.invalid.as_map() == invalid_map_after(
                                old_invalid,
                                stmts0,
                                env,
                                expected_candidate_hash,
                                i + 1int,
                            ));
                            assert forall|k2: u128| votes.invalid.has_key(k2) implies k2
                                < 0x1_0000_0000 by {
                                if k2 != v_g as u128 {
                                    assert(votes.invalid.spec_get(k2) == prev_invalid_get(
                                        prev_invalid,
                                        k2,
                                    ));
                                }
                            }
                        }
                    },
                }
            }
            i = i + 1;
        }
        proof {
            assert(stmts0.skip(stmts0.len() as int) =~= Seq::<(SignedDisputeStatement, u32)>::empty());
            assert(i == stmts0.len());
        }

        proof {
            lemma_vote_map_len_bound(votes.valid.spec_raw());
            lemma_vote_map_len_bound(&votes.invalid);
        }
        let new_state = Self::new(votes, env, now);

        ImportResult {
            old_state,
            new_state,
            imported_invalid_votes,
            imported_valid_votes,
            imported_approval_votes: 0,
            new_invalid_voters,
        }
    }

    /// The candidate receipt the votes are about.
    pub fn candidate_receipt(&self) -> (r: &CandidateReceipt)
        ensures
            *r == self.spec_votes().candidate_receipt,
    {
        &self.votes.candidate_receipt
    }

    /// True if every invalid vote comes from a validator in `disabled`.
    pub fn invalid_votes_all_disabled(&self, disabled: &Vec<u32>) -> (r: bool)
        requires
            self.spec_votes().wf(),
        ensures
            r == forall|i: int|
                0 <= i < self.spec_votes().invalid.entries().len() ==> disabled@.contains(
                    self.spec_votes().invalid.entries()[i].0 as u32,
                ),
    {
        all_invalid_in(&self.votes, disabled)
    }
}

/// Whether a voter already had an invalid vote in a given map state.
pub open spec fn old_invalid_has(m: Map<u128, (InvalidKind, u64)>, v: u32) -> bool {
    m.contains_key(v as u128)
}

/// Helper naming a map lookup (keeps trigger selection simple).
pub open spec fn prev_invalid_get(m: Map<u128, (InvalidKind, u64)>, k: u128) -> Option<
    (InvalidKind, u64),
> {
    if m.contains_key(k) {
        Some(m[k])
    } else {
        None
    }
}

/// Whether some invalid vote comes from a validator outside `env`'s disabled set.
fn has_non_disabled_invalid(votes: &CandidateVotes, env: &CandidateEnvironment) -> (r: bool)
    requires
        votes.wf(),
    ensures
        r == spec_has_non_disabled_invalid(votes, env),
{
    let n = votes.invalid.len();
    let mut i: usize = 0;
    while i < n
        invariant
            i <= n,
            votes.wf(),
            n == votes.invalid.entries().len(),
            forall|j: int|
                0 <= j < i ==> env.spec_disabled().contains(votes.invalid.entries()[j].0 as u32),
        decreases n - i,
    {
        let k = votes.invalid.key_at(i);
        proof {
            lemma_find_at(votes.invalid.entries(), i as int);
        }
        if !env.is_disabled(k as u32) {
            return true;
        }
        i = i + 1;
    }
    false
}

/// True if every invalid vote comes from a validator in `disabled`.
fn all_invalid_in(votes: &CandidateVotes, disabled: &Vec<u32>) -> (r: bool)
    requires
        votes.wf(),
    ensures
        r == forall|i: int|
            0 <= i < votes.invalid.entries().len() ==> disabled@.contains(
                votes.invalid.entries()[i].0 as u32,
            ),
{
    let n = votes.invalid.len();
    let mut i: usize = 0;
    while i < n
        invariant
            i <= n,
            votes.wf(),
            n == votes.invalid.entries().len(),
            forall|j: int|
                0 <= j < i ==> disabled@.contains(votes.invalid.entries()[j].0 as u32),
        decreases n - i,
    {
        let k = votes.invalid.key_at(i);
        proof {
            lemma_find_at(votes.invalid.entries(), i as int);
        }
        if !crate::util::contains_u32(disabled, k as u32) {
            return false;
        }
        i = i + 1;
    }
    true
}

/// Whether an approval vote is acceptable: a known validator index
/// whose signed candidate list covers this candidate.
pub open spec fn approval_accepted(
    env: &CandidateEnvironment,
    expected_hash: u64,
    v: u32,
    hashes: Seq<u64>,
) -> bool {
    (v as int) < env.spec_validators().len() && hashes.contains(expected_hash)
}

/// The statement kind an approval vote is stored under.
pub open spec fn approval_kind(n_hashes: nat) -> ValidKind {
    if n_hashes > 1 {
        ValidKind::ApprovalCheckingMultipleCandidates
    } else {
        ValidKind::ApprovalChecking
    }
}

/// The valid-vote map after the first `i` approval votes were offered.
pub open spec fn valid_map_after_approvals(
    m0: Map<u128, (ValidKind, u64)>,
    list: Seq<(u32, (Vec<u64>, u64))>,
    env: &CandidateEnvironment,
    expected_hash: u64,
    i: int,
) -> Map<u128, (ValidKind, u64)>
    decreases i,
{
    if i <= 0 {
        m0
    } else {
        let prev = valid_map_after_approvals(m0, list, env, expected_hash, i - 1);
        let v = list[i - 1].0;
        let hashes = list[i - 1].1.0;
        let sig = list[i - 1].1.1;
        if approval_accepted(env, expected_hash, v, hashes@) {
            prev.insert(
                v as u128,
                upgraded_entry(
                    if prev.contains_key(v as u128) {
                        Some(prev[v as u128])
                    } else {
                        None
                    },
                    approval_kind(hashes@.len()),
                    sig,
                ),
            )
        } else {
            prev
        }
    }
}

/// How many of the first `i` approval votes added a previously absent vote.
pub open spec fn imported_approvals_after(
    m0: Map<u128, (ValidKind, u64)>,
    list: Seq<(u32, (Vec<u64>, u64))>,
    env: &CandidateEnvironment,
    expected_hash: u64,
    i: int,
) -> nat
    decreases i,
{
    if i <= 0 {
        0
    } else {
        let v = list[i - 1].0;
        let hashes = list[i - 1].1.0;
        imported_approvals_after(m0, list, env, expected_hash, i - 1) + (if approval_accepted(
            env,
            expected_hash,
            v,
            hashes@,
        ) && !valid_map_after_approvals(m0, list, env, expected_hash, i - 1).contains_key(
            v as u128,
        ) {
            1nat
        } else {
            0nat
        })
    }
}

/// An ongoing statement/vote import.
pub struct ImportResult {
    old_state: CandidateVoteState<()>,
    new_state: CandidateVoteState<CandidateVotes>,
    new_invalid_voters: Vec<u32>,
    imported_invalid_votes: u64,
    imported_valid_votes: u64,
    imported_approval_votes: u64,
}

/// What `import_statements` promises of its result.
pub open spec fn import_described(
    r: &ImportResult,
    prior: &CandidateVoteState<CandidateVotes>,
    env: &CandidateEnvironment,
    stmts: Seq<(SignedDisputeStatement, u32)>,
    now: u64,
) -> bool {
    let eh = prior.spec_votes().candidate_receipt.candidate_hash;
    let n = stmts.len() as int;
    let v0 = prior.spec_votes().valid.spec_raw().as_map();
    let i0 = prior.spec_votes().invalid.as_map();
    &&& r.spec_old_state().spec_own_vote() == prior.spec_own_vote()
    &&& r.spec_old_state().spec_dispute_status() == prior.spec_dispute_status()
    &&& r.spec_old_state().spec_byzantine_threshold_against()
        == prior.spec_byzantine_threshold_against()
    &&& r.spec_new_state().spec_votes().candidate_receipt
        == prior.spec_votes().candidate_receipt
    &&& r.spec_new_state().spec_votes().valid.spec_raw().as_map() == valid_map_after(
        v0,
        stmts,
        env,
        eh,
        n,
    )
    &&& r.spec_new_state().spec_votes().invalid.as_map() == invalid_map_after(i0, stmts, env, eh, n)
    &&& r.spec_new_state().spec_votes().valid.spec_raw().entries().len() == prior.spec_votes(
    ).valid.spec_raw().entries().len() + imported_valid_after(v0, stmts, env, eh, n)
    &&& r.spec_new_state().spec_votes().invalid.entries().len() == prior.spec_votes(
    ).invalid.entries().len() + imported_invalid_after(i0, stmts, env, eh, n)
    &&& r.spec_imported_valid_votes() == imported_valid_after(v0, stmts, env, eh, n)
    &&& r.spec_imported_invalid_votes() == imported_invalid_after(i0, stmts, env, eh, n)
    &&& r.spec_imported_approval_votes() == 0
    &&& r.spec_new_invalid_voters()@ == new_invalid_voters_after(i0, stmts, env, eh, n)
    &&& r.spec_new_invalid_voters()@.no_duplicates()
    &&& state_derived(r.spec_new_state(), env, now)
    &&& r.spec_counts_bounded()
}

/// What `import_approval_votes` promises of its result.
pub open spec fn approvals_described(
    r: &ImportResult,
    prior: &ImportResult,
    env: &CandidateEnvironment,
    list: Seq<(u32, (Vec<u64>, u64))>,
    now: u64,
) -> bool {
    let eh = prior.spec_new_state().spec_votes().candidate_receipt.candidate_hash;
    let v0 = prior.spec_new_state().spec_votes().valid.spec_raw().as_map();
    let n = list.len() as int;
    let fresh = imported_approvals_after(v0, list, env, eh, n);
    &&& r.spec_old_state().spec_own_vote() == prior.spec_old_state().spec_own_vote()
    &&& r.spec_old_state().spec_dispute_status() == prior.spec_old_state().spec_dispute_status()
    &&& r.spec_old_state().spec_byzantine_threshold_against() == prior.spec_old_state(
    ).spec_byzantine_threshold_against()
    &&& r.spec_new_state().spec_votes().candidate_receipt == prior.spec_new_state(
    ).spec_votes().candidate_receipt
    &&& r.spec_new_state().spec_votes().valid.spec_raw().as_map() == valid_map_after_approvals(
        v0,
        list,
        env,
        eh,
        n,
    )
    &&& r.spec_new_state().spec_votes().valid.spec_raw().entries().len() == prior.spec_new_state(
    ).spec_votes().valid.spec_raw().entries().len() + fresh
    &&& r.spec_new_state().spec_votes().invalid == prior.spec_new_state().spec_votes().invalid
    &&& r.spec_imported_valid_votes() == prior.spec_imported_valid_votes() + fresh
    &&& r.spec_imported_invalid_votes() == prior.spec_imported_invalid_votes()
    &&& r.spec_imported_approval_votes() == prior.spec_imported_approval_votes() + fresh
    &&& r.spec_new_invalid_voters() == prior.spec_new_invalid_voters()
    &&& state_derived(r.spec_new_state(), env, now)
}

impl ImportResult {
    /// The imported-vote counters stay far below their type's range.
    pub open spec fn spec_counts_bounded(&self) -> bool {
        &&& self.spec_imported_valid_votes() <= 0x2_0000_0000
        &&& self.spec_imported_invalid_votes() <= 0x2_0000_0000
        &&& self.spec_imported_approval_votes() <= 0x2_0000_0000
    }

    /// The state before the import.
    pub closed spec fn spec_old_state(&self) -> &CandidateVoteState<()> {
        &self.old_state
    }

    /// The state after the import.
    pub closed spec fn spec_new_state(&self) -> &CandidateVoteState<CandidateVotes> {
        &self.new_state
    }

    /// The validators first seen voting invalid in this import.
    pub closed spec fn spec_new_invalid_voters(&self) -> &Vec<u32> {
        &self.new_invalid_voters
    }

    /// Number of fresh valid votes imported.
    pub closed spec fn spec_imported_valid_votes(&self) -> u64 {
        self.imported_valid_votes
    }

    /// Number of fresh invalid votes imported.
    pub closed spec fn spec_imported_invalid_votes(&self) -> u64 {
        self.imported_invalid_votes
    }

    /// Number of fresh approval votes imported.
    pub closed spec fn spec_imported_approval_votes(&self) -> u64 {
        self.imported_approval_votes
    }

    /// Whether anything changed due to the import.
    pub fn votes_changed(&self) -> (r: bool)
        ensures
            r == (self.spec_imported_valid_votes() != 0 || self.spec_imported_invalid_votes()
                != 0),
    {
        self.imported_valid_votes != 0 || self.imported_invalid_votes != 0
    }

    /// Whether the dispute state changed in some way.
    pub fn dispute_state_changed(&self) -> (r: bool)
        ensures
            r == (self.spec_is_freshly_disputed() || self.spec_is_freshly_confirmed()
                || self.spec_is_freshly_concluded_for() || self.spec_is_freshly_concluded_against()),
    {
        self.is_freshly_disputed() || self.is_freshly_confirmed() || self.is_freshly_concluded()
    }

    /// State as it was before the import.
    pub fn old_state(&self) -> (r: &CandidateVoteState<()>)
        ensures
            r == self.spec_old_state(),
    {
        &self.old_state
    }

    /// State after the import.
    pub fn new_state(&self) -> (r: &CandidateVoteState<CandidateVotes>)
        ensures
            r == self.spec_new_state(),
    {
        &self.new_state
    }

    /// New invalid voters encountered during this import.
    pub fn new_invalid_voters(&self) -> (r: &Vec<u32>)
        ensures
            r == self.spec_new_invalid_voters(),
    {
        &self.new_invalid_voters
    }

    /// Number of imported valid votes.
    pub fn imported_valid_votes(&self) -> (r: u64)
        ensures
            r == self.spec_imported_valid_votes(),
    {
        self.imported_valid_votes
    }

    /// Number of imported invalid votes.
    pub fn imported_invalid_votes(&self) -> (r: u64)
        ensures
            r == self.spec_imported_invalid_votes(),
    {
        self.imported_invalid_votes
    }

    /// Number of imported approval votes.
    pub fn imported_approval_votes(&self) -> (r: u64)
        ensures
            r == self.spec_imported_approval_votes(),
    {
        self.imported_approval_votes
    }

    /// A dispute exists now but did not before the import.
    pub open spec fn spec_is_freshly_disputed(&self) -> bool {
        !self.spec_old_state().spec_is_disputed() && self.spec_new_state().spec_is_disputed()
    }

    /// Exec form of `spec_is_freshly_disputed`.
    pub fn is_freshly_disputed(&self) -> (r: bool)
        ensures
            r == self.spec_is_freshly_disputed(),
    {
        !self.old_state.is_disputed() && self.new_state.is_disputed()
    }

    /// The dispute crossed the confirmation threshold in this import.
    pub open spec fn spec_is_freshly_confirmed(&self) -> bool {
        !self.spec_old_state().spec_is_confirmed() && self.spec_new_state().spec_is_confirmed()
    }

    /// Exec form of `spec_is_freshly_confirmed`.
    pub fn is_freshly_confirmed(&self) -> (r: bool)
        ensures
            r == self.spec_is_freshly_confirmed(),
    {
        !self.old_state.is_confirmed() && self.new_state.is_confirmed()
    }

    /// The dispute freshly concluded for the candidate.
    pub open spec fn spec_is_freshly_concluded_for(&self) -> bool {
        !self.spec_old_state().spec_has_concluded_for()
            && self.spec_new_state().spec_has_concluded_for()
    }

    /// Exec form of `spec_is_freshly_concluded_for`.
    pub fn is_freshly_concluded_for(&self) -> (r: bool)
        ensures
            r == self.spec_is_freshly_concluded_for(),
    {
        !self.old_state.has_concluded_for() && self.new_state.has_concluded_for()
    }

    /// The dispute freshly concluded against the candidate.
    pub open spec fn spec_is_freshly_concluded_against(&self) -> bool {
        !self.spec_old_state().spec_has_concluded_against()
            && self.spec_new_state().spec_has_concluded_against()
    }

    /// Exec form of `spec_is_freshly_concluded_against`.
    pub fn is_freshly_concluded_against(&self) -> (r: bool)
        ensures
            r == self.spec_is_freshly_concluded_against(),
    {
        !self.old_state.has_concluded_against() && self.new_state.has_concluded_against()
    }

    /// The dispute freshly concluded in either direction.
    pub fn is_freshly_concluded(&self) -> (r: bool)
        ensures
            r == (self.spec_is_freshly_concluded_for()
                || self.spec_is_freshly_concluded_against()),
    {
        self.is_freshly_concluded_against() || self.is_freshly_concluded_for()
    }

    /// The invalid-vote count crossed the byzantine threshold in this import.
    pub open spec fn spec_has_fresh_byzantine_threshold_against(&self) -> bool {
        !self.spec_old_state().spec_byzantine_threshold_against()
            && self.spec_new_state().spec_byzantine_threshold_against()
    }

    /// Exec form of `spec_has_fresh_byzantine_threshold_against`.
    pub fn has_fresh_byzantine_threshold_against(&self) -> (r: bool)
        ensures
            r == self.spec_has_fresh_byzantine_threshold_against(),
    {
        !self.old_state.byzantine_threshold_against()
            && self.new_state.byzantine_threshold_against()
    }

    /// Merge approval votes into the result, as if they had been part
    /// of the original import; the pre-import state is preserved.
    ///
    /// Approval votes arrive over an internal channel whose signatures
    /// were checked by the approval-voting side; here each vote is
    /// still admitted only if its validator index is known to the
    /// session and its signed candidate list covers this candidate.
    pub fn import_approval_votes(
        self,
        env: &CandidateEnvironment,
        approval_votes: Vec<(u32, (Vec<u64>, u64))>,
        now: u64,
    ) -> (r: Self)
        requires
            self.spec_new_state().spec_votes().wf(),
            self.spec_counts_bounded(),
        ensures
            approvals_described(&r, &self, env, approval_votes@, now),
    {
        let ImportResult {
            old_state,
            new_state,
            new_invalid_voters,
            imported_valid_votes: mut imported_valid_votes,
            imported_invalid_votes,
            imported_approval_votes: mut imported_approval_votes,
        } = self;
        let ghost prior_valid_count = imported_valid_votes;
        let ghost prior_approval_count = imported_approval_votes;
        let CandidateVoteState {
            votes: votes_in,
            own_vote: _,
            dispute_status: _,
            byzantine_threshold_against: _,
        } = new_state;
        let mut votes = votes_in;
        let ghost m0 = votes.valid.spec_raw().as_map();
        let ghost vlen0 = votes.valid.spec_raw().entries().len();
        let ghost receipt0 = votes.candidate_receipt;
        let ghost invalid0 = votes.invalid;

        let expected_candidate_hash = votes.candidate_receipt.hash();
        let ghost list0 = approval_votes@;
        let n_votes = approval_votes.len();
        let mut remaining = approval_votes;
        let mut i: usize = 0;
        proof {
            assert(list0.skip(0) =~= list0);
        }
        while remaining.len() > 0
            invariant
                i + remaining@.len() == list0.len(),
                list0.len() == n_votes,
                remaining@ == list0.skip(i as int),
                votes.wf(),
                votes.candidate_receipt == receipt0,
                expected_candidate_hash == receipt0.candidate_hash,
                votes.invalid == invalid0,
                votes.valid.spec_raw().as_map() == valid_map_after_approvals(
                    m0,
                    list0,
                    env,
                    expected_candidate_hash,
                    i as int,
                ),
                votes.valid.spec_raw().entries().len() == vlen0 + imported_approvals_after(
                    m0,
                    list0,
                    env,
                    expected_candidate_hash,
                    i as int,
                ),
                imported_valid_votes == prior_valid_count + imported_approvals_after(
                    m0,
                    list0,
                    env,
                    expected_candidate_hash,
                    i as int,
                ),
                imported_approval_votes == prior_approval_count + imported_approvals_after(
                    m0,
                    list0,
                    env,
                    expected_candidate_hash,
                    i as int,
                ),
                prior_valid_count <= 0x2_0000_0000,
                prior_approval_count <= 0x2_0000_0000,
                vlen0 <= votes.valid.spec_raw().entries().len(),
            decreases remaining.len(),
        {
            proof {
                assert(list0.skip(i as int)[0] == list0[i as int]);
                assert(list0.skip(i as int).drop_first() =~= list0.skip(i + 1int));
                lemma_vote_map_len_bound(votes.valid.spec_raw());
            }
            let ghost v_g = list0[i as int].0;
            let ghost hashes_g = list0[i as int].1.0;
            let (index, payload) = remaining.remove(0);
            let (candidate_hashes, sig) = payload;
            proof {
                assert(remaining@ =~= list0.skip(i + 1int));
                assert(index == v_g && candidate_hashes == hashes_g);
            }
            let ghost prev_valid = votes.valid.spec_raw().as_map();
            let accepted = (index as usize) < env.validators().len() && crate::util::contains_u64(
                &candidate_hashes,
                expected_candidate_hash,
            );
            proof {
                assert(accepted == approval_accepted(
                    env,
                    expected_candidate_hash,
                    v_g,
                    hashes_g@,
                ));
            }
            if accepted {
                let kind = if candidate_hashes.len() > 1 {
                    ValidKind::ApprovalCheckingMultipleCandidates
                } else {
                    ValidKind::ApprovalChecking
                };
                let ghost was_there = votes.valid.spec_get(index);
                let fresh = votes.valid.insert_vote(index, kind, sig);
                if fresh {
                    imported_valid_votes = imported_valid_votes + 1;
                    imported_approval_votes = imported_approval_votes + 1;
                }
                proof {
                    assert(kind == approval_kind(hashes_g@.len()));
                    assert(prev_valid.contains_key(v_g as u128) == (was_there is Some));
                    if was_there is Some {
                        assert(prev_valid[v_g as u128] == was_there->Some_0);
                    }
                    assert(votes.valid.spec_raw().as_map() =~= prev_valid.insert(
                        v_g as u128,
                        upgraded_entry(
                            if prev_valid.contains_key(v_g as u128) {
                                Some(prev_valid[v_g as u128])
                            } else {
                                None
                            },
                            approval_kind(hashes_g@.len()),
                            sig,
                        ),
                    ));
                    assert(votes.valid.spec_raw().as_map() == valid_map_after_approvals(
                        m0,
                        list0,
                        env,
                        expected_candidate_hash,
                        i + 1int,
                    ));
                }
            }
            i = i + 1;
        }
        proof {
            assert(list0.skip(list0.len() as int) =~= Seq::<(u32, (Vec<u64>, u64))>::empty());
            assert(i == list0.len());
            lemma_vote_map_len_bound(votes.valid.spec_raw());
        }

        let new_state = CandidateVoteState::new(votes, env, now);

        ImportResult {
            old_state,
            new_state,
            new_invalid_voters,
            imported_valid_votes,
            imported_invalid_votes,
            imported_approval_votes,
        }
    }

    /// All done: the updated votes, or `None` when nothing changed.
    pub fn into_updated_votes(self) -> (r: Option<CandidateVotes>)
        ensures
            match r {
                Some(v) => (self.spec_imported_valid_votes() != 0
                    || self.spec_imported_invalid_votes() != 0) && v
                    == *self.spec_new_state().spec_votes(),
                None => self.spec_imported_valid_votes() == 0
                    && self.spec_imported_invalid_votes() == 0,
            },
    {
        if self.votes_changed() {
            let CandidateVoteState { votes, .. } = self.new_state;
            Some(votes)
        } else {
            None
        }
    }
}

} // verus!
