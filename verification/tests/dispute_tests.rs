//! Scenario tests for the vote-import engine.

use dispute_coordinator::coordinator::{
    Coordinator, ImportOutcome, ImportStatementsResult, MaybeCandidateReceipt,
};
use dispute_coordinator::environment::{CandidateEnvironment, SessionInfo};
use dispute_coordinator::coordinator::{
    backing_statements_from_chain, dispute_statements_from_chain, BackingKind, BlockDescription,
    DisputeStatementSet, ScrapedOnChainVotes,
};
use dispute_coordinator::quorum;
use dispute_coordinator::spam_slots::{SpamSlots, MAX_SPAM_VOTES};
use dispute_coordinator::votes::{
    CandidateReceipt, DisputeStatement, InvalidKind, SignedDisputeStatement, ValidKind,
};

/// Ten validators whose public keys are 100 + index.
fn env_10(session: u32) -> CandidateEnvironment {
    let validators: Vec<u64> = (0..10).map(|i| 100 + i as u64).collect();
    CandidateEnvironment::new(
        session,
        SessionInfo { validators },
        7,
        Vec::new(),
        Vec::new(),
        Vec::new(),
    )
}

fn valid_statement(candidate_hash: u64, session: u32, index: u32) -> (SignedDisputeStatement, u32) {
    (
        SignedDisputeStatement {
            statement: DisputeStatement::Valid(ValidKind::Explicit),
            candidate_hash,
            session_index: session,
            validator_public: 100 + index as u64,
            validator_signature: 9000 + index as u64,
        },
        index,
    )
}

fn invalid_statement(candidate_hash: u64, session: u32, index: u32) -> (SignedDisputeStatement, u32)
{
    (
        SignedDisputeStatement {
            statement: DisputeStatement::Invalid(InvalidKind::Explicit),
            candidate_hash,
            session_index: session,
            validator_public: 100 + index as u64,
            validator_signature: 9100 + index as u64,
        },
        index,
    )
}

fn receipt(candidate_hash: u64) -> CandidateReceipt {
    CandidateReceipt { candidate_hash, relay_parent: 5000 + candidate_hash }
}

/// Run an import through the coordinator's three phases, returning the
/// outcome together with the fresh-vote counts of the import.
fn run_import(
    coordinator: &mut Coordinator,
    env: &CandidateEnvironment,
    candidate_hash: u64,
    session: u32,
    statements: Vec<(SignedDisputeStatement, u32)>,
    now: u64,
    is_included: bool,
    is_backed: bool,
) -> (ImportOutcome, (u64, u64)) {
    let state = coordinator
        .load_vote_state(
            env,
            &MaybeCandidateReceipt::Provides(receipt(candidate_hash)),
            session,
            now,
        )
        .unwrap_or_else(|_| panic!("import rejected while loading"));
    let result = state.import_statements(env, statements, now);
    let counts = (result.imported_valid_votes(), result.imported_invalid_votes());
    let outcome = coordinator.finish_import(env, session, result, is_included, is_backed);
    (outcome, counts)
}

#[test]
fn quorum_thresholds_for_ten_validators() {
    assert_eq!(quorum::byzantine_threshold(10), 3);
    assert_eq!(quorum::supermajority_threshold(10), 7);
    assert_eq!(quorum::byzantine_threshold(0), 0);
    assert_eq!(quorum::byzantine_threshold(1), 0);
    assert_eq!(quorum::supermajority_threshold(1), 1);
}

#[test]
fn import_same_statement_twice_counts_once() {
    let env = env_10(1);
    let mut coordinator = Coordinator::new(1, false);
    let (_, _) = run_import(
        &mut coordinator,
        &env,
        77,
        1,
        vec![valid_statement(77, 1, 0)],
        10,
        false,
        true,
    );
    let state = coordinator
        .load_vote_state(&env, &MaybeCandidateReceipt::Provides(receipt(77)), 1, 11)
        .unwrap_or_else(|_| panic!("load failed"));
    let again = state.import_statements(&env, vec![valid_statement(77, 1, 0)], 11);
    assert_eq!(again.imported_valid_votes(), 0);
    assert!(!again.votes_changed());
}

#[test]
fn first_import_counts_one() {
    let env = env_10(1);
    let state = dispute_coordinator::import::CandidateVoteState::new_from_receipt(receipt(7));
    let result = state.import_statements(&env, vec![valid_statement(7, 1, 3)], 5);
    assert_eq!(result.imported_valid_votes(), 1);
    assert_eq!(result.imported_invalid_votes(), 0);
    assert!(result.votes_changed());
}

#[test]
fn four_invalid_and_one_valid_disputes_and_confirms() {
    let env = env_10(1);
    let state = dispute_coordinator::import::CandidateVoteState::new_from_receipt(receipt(9));
    let mut statements = vec![valid_statement(9, 1, 0)];
    for i in 1..5 {
        statements.push(invalid_statement(9, 1, i));
    }
    let result = state.import_statements(&env, statements, 5);
    let new_state = result.new_state();
    // 5 distinct voters > byzantine threshold 3, votes on both sides.
    assert!(new_state.is_disputed());
    assert!(new_state.is_confirmed());
    assert!(!new_state.has_concluded_for());
    assert!(!new_state.has_concluded_against());
}

#[test]
fn one_valid_then_three_invalid_is_confirmed_at_the_boundary() {
    let env = env_10(1);
    let state = dispute_coordinator::import::CandidateVoteState::new_from_receipt(receipt(10));
    let first = state.import_statements(&env, vec![valid_statement(10, 1, 0)], 5);
    assert!(!first.new_state().is_disputed());
    let mut coordinator = Coordinator::new(1, false);
    let (outcome, _) = run_import(
        &mut coordinator,
        &env,
        10,
        1,
        vec![valid_statement(10, 1, 0)],
        5,
        false,
        true,
    );
    assert_eq!(outcome.result, ImportStatementsResult::ValidImport);
    let (outcome2, _) = run_import(
        &mut coordinator,
        &env,
        10,
        1,
        vec![
            invalid_statement(10, 1, 1),
            invalid_statement(10, 1, 2),
            invalid_statement(10, 1, 3),
        ],
        6,
        false,
        true,
    );
    assert_eq!(outcome2.result, ImportStatementsResult::ValidImport);
    let votes = coordinator.query_candidate_votes(1, 10).expect("votes stored");
    // 1 valid + 3 invalid = 4 distinct voters > 3: confirmed.
    assert_eq!(votes.distinct_voters(), 4);
    let state = coordinator
        .load_vote_state(&env, &MaybeCandidateReceipt::Provides(receipt(10)), 1, 7)
        .unwrap_or_else(|_| panic!("load failed"));
    let check = state.import_statements(&env, Vec::new(), 7);
    assert!(check.new_state().is_disputed());
    assert!(check.new_state().is_confirmed());
}

#[test]
fn three_distinct_voters_do_not_confirm() {
    let env = env_10(1);
    let state = dispute_coordinator::import::CandidateVoteState::new_from_receipt(receipt(15));
    let result = state.import_statements(
        &env,
        vec![
            valid_statement(15, 1, 0),
            invalid_statement(15, 1, 1),
            invalid_statement(15, 1, 2),
        ],
        5,
    );
    // Three distinct voters do not exceed the byzantine threshold of
    // three: disputed, but not confirmed.
    assert!(result.new_state().is_disputed());
    assert!(!result.new_state().is_confirmed());
}

#[test]
fn seven_valid_votes_conclude_for() {
    let env = env_10(1);
    let state = dispute_coordinator::import::CandidateVoteState::new_from_receipt(receipt(11));
    let mut statements = Vec::new();
    for i in 0..7 {
        statements.push(valid_statement(11, 1, i));
    }
    statements.push(invalid_statement(11, 1, 8));
    let result = state.import_statements(&env, statements, 5);
    assert!(result.new_state().has_concluded_for());
    assert!(!result.new_state().has_concluded_against());
    assert!(result.is_freshly_concluded_for());
}

#[test]
fn statements_with_wrong_key_candidate_or_session_are_skipped() {
    let env = env_10(1);
    let state = dispute_coordinator::import::CandidateVoteState::new_from_receipt(receipt(12));
    let mut wrong_key = valid_statement(12, 1, 0);
    wrong_key.0.validator_public = 999;
    let wrong_candidate = valid_statement(13, 1, 1);
    let wrong_session = valid_statement(12, 2, 2);
    let mut unknown_index = valid_statement(12, 1, 3);
    unknown_index.1 = 42;
    unknown_index.0.validator_public = 100 + 42;
    let result = state.import_statements(
        &env,
        vec![wrong_key, wrong_candidate, wrong_session, unknown_index],
        5,
    );
    assert_eq!(result.imported_valid_votes(), 0);
    assert!(!result.votes_changed());
}

#[test]
fn approval_votes_merge_into_result() {
    let env = env_10(1);
    let state = dispute_coordinator::import::CandidateVoteState::new_from_receipt(receipt(14));
    let result = state.import_statements(
        &env,
        vec![valid_statement(14, 1, 0), invalid_statement(14, 1, 1)],
        5,
    );
    assert!(result.is_freshly_disputed());
    // Validator 5 signed for two candidates, validator 6 for this one only;
    // validator 7's list does not cover the candidate and is rejected.
    let approvals = vec![
        (5u32, (vec![14u64, 15u64], 777u64)),
        (6u32, (vec![14u64], 778u64)),
        (7u32, (vec![16u64], 779u64)),
    ];
    let merged = result.import_approval_votes(&env, approvals, 6);
    assert_eq!(merged.imported_approval_votes(), 2);
    assert_eq!(merged.imported_valid_votes(), 3);
    assert_eq!(merged.imported_invalid_votes(), 1);
    // The coalesced signature is stored under the coalesced kind, the
    // single-candidate one under the plain approval kind.
    let stored = merged.new_state().votes();
    let coalesced = stored.valid.raw().get(5).expect("vote of validator 5 stored");
    assert_eq!(coalesced.0, ValidKind::ApprovalCheckingMultipleCandidates);
    assert_eq!(coalesced.1, 777);
    let single = stored.valid.raw().get(6).expect("vote of validator 6 stored");
    assert_eq!(single.0, ValidKind::ApprovalChecking);
    let rejected = stored.valid.raw().get(7);
    assert!(rejected.is_none());
}

#[test]
fn spam_slots_reject_the_cap_exceeding_dispute() {
    let mut slots = SpamSlots::new();
    for c in 0..MAX_SPAM_VOTES {
        assert!(slots.add_unconfirmed(1, c as u64, 4));
    }
    // The cap is reached: one more unconfirmed dispute is rejected.
    assert!(!slots.add_unconfirmed(1, 999, 4));
    // Clearing one candidate frees a slot again.
    assert!(slots.clear(1, 0));
    assert!(slots.add_unconfirmed(1, 999, 4));
    // Pruning the session clears everything.
    slots.prune_old(2);
    assert_eq!(slots.unconfirmed_count(1, 4), 0);
}

#[test]
fn coordinator_rejects_spam_beyond_the_slot_cap() {
    let env = env_10(1);
    let mut coordinator = Coordinator::new(1, false);
    // Validator 1 raises disputes against 50 unbacked, non-included
    // candidates: each one is admitted.
    for c in 0..50u64 {
        let hash = 1000 + c;
        let (outcome, _) = run_import(
            &mut coordinator,
            &env,
            hash,
            1,
            vec![valid_statement(hash, 1, 0), invalid_statement(hash, 1, 1)],
            5,
            false,
            false,
        );
        assert_eq!(outcome.result, ImportStatementsResult::ValidImport);
    }
    // The 51st dispute from the same validator is rejected.
    let hash = 2000;
    let (outcome, _) = run_import(
        &mut coordinator,
        &env,
        hash,
        1,
        vec![valid_statement(hash, 1, 0), invalid_statement(hash, 1, 1)],
        5,
        false,
        false,
    );
    assert_eq!(outcome.result, ImportStatementsResult::InvalidImport);
    // Once an earlier candidate becomes backed, its slot is released and
    // the same dispute is admitted.
    let (cleared, _) = run_import(
        &mut coordinator,
        &env,
        1000,
        1,
        Vec::new(),
        6,
        false,
        true,
    );
    assert_eq!(cleared.result, ImportStatementsResult::ValidImport);
    let (retry, _) = run_import(
        &mut coordinator,
        &env,
        hash,
        1,
        vec![valid_statement(hash, 1, 0), invalid_statement(hash, 1, 1)],
        7,
        false,
        false,
    );
    assert_eq!(retry.result, ImportStatementsResult::ValidImport);
}

#[test]
fn participation_requested_for_fresh_disputes() {
    // The node controls validator 9 and has not voted: participation is
    // requested, with priority when the candidate is included.
    let validators: Vec<u64> = (0..10).map(|i| 100 + i as u64).collect();
    let env = CandidateEnvironment::new(
        1,
        SessionInfo { validators },
        7,
        Vec::new(),
        Vec::new(),
        vec![9],
    );
    let mut coordinator = Coordinator::new(1, false);
    let (outcome, _) = run_import(
        &mut coordinator,
        &env,
        21,
        1,
        vec![valid_statement(21, 1, 0), invalid_statement(21, 1, 1)],
        5,
        true,
        true,
    );
    assert_eq!(outcome.result, ImportStatementsResult::ValidImport);
    assert_eq!(outcome.participation, Some(true));
}

#[test]
fn ancient_sessions_are_rejected() {
    let env = env_10(2);
    let coordinator = Coordinator::new(20, false);
    // Window floor is 20 - 5 = 15: session 2 is ancient.
    let loaded = coordinator.load_vote_state(
        &env,
        &MaybeCandidateReceipt::Provides(receipt(30)),
        2,
        5,
    );
    assert!(matches!(loaded, Err(ImportStatementsResult::InvalidImport)));
}

#[test]
fn import_without_receipt_or_stored_votes_is_rejected() {
    let env = env_10(1);
    let coordinator = Coordinator::new(1, false);
    let loaded = coordinator.load_vote_state(
        &env,
        &MaybeCandidateReceipt::AssumeBackingVotePresent(31),
        1,
        5,
    );
    assert!(matches!(loaded, Err(ImportStatementsResult::InvalidImport)));
}

#[test]
fn determine_undisputed_chain_stops_before_disputed_block() {
    let env = env_10(1);
    let mut coordinator = Coordinator::new(1, false);
    // Candidate X gets an active, unconfirmed dispute.
    let (outcome, _) = run_import(
        &mut coordinator,
        &env,
        40,
        1,
        vec![valid_statement(40, 1, 0), invalid_statement(40, 1, 1)],
        5,
        false,
        true,
    );
    assert_eq!(outcome.result, ImportStatementsResult::ValidImport);
    let blocks = vec![
        BlockDescription { block_hash: 0xB1, session: 1, candidates: vec![40] },
        BlockDescription { block_hash: 0xB2, session: 1, candidates: vec![] },
    ];
    // The very first block contains the possibly-invalid candidate:
    // revert to the base.
    assert_eq!(coordinator.determine_undisputed_chain(10, 0xBA5E, blocks), (10, 0xBA5E));
    // Without any dispute in the way, the whole chain stands.
    let clean = vec![
        BlockDescription { block_hash: 0xC1, session: 1, candidates: vec![41] },
        BlockDescription { block_hash: 0xC2, session: 1, candidates: vec![] },
    ];
    assert_eq!(coordinator.determine_undisputed_chain(10, 0xBA5E, clean), (12, 0xC2));
}

#[test]
fn losing_voters_are_disabled_and_spam_disputes_unactivated() {
    let env = env_10(1);
    let mut coordinator = Coordinator::new(1, false);
    // Candidate 50: an unconfirmed dispute whose only invalid voter is
    // validator 2.
    let (outcome, _) = run_import(
        &mut coordinator,
        &env,
        50,
        1,
        vec![valid_statement(50, 1, 0), invalid_statement(50, 1, 2)],
        5,
        false,
        true,
    );
    assert_eq!(outcome.result, ImportStatementsResult::ValidImport);
    assert!(coordinator
        .recent_disputes()
        .iter()
        .any(|(s, c, _)| *s == 1 && *c == 50));
    // Candidate 51: an unrelated dispute concludes for the candidate;
    // its invalid voter (validator 2) loses and is disabled off-chain.
    let mut statements = Vec::new();
    for i in 0..7 {
        statements.push(valid_statement(51, 1, i));
    }
    statements.push(invalid_statement(51, 1, 2));
    let (outcome2, _) = run_import(&mut coordinator, &env, 51, 1, statements, 6, false, true);
    assert_eq!(outcome2.result, ImportStatementsResult::ValidImport);
    assert_eq!(outcome2.newly_disabled_against_valid, vec![2]);
    // The disabling event unactivates candidate 50's dispute, although no
    // new statement about it arrived.
    assert!(!coordinator
        .recent_disputes()
        .iter()
        .any(|(s, c, _)| *s == 1 && *c == 50));
}

#[test]
fn concluding_against_disables_backers_first() {
    let env = env_10(1);
    let mut coordinator = Coordinator::new(1, false);
    let mut statements = Vec::new();
    statements.push((
        SignedDisputeStatement {
            statement: DisputeStatement::Valid(ValidKind::BackingSeconded(5000 + 60)),
            candidate_hash: 60,
            session_index: 1,
            validator_public: 100,
            validator_signature: 9200,
        },
        0,
    ));
    statements.push(valid_statement(60, 1, 1));
    for i in 2..9 {
        statements.push(invalid_statement(60, 1, i));
    }
    let (outcome, _) = run_import(&mut coordinator, &env, 60, 1, statements, 6, false, true);
    assert_eq!(outcome.result, ImportStatementsResult::ValidImport);
    // Both valid voters are disabled; validator 0 voted as a backer.
    assert_eq!(outcome.newly_disabled_for_invalid, vec![(0, true), (1, false)]);
}

#[test]
fn crossing_the_byzantine_threshold_requests_reversion() {
    let env = env_10(1);
    let mut coordinator = Coordinator::new(1, false);
    let mut statements = vec![valid_statement(70, 1, 0)];
    for i in 1..5 {
        statements.push(invalid_statement(70, 1, i));
    }
    // Four invalid votes exceed the byzantine threshold of three.
    let (outcome, _) = run_import(&mut coordinator, &env, 70, 1, statements, 5, true, true);
    assert_eq!(outcome.result, ImportStatementsResult::ValidImport);
    assert!(outcome.request_revert);
    // A further invalid vote does not cross the threshold again.
    let (outcome2, _) = run_import(
        &mut coordinator,
        &env,
        70,
        1,
        vec![invalid_statement(70, 1, 5)],
        6,
        true,
        true,
    );
    assert!(!outcome2.request_revert);
}

#[test]
fn own_approval_vote_is_rebroadcast_when_dispute_arises() {
    // The node controls validator 5, whose approval vote is on record
    // before any dispute exists.
    let validators: Vec<u64> = (0..10).map(|i| 100 + i as u64).collect();
    let env = CandidateEnvironment::new(
        1,
        SessionInfo { validators },
        7,
        Vec::new(),
        Vec::new(),
        vec![5],
    );
    let mut coordinator = Coordinator::new(1, false);
    let approval = (
        SignedDisputeStatement {
            statement: DisputeStatement::Valid(ValidKind::ApprovalChecking),
            candidate_hash: 80,
            session_index: 1,
            validator_public: 105,
            validator_signature: 955,
        },
        5,
    );
    let (outcome, _) = run_import(&mut coordinator, &env, 80, 1, vec![approval], 5, false, true);
    assert_eq!(outcome.result, ImportStatementsResult::ValidImport);
    assert_eq!(outcome.rebroadcast_own_approval, Vec::new());
    // The first invalid vote raises the dispute: the stored approval
    // vote goes out as a dispute statement.
    let (outcome2, _) = run_import(
        &mut coordinator,
        &env,
        80,
        1,
        vec![invalid_statement(80, 1, 1)],
        6,
        false,
        true,
    );
    assert_eq!(outcome2.result, ImportStatementsResult::ValidImport);
    assert_eq!(outcome2.rebroadcast_own_approval, vec![(5, 955)]);
}

#[test]
fn session_update_prunes_state_below_the_window() {
    let env = env_10(1);
    let mut coordinator = Coordinator::new(1, false);
    let (outcome, _) = run_import(
        &mut coordinator,
        &env,
        85,
        1,
        vec![valid_statement(85, 1, 0), invalid_statement(85, 1, 1)],
        5,
        false,
        true,
    );
    assert_eq!(outcome.result, ImportStatementsResult::ValidImport);
    assert_eq!(coordinator.recent_disputes().len(), 1);
    assert!(!coordinator.session_is_ancient(1));
    // A leaf of session 10 moves the window floor to 5; the highest
    // seen session lies below the floor, so fetching starts there.
    assert_eq!(coordinator.session_window_update(10), Some((5, 5)));
    coordinator.apply_session_update(10, false);
    assert!(coordinator.session_is_ancient(4));
    assert!(!coordinator.session_is_ancient(5));
    assert!(coordinator.recent_disputes().is_empty());
    // A leaf of an already-seen session changes nothing.
    assert_eq!(coordinator.session_window_update(10), None);
    // A later leaf without cache gaps only fetches the new sessions.
    assert_eq!(coordinator.session_window_update(12), Some((11, 7)));
}

#[test]
fn backlog_is_drained_in_bounded_batches() {
    let mut coordinator = Coordinator::new(1, false);
    let mut incoming = Vec::new();
    for i in 0..10u32 {
        incoming.push(ScrapedOnChainVotes {
            session: i,
            backing_validators_per_candidate: Vec::new(),
            disputes: Vec::new(),
        });
    }
    let batch = coordinator.take_backlog_batch(incoming);
    assert_eq!(batch.len(), 8);
    assert_eq!(batch[0].session, 0);
    let rest = coordinator.take_backlog_batch(Vec::new());
    assert_eq!(rest.len(), 2);
    assert_eq!(rest[1].session, 9);
    assert_eq!(coordinator.take_backlog_batch(Vec::new()).len(), 0);
}

#[test]
fn chain_statements_skip_unknown_validator_indices() {
    let session_info = SessionInfo { validators: vec![100, 101] };
    let candidate = receipt(95);
    let backers = vec![(0u32, BackingKind::Seconded, 41u64), (7u32, BackingKind::Valid, 42u64)];
    let statements = backing_statements_from_chain(&session_info, 1, &candidate, &backers);
    assert_eq!(statements.len(), 1);
    assert_eq!(statements[0].1, 0);
    assert_eq!(statements[0].0.validator_public, 100);
    assert_eq!(
        statements[0].0.statement,
        DisputeStatement::Valid(ValidKind::BackingSeconded(candidate.relay_parent))
    );
    let set = DisputeStatementSet {
        candidate_hash: 95,
        session: 1,
        statements: vec![
            (DisputeStatement::Invalid(InvalidKind::Explicit), 1, 43),
            (DisputeStatement::Invalid(InvalidKind::Explicit), 9, 44),
        ],
    };
    let converted = dispute_statements_from_chain(&session_info, &set);
    assert_eq!(converted.len(), 1);
    assert_eq!(converted[0].1, 1);
    assert_eq!(converted[0].0.validator_public, 101);
}

#[test]
fn local_statements_planned_only_for_unvoted_controlled_indices() {
    let validators: Vec<u64> = (0..10).map(|i| 100 + i as u64).collect();
    let env = CandidateEnvironment::new(
        1,
        SessionInfo { validators },
        7,
        Vec::new(),
        Vec::new(),
        vec![2, 3],
    );
    let mut coordinator = Coordinator::new(1, false);
    // Nothing stored yet: both controlled indices need a statement.
    assert_eq!(coordinator.plan_local_statements(&env, 97, 1), vec![2, 3]);
    let (outcome, _) = run_import(
        &mut coordinator,
        &env,
        97,
        1,
        vec![valid_statement(97, 1, 2)],
        5,
        false,
        true,
    );
    assert_eq!(outcome.result, ImportStatementsResult::ValidImport);
    // Validator 2 has voted: only validator 3 still needs one.
    assert_eq!(coordinator.plan_local_statements(&env, 97, 1), vec![3]);
}
