//! Tests for the supporting models: dispute status, environments, the
//! off-chain disabling tracker, the pending-execution queue and the
//! message-queue service model.

use dispute_coordinator::disabled::OffchainDisabledValidators;
use dispute_coordinator::environment::{CandidateEnvironment, SessionInfo};
use dispute_coordinator::keymap::VecMap;
use dispute_coordinator::mq::{AhmPrioritizer, MessageQueues};
use dispute_coordinator::pvf::{AwaitingPrepare, PendingExecutionRequest};
use dispute_coordinator::status::DisputeStatus;
use dispute_coordinator::votes::{CandidateReceipt, CandidateVotes, ValidKind};

#[test]
fn status_lattice_keeps_earliest_conclusion() {
    let status = DisputeStatus::active();
    assert!(!status.is_confirmed_concluded());
    assert!(status.is_possibly_invalid());
    assert_eq!(status.concluded_at(), None);
    let status = status.conclude_for(30).conclude_for(20).conclude_for(40);
    assert_eq!(status.concluded_at(), Some(20));
    assert!(status.has_concluded_for());
    assert!(!status.is_possibly_invalid());
    let status = status.confirm();
    assert!(status.is_confirmed_concluded());
    let status = status.conclude_against(15);
    assert!(status.is_possibly_invalid());
    assert_eq!(status.concluded_at(), Some(15));
}

#[test]
fn status_inactivity_starts_after_the_active_window() {
    let status = DisputeStatus::active().conclude_for(100);
    // Concluded at 100: still active up to 280, inactive afterwards.
    assert!(!status.is_inactive(100));
    assert!(!status.is_inactive(280));
    assert!(status.is_inactive(281));
    assert!(!DisputeStatus::active().is_inactive(1_000_000));
}

#[test]
fn disabled_set_combines_onchain_first_and_caps_at_byzantine_threshold() {
    // Ten validators: the byzantine threshold is three.
    let validators: Vec<u64> = (0..10).map(|i| 200 + i as u64).collect();
    let env = CandidateEnvironment::new(
        3,
        SessionInfo { validators },
        0,
        vec![4, 4, 5],
        vec![5, 6, 7, 8],
        vec![1],
    );
    // First occurrences in order, truncated at three entries.
    assert_eq!(env.disabled_indices(), &vec![4, 5, 6]);
    assert!(env.is_disabled(6));
    assert!(!env.is_disabled(7));
    assert_eq!(env.session_index(), 3);
    assert_eq!(env.controlled_indices(), &vec![1]);
    assert_eq!(env.validators().len(), 10);
    assert_eq!(env.session_info().validators[0], 200);
    assert_eq!(env.executor_params(), 0);
}

#[test]
fn offchain_disabling_orders_buckets_and_recency() {
    let mut tracker = OffchainDisabledValidators::new();
    tracker.insert_for_invalid(5, 11, false);
    tracker.insert_for_invalid(5, 10, true);
    tracker.insert_against_valid(5, 12);
    tracker.insert_for_invalid(5, 13, true);
    // Backers for invalid first (most recent first), then other voters
    // for invalid, then voters against valid.
    assert_eq!(tracker.iter(5), vec![13, 10, 11, 12]);
    assert!(tracker.is_disabled(5, 10));
    assert!(tracker.is_disabled(5, 12));
    assert!(!tracker.is_disabled(5, 9));
    assert!(!tracker.is_disabled(4, 10));
    // Re-inserting moves a validator to the front of its bucket.
    tracker.insert_for_invalid(5, 10, true);
    assert_eq!(tracker.iter(5), vec![10, 13, 11, 12]);
    // Pruning drops whole sessions below the floor.
    tracker.prune_old(6);
    assert!(!tracker.is_disabled(5, 10));
    assert_eq!(tracker.iter(5), Vec::<u32>::new());
}

#[test]
fn offchain_disabling_rebuilt_from_concluded_disputes() {
    // Session 2, candidate 90: concluded for; its invalid voter 3 lost.
    // Session 2, candidate 91: concluded against; its valid voter 4
    // (a backer) lost. Session 1 is before the window and is ignored.
    let mut disputes: VecMap<DisputeStatus> = VecMap::new();
    let key_90 = (2u128 << 64) | 90;
    let key_91 = (2u128 << 64) | 91;
    let key_old = (1u128 << 64) | 92;
    disputes.insert(key_90, DisputeStatus::active().conclude_for(10));
    disputes.insert(key_91, DisputeStatus::active().conclude_against(10));
    disputes.insert(key_old, DisputeStatus::active().conclude_for(5));
    let mut store: VecMap<CandidateVotes> = VecMap::new();
    let mut votes_90 = CandidateVotes::new_from_receipt_only(CandidateReceipt {
        candidate_hash: 90,
        relay_parent: 1,
    });
    votes_90.invalid.insert(3, (dispute_coordinator::votes::InvalidKind::Explicit, 71));
    votes_90.invalid.insert(7, (dispute_coordinator::votes::InvalidKind::Explicit, 74));
    let mut votes_91 = CandidateVotes::new_from_receipt_only(CandidateReceipt {
        candidate_hash: 91,
        relay_parent: 1,
    });
    votes_91.valid.insert_vote(4, ValidKind::BackingValid(1), 72);
    let mut votes_old = CandidateVotes::new_from_receipt_only(CandidateReceipt {
        candidate_hash: 92,
        relay_parent: 1,
    });
    votes_old.invalid.insert(5, (dispute_coordinator::votes::InvalidKind::Explicit, 73));
    store.insert(key_90, votes_90);
    store.insert(key_91, votes_91);
    store.insert(key_old, votes_old);
    let tracker = OffchainDisabledValidators::new_from_state(&disputes, &store, 2);
    // Every loser is disabled, not just some.
    assert!(tracker.is_disabled(2, 3));
    assert!(tracker.is_disabled(2, 7));
    assert!(tracker.is_disabled(2, 4));
    assert!(!tracker.is_disabled(1, 5));
    // Backers-for-invalid come first in iteration order, most recently
    // disabled first within a bucket.
    assert_eq!(tracker.iter(2), vec![4, 7, 3]);
}

#[test]
fn awaiting_prepare_hands_requests_out_in_arrival_order() {
    let mut awaiting = AwaitingPrepare::new();
    awaiting.add(8, PendingExecutionRequest { ticket: 1 });
    awaiting.add(8, PendingExecutionRequest { ticket: 2 });
    awaiting.add(9, PendingExecutionRequest { ticket: 3 });
    let taken = awaiting.take(8);
    assert_eq!(
        taken,
        vec![PendingExecutionRequest { ticket: 1 }, PendingExecutionRequest { ticket: 2 }]
    );
    // Taking removes: a second take yields nothing, other artifacts stay.
    assert_eq!(awaiting.take(8), Vec::new());
    assert_eq!(awaiting.take(9), vec![PendingExecutionRequest { ticket: 3 }]);
}

#[test]
fn message_queues_serve_under_the_weight_budget() {
    let mut mq = MessageQueues::new();
    let mut prio = AhmPrioritizer::new();
    mq.enqueue(1, 5);
    mq.enqueue(2, 7);
    mq.enqueue(1, 1);
    assert_eq!(mq.msgs_per_queue(), vec![(1, 6), (2, 7)]);
    assert_eq!(mq.message_count(1), 6);
    assert!(!mq.post_conditions());
    // Process part of the backlog, then all of it.
    mq.process_some_messages(&mut prio, 4);
    assert_eq!(mq.message_count(1), 2);
    let consumed = mq.process_all_messages(&mut prio, 9);
    assert_eq!(consumed, 9);
    assert!(mq.post_conditions());
    assert_eq!(mq.msgs_per_queue(), Vec::new());
}

#[test]
fn next_block_consumes_at_most_the_budget() {
    let mut mq = MessageQueues::new();
    let mut prio = AhmPrioritizer::new();
    mq.enqueue(3, 2);
    mq.set_service_weight(Some(10));
    // Only two messages exist: the block consumes two, not ten.
    assert_eq!(mq.next_block(&mut prio), 2);
    assert!(mq.post_conditions());
    // Without a budget nothing is served.
    mq.enqueue(3, 2);
    mq.set_service_weight(None);
    assert_eq!(mq.next_block(&mut prio), 0);
    assert_eq!(mq.message_count(3), 2);
}

#[test]
fn prioritizer_bumps_the_starved_favourite_queue() {
    let mut mq = MessageQueues::new();
    let mut prio = AhmPrioritizer::new();
    for origin in 0..5u32 {
        mq.enqueue(origin, 10);
    }
    prio.prioritize(4);
    // A streak is scheduled once the queue is starved for over ten
    // blocks; the head is forced while the streak lasts.
    let consumed = prio.on_initialize(20, &mut mq);
    assert_eq!(consumed, 1);
    assert_eq!(prio.streak_until, Some(23));
    assert_eq!(mq.msgs_per_queue()[0], (4, 10));
    // Within the streak window nothing new is scheduled but the head is
    // still forced.
    let consumed = prio.on_initialize(22, &mut mq);
    assert_eq!(consumed, 1);
    // After the streak the queue is left alone.
    let consumed = prio.on_initialize(23, &mut mq);
    assert_eq!(consumed, 0);
    // A prioritizer without a favourite queue does nothing.
    let mut idle = AhmPrioritizer::new();
    assert_eq!(idle.on_initialize(50, &mut mq), 0);
}

#[test]
fn round_robin_serves_across_queues() {
    let mut mq = MessageQueues::new();
    let mut prio = AhmPrioritizer::new();
    mq.enqueue(0, 8);
    mq.enqueue(9, 3);
    mq.set_service_weight(Some(3));
    // Eleven messages under a budget of three per block: four blocks.
    let mut consumed = 0;
    for _ in 0..4 {
        consumed += mq.next_block(&mut prio);
    }
    assert_eq!(consumed, 11);
    assert!(mq.post_conditions());
}
