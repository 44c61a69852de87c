//! Global laws of the vote-import engine.
//!
//! These proof functions state, once and for all inputs, the safety
//! properties the quorum arithmetic is meant to give: a confirmed
//! dispute is a dispute, a dispute cannot conclude both ways while each
//! validator votes on at most one side, and re-importing a statement
//! never counts as a fresh vote.

use vstd::prelude::*;

use crate::environment::CandidateEnvironment;
use crate::import::{
    imported_valid_after, invalid_map_after, state_derived, stmt_accepted, valid_map_after,
    CandidateVoteState,
};
use crate::keymap::lemma_find_at;
use crate::quorum;
use crate::votes::{CandidateVotes, SignedDisputeStatement, ValidKind};

verus! {

/// A set of `u128` keys below `n` has at most `n` members.
proof fn lemma_key_range_set(n: nat)
    requires
        n <= u128::MAX,
    ensures
        (Set::new(|k: u128| (k as nat) < n)).finite(),
        (Set::new(|k: u128| (k as nat) < n)).len() == n,
    decreases n,
{
    if n == 0 {
        assert(Set::new(|k: u128| (k as nat) < n) =~= Set::<u128>::empty());
    } else {
        lemma_key_range_set((n - 1) as nat);
        assert(Set::new(|k: u128| (k as nat) < n) =~= Set::new(
            |k: u128| (k as nat) < (n - 1) as nat,
        ).insert(((n - 1) as nat) as u128));
    }
}

/// Distinct voters on distinct sides cannot outnumber the validators:
/// with both key sequences strictly sorted, mutually disjoint and all
/// below `n`, their lengths sum to at most `n`.
proof fn lemma_disjoint_key_len_bound(
    a: Seq<(u128, (ValidKind, u64))>,
    b: Seq<(u128, (crate::votes::InvalidKind, u64))>,
    n: nat,
)
    requires
        n <= u128::MAX,
        crate::keymap::seq_sorted(a),
        crate::keymap::seq_sorted(b),
        forall|i: int| 0 <= i < a.len() ==> ((#[trigger] a[i]).0 as nat) < n,
        forall|i: int| 0 <= i < b.len() ==> ((#[trigger] b[i]).0 as nat) < n,
        forall|i: int, j: int| 0 <= i < a.len() && 0 <= j < b.len() ==> a[i].0 != b[j].0,
    ensures
        a.len() + b.len() <= n,
{
    let keys = crate::keymap::seq_keys(a) + crate::keymap::seq_keys(b);
    assert(keys.len() == a.len() + b.len());
    assert(keys.no_duplicates()) by {
        assert forall|i: int, j: int|
            0 <= i < keys.len() && 0 <= j < keys.len() && i != j implies keys[i] != keys[j] by {
            let la = a.len() as int;
            if i < la && j < la {
                assert(keys[i] == a[i].0 && keys[j] == a[j].0);
            } else if i >= la && j >= la {
                assert(keys[i] == b[i - la].0 && keys[j] == b[j - la].0);
            } else if i < la {
                assert(keys[i] == a[i].0 && keys[j] == b[j - la].0);
            } else {
                assert(keys[i] == b[i - la].0 && keys[j] == a[j].0);
            }
        }
    }
    keys.unique_seq_to_set();
    let range = Set::new(|k: u128| (k as nat) < n);
    lemma_key_range_set(n);
    assert(keys.to_set().subset_of(range)) by {
        assert forall|k: u128| keys.to_set().contains(k) implies range.contains(k) by {
            let i = choose|i: int| 0 <= i < keys.len() && (#[trigger] keys[i]) == k;
            if i < a.len() {
                assert(keys[i] == a[i].0);
            } else {
                assert(keys[i] == b[i - a.len()].0);
            }
        }
    }
    vstd::set_lib::lemma_len_subset(keys.to_set(), range);
}

/// A confirmed dispute is a dispute: whenever the state reports the
/// dispute as confirmed, it also reports it as ongoing.
pub proof fn lemma_confirmed_implies_disputed<V>(st: &CandidateVoteState<V>)
    ensures
        st.spec_is_confirmed() ==> st.spec_is_disputed(),
{
}

/// A dispute never concludes both ways at once: in a state derived from
/// its votes, if every validator voted on at most one side and every
/// voter is a validator of the session, the valid and the invalid side
/// cannot both hold a supermajority.
pub proof fn lemma_no_double_conclusion(
    st: &CandidateVoteState<CandidateVotes>,
    env: &CandidateEnvironment,
    now: u64,
)
    requires
        state_derived(st, env, now),
        env.spec_validators().len() >= 1,
        env.spec_validators().len() <= u128::MAX,
        forall|k: u128|
            !(st.spec_votes().valid.spec_raw().has_key(k) && st.spec_votes().invalid.has_key(k)),
        forall|k: u128|
            st.spec_votes().valid.spec_raw().has_key(k) ==> (k as nat)
                < env.spec_validators().len(),
        forall|k: u128|
            st.spec_votes().invalid.has_key(k) ==> (k as nat) < env.spec_validators().len(),
    ensures
        !(st.spec_has_concluded_for() && st.spec_has_concluded_against()),
{
    let n = env.spec_validators().len();
    let votes = st.spec_votes();
    let a = votes.valid.spec_raw().entries();
    let b = votes.invalid.entries();
    if st.spec_has_concluded_for() && st.spec_has_concluded_against() {
        assert(a.len() >= quorum::spec_supermajority_threshold(n));
        assert(b.len() >= quorum::spec_supermajority_threshold(n));
        quorum::lemma_two_supermajorities_overlap(n);
        assert(forall|i: int| 0 <= i < a.len() ==> ((#[trigger] a[i]).0 as nat) < n) by {
            assert forall|i: int| 0 <= i < a.len() implies ((#[trigger] a[i]).0 as nat) < n by {
                lemma_find_at(a, i);
                assert(votes.valid.spec_raw().has_key(a[i].0));
            }
        }
        assert(forall|i: int| 0 <= i < b.len() ==> ((#[trigger] b[i]).0 as nat) < n) by {
            assert forall|i: int| 0 <= i < b.len() implies ((#[trigger] b[i]).0 as nat) < n by {
                lemma_find_at(b, i);
                assert(votes.invalid.has_key(b[i].0));
            }
        }
        assert(forall|i: int, j: int|
            0 <= i < a.len() && 0 <= j < b.len() ==> a[i].0 != b[j].0) by {
            assert forall|i: int, j: int|
                0 <= i < a.len() && 0 <= j < b.len() implies a[i].0 != b[j].0 by {
                lemma_find_at(a, i);
                lemma_find_at(b, j);
                assert(votes.valid.spec_raw().has_key(a[i].0));
                assert(votes.invalid.has_key(b[j].0));
            }
        }
        lemma_disjoint_key_len_bound(a, b, n);
        assert(false);
    }
}

/// Importing a statement a validator has not voted with yet counts one
/// fresh valid vote and stores the vote.
pub proof fn lemma_first_import_counts(
    m0: Map<u128, (ValidKind, u64)>,
    stmt: SignedDisputeStatement,
    v: u32,
    env: &CandidateEnvironment,
    expected_hash: u64,
)
    requires
        stmt_accepted(env, expected_hash, stmt, v),
        stmt.statement is Valid,
        !m0.contains_key(v as u128),
    ensures
        imported_valid_after(m0, seq![(stmt, v)], env, expected_hash, 1) == 1,
        valid_map_after(m0, seq![(stmt, v)], env, expected_hash, 1).contains_key(v as u128),
{
    assert(seq![(stmt, v)][0] == (stmt, v));
    assert(imported_valid_after(m0, seq![(stmt, v)], env, expected_hash, 0) == 0);
    assert(valid_map_after(m0, seq![(stmt, v)], env, expected_hash, 0) == m0);
}

/// Importing the same statement again is idempotent: once the validator
/// has a stored valid vote, a further valid statement of theirs counts
/// zero fresh votes. Together with `lemma_first_import_counts` this is
/// the round trip: the first import of a statement counts one, the
/// second counts zero.
pub proof fn lemma_repeated_import_counts_nothing(
    m0: Map<u128, (ValidKind, u64)>,
    stmt: SignedDisputeStatement,
    v: u32,
    env: &CandidateEnvironment,
    expected_hash: u64,
)
    requires
        m0.contains_key(v as u128),
    ensures
        imported_valid_after(m0, seq![(stmt, v)], env, expected_hash, 1) == 0,
        stmt_accepted(env, expected_hash, stmt, v) && stmt.statement is Valid
            ==> valid_map_after(m0, seq![(stmt, v)], env, expected_hash, 1).contains_key(
            v as u128,
        ),
{
    assert(seq![(stmt, v)][0] == (stmt, v));
    assert(imported_valid_after(m0, seq![(stmt, v)], env, expected_hash, 0) == 0);
    assert(valid_map_after(m0, seq![(stmt, v)], env, expected_hash, 0) == m0);
}

/// Importing keeps the valid voters within the session: statements are
/// only accepted for indices the session knows, so when every voter of
/// the starting map is a session validator, so is every voter after
/// any number of imported statements.
pub proof fn lemma_import_keeps_valid_voters_in_session(
    m0: Map<u128, (ValidKind, u64)>,
    stmts: Seq<(SignedDisputeStatement, u32)>,
    env: &CandidateEnvironment,
    expected_hash: u64,
    i: int,
)
    requires
        forall|k: u128|
            m0.contains_key(k) ==> (k as nat) < env.spec_validators().len(),
    ensures
        forall|k: u128|
            valid_map_after(m0, stmts, env, expected_hash, i).contains_key(k) ==> (k as nat)
                < env.spec_validators().len(),
    decreases (if i > 0 {
        i
    } else {
        0
    }),
{
    if i > 0 {
        lemma_import_keeps_valid_voters_in_session(m0, stmts, env, expected_hash, i - 1);
        let prev = valid_map_after(m0, stmts, env, expected_hash, i - 1);
        assert forall|k: u128|
            valid_map_after(m0, stmts, env, expected_hash, i).contains_key(k) implies (k as nat)
            < env.spec_validators().len() by {
            if !prev.contains_key(k) {
                assert(k == stmts[i - 1].1 as u128);
            }
        }
    }
}

/// The same for the invalid voters.
pub proof fn lemma_import_keeps_invalid_voters_in_session(
    m0: Map<u128, (crate::votes::InvalidKind, u64)>,
    stmts: Seq<(SignedDisputeStatement, u32)>,
    env: &CandidateEnvironment,
    expected_hash: u64,
    i: int,
)
    requires
        forall|k: u128|
            m0.contains_key(k) ==> (k as nat) < env.spec_validators().len(),
    ensures
        forall|k: u128|
            invalid_map_after(m0, stmts, env, expected_hash, i).contains_key(k) ==> (k as nat)
                < env.spec_validators().len(),
    decreases (if i > 0 {
        i
    } else {
        0
    }),
{
    if i > 0 {
        lemma_import_keeps_invalid_voters_in_session(m0, stmts, env, expected_hash, i - 1);
        let prev = invalid_map_after(m0, stmts, env, expected_hash, i - 1);
        assert forall|k: u128|
            invalid_map_after(m0, stmts, env, expected_hash, i).contains_key(k) implies (k
            as nat) < env.spec_validators().len() by {
            if !prev.contains_key(k) {
                assert(k == stmts[i - 1].1 as u128);
            }
        }
    }
}

} // verus!
