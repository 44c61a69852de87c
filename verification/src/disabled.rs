//! Off-chain disabled validators.
//!
//! A bounded, per-session record of validators who lost disputes. Lost
//! disputes are kept in three prioritized buckets (backers who backed an
//! invalid candidate first, then other voters for invalid, then voters
//! against valid), each a recency-ordered set backed by an LRU map from
//! the `schnellru` crate, so that iteration yields the most recently
//! disabled validators first.

use vstd::prelude::*;

use crate::keymap::VecMap;
use crate::status::DisputeStatus;
use crate::votes::CandidateVotes;

verus! {

/// A recency-ordered set of validator indices, backed by an LRU map of
/// the `schnellru` crate with its `UnlimitedCompact` limiter (Verus
/// cannot take the map type itself in a field, so it is held here
/// behind an opaque struct).
#[verifier::external_body]
pub struct LruSet {
    inner: schnellru::LruMap<u32, (), schnellru::UnlimitedCompact>,
}

/// The keys an LRU set holds, most recently used first. Each key occurs
/// at most once.
pub uninterp spec fn lru_entries(m: &LruSet) -> Seq<u32>;

/// Relies on `schnellru::LruMap::new`: a freshly created map is empty.
#[verifier::external_body]
fn lru_new() -> (r: LruSet)
    ensures
        lru_entries(&r) == Seq::<u32>::empty(),
{
    LruSet { inner: schnellru::LruMap::new(schnellru::UnlimitedCompact) }
}

/// Relies on `schnellru::LruMap::insert` with the `UnlimitedCompact`
/// limiter: the limiter rejects nothing, so the key always becomes the
/// most recently used entry (an allocation failure inside the map is
/// not modelled).
#[verifier::external_body]
fn lru_insert(m: &mut LruSet, k: u32)
    ensures
        lru_entries(final(m)) == seq![k] + lru_entries(old(m)).filter(|x: u32| x != k),
{
    let _ = m.inner.insert(k, ());
}

/// Relies on `schnellru::LruMap::peek`: a lookup that does not promote
/// the entry, so the recency order is unchanged.
#[verifier::external_body]
fn lru_contains(m: &LruSet, k: u32) -> (r: bool)
    ensures
        r == lru_entries(m).contains(k),
{
    m.inner.peek(&k).is_some()
}

/// Relies on `schnellru::LruMap::iter`: yields entries most recently
/// used first.
#[verifier::external_body]
fn lru_keys(m: &LruSet) -> (r: Vec<u32>)
    ensures
        r@ == lru_entries(m),
{
    m.inner.iter().map(|(k, _v)| *k).collect()
}

/// The validators of one session who lost disputes, in three buckets of
/// falling priority.
pub struct LostSessionDisputes {
    backers_for_invalid: LruSet,
    for_invalid: LruSet,
    against_valid: LruSet,
}

impl LostSessionDisputes {
    /// Backers who backed a candidate found invalid, most recent first.
    pub closed spec fn spec_backers(&self) -> Seq<u32> {
        lru_entries(&self.backers_for_invalid)
    }

    /// Other validators who voted for a candidate found invalid.
    pub closed spec fn spec_for_invalid(&self) -> Seq<u32> {
        lru_entries(&self.for_invalid)
    }

    /// Validators who voted against a candidate found valid.
    pub closed spec fn spec_against_valid(&self) -> Seq<u32> {
        lru_entries(&self.against_valid)
    }
}

impl Default for LostSessionDisputes {
    /// Empty buckets.
    fn default() -> (r: Self)
        ensures
            r.spec_backers() == Seq::<u32>::empty(),
            r.spec_for_invalid() == Seq::<u32>::empty(),
            r.spec_against_valid() == Seq::<u32>::empty(),
    {
        LostSessionDisputes {
            backers_for_invalid: lru_new(),
            for_invalid: lru_new(),
            against_valid: lru_new(),
        }
    }
}

/// Validators disabled node-locally for having lost disputes, kept per
/// session.
pub struct OffchainDisabledValidators {
    per_session: VecMap<LostSessionDisputes>,
}

impl OffchainDisabledValidators {
    /// Backers-for-invalid of a session, most recent first.
    pub closed spec fn spec_backers(&self, session: u32) -> Seq<u32> {
        match self.per_session.spec_get(session as u128) {
            Some(l) => l.spec_backers(),
            None => Seq::empty(),
        }
    }

    /// For-invalid voters of a session, most recent first.
    pub closed spec fn spec_for_invalid(&self, session: u32) -> Seq<u32> {
        match self.per_session.spec_get(session as u128) {
            Some(l) => l.spec_for_invalid(),
            None => Seq::empty(),
        }
    }

    /// Against-valid voters of a session, most recent first.
    pub closed spec fn spec_against_valid(&self, session: u32) -> Seq<u32> {
        match self.per_session.spec_get(session as u128) {
            Some(l) => l.spec_against_valid(),
            None => Seq::empty(),
        }
    }

    /// Whether a validator is off-chain disabled in a session.
    pub open spec fn spec_is_disabled(&self, session: u32, validator: u32) -> bool {
        self.spec_backers(session).contains(validator) || self.spec_for_invalid(
            session,
        ).contains(validator) || self.spec_against_valid(session).contains(validator)
    }

    /// Well-formed: the session index is sorted.
    pub closed spec fn wf(&self) -> bool {
        self.per_session.wf()
    }

    /// No validator disabled yet.
    pub fn new() -> (r: Self)
        ensures
            r.wf(),
            forall|s: u32| r.spec_backers(s) == Seq::<u32>::empty(),
            forall|s: u32| r.spec_for_invalid(s) == Seq::<u32>::empty(),
            forall|s: u32| r.spec_against_valid(s) == Seq::<u32>::empty(),
    {
        OffchainDisabledValidators { per_session: VecMap::new() }
    }

    /// Drop all state for sessions before `up_to_excluding`.
    pub fn prune_old(&mut self, up_to_excluding: u32)
        requires
            old(self).wf(),
        ensures
            final(self).wf(),
            forall|s: u32|
                #[trigger] final(self).spec_backers(s) == (if s >= up_to_excluding {
                    old(self).spec_backers(s)
                } else {
                    Seq::<u32>::empty()
                }),
            forall|s: u32|
                #[trigger] final(self).spec_for_invalid(s) == (if s >= up_to_excluding {
                    old(self).spec_for_invalid(s)
                } else {
                    Seq::<u32>::empty()
                }),
            forall|s: u32|
                #[trigger] final(self).spec_against_valid(s) == (if s >= up_to_excluding {
                    old(self).spec_against_valid(s)
                } else {
                    Seq::<u32>::empty()
                }),
    {
        self.per_session.retain_from(up_to_excluding as u128);
    }

    /// Disable a validator who voted for an invalid candidate: the
    /// validator moves to the front of the backers bucket when it
    /// backed the candidate, of the plain for-invalid bucket otherwise.
    pub fn insert_for_invalid(&mut self, session_index: u32, validator_index: u32, is_backer: bool)
        requires
            old(self).wf(),
        ensures
            final(self).wf(),
            final(self).spec_is_disabled(session_index, validator_index),
            is_backer ==> final(self).spec_backers(session_index) == seq![validator_index]
                + old(self).spec_backers(session_index).filter(|x: u32| x != validator_index)
                && final(self).spec_backers(session_index).contains(validator_index)
                && final(self).spec_for_invalid(session_index)
                == old(self).spec_for_invalid(session_index)
                && final(self).spec_against_valid(session_index)
                == old(self).spec_against_valid(session_index),
            !is_backer ==> final(self).spec_for_invalid(session_index) == seq![validator_index]
                + old(self).spec_for_invalid(session_index).filter(|x: u32| x != validator_index)
                && final(self).spec_for_invalid(session_index).contains(validator_index)
                && final(self).spec_backers(session_index)
                == old(self).spec_backers(session_index)
                && final(self).spec_against_valid(session_index)
                == old(self).spec_against_valid(session_index),
            forall|v2: u32|
                v2 != validator_index ==> (final(self).spec_is_disabled(session_index, v2)
                    == old(self).spec_is_disabled(session_index, v2)),
            forall|s2: u32|
                s2 != session_index ==> final(self).spec_backers(s2) == old(self).spec_backers(s2)
                    && final(self).spec_for_invalid(s2) == old(self).spec_for_invalid(s2)
                    && final(self).spec_against_valid(s2) == old(self).spec_against_valid(s2),
            forall|s2: u32, v2: u32|
                old(self).spec_backers(s2).contains(v2) ==> final(self).spec_backers(s2).contains(
                    v2,
                ),
            forall|s2: u32, v2: u32|
                old(self).spec_for_invalid(s2).contains(v2) ==> final(self).spec_for_invalid(
                    s2,
                ).contains(v2),
            forall|s2: u32, v2: u32|
                old(self).spec_against_valid(s2).contains(v2) ==> final(self).spec_against_valid(
                    s2,
                ).contains(v2),
    {
        let key = session_index as u128;
        let mut entry = match self.per_session.remove(key) {
            Some(e) => e,
            None => LostSessionDisputes::default(),
        };
        if is_backer {
            lru_insert(&mut entry.backers_for_invalid, validator_index);
        } else {
            lru_insert(&mut entry.for_invalid, validator_index);
        }
        self.per_session.insert(key, entry);
        proof {
            let k = validator_index;
            if is_backer {
                assert(self.spec_backers(session_index)[0] == k);
                assert(self.spec_backers(session_index).contains(k));
            } else {
                assert(self.spec_for_invalid(session_index)[0] == k);
                assert(self.spec_for_invalid(session_index).contains(k));
            }
            assert forall|v2: u32|
                v2 != validator_index implies self.spec_is_disabled(session_index, v2) == old(
                self,
            ).spec_is_disabled(session_index, v2) by {
                lemma_filter_membership(old(self).spec_backers(session_index), k, v2);
                lemma_filter_membership(old(self).spec_for_invalid(session_index), k, v2);
                lemma_push_front_membership(
                    old(self).spec_backers(session_index).filter(|x: u32| x != k),
                    k,
                    v2,
                );
                lemma_push_front_membership(
                    old(self).spec_for_invalid(session_index).filter(|x: u32| x != k),
                    k,
                    v2,
                );
            }
            assert forall|s2: u32, v2: u32|
                old(self).spec_backers(s2).contains(v2) implies self.spec_backers(s2).contains(
                v2,
            ) by {
                if s2 == session_index && is_backer && v2 != k {
                    lemma_filter_membership(old(self).spec_backers(session_index), k, v2);
                    lemma_push_front_membership(
                        old(self).spec_backers(session_index).filter(|x: u32| x != k),
                        k,
                        v2,
                    );
                }
            }
            assert forall|s2: u32, v2: u32|
                old(self).spec_for_invalid(s2).contains(v2) implies self.spec_for_invalid(
                s2,
            ).contains(v2) by {
                if s2 == session_index && !is_backer && v2 != k {
                    lemma_filter_membership(old(self).spec_for_invalid(session_index), k, v2);
                    lemma_push_front_membership(
                        old(self).spec_for_invalid(session_index).filter(|x: u32| x != k),
                        k,
                        v2,
                    );
                }
            }
        }
    }

    /// Disable a validator who voted against a valid candidate: the
    /// validator moves to the front of the against-valid bucket.
    pub fn insert_against_valid(&mut self, session_index: u32, validator_index: u32)
        requires
            old(self).wf(),
        ensures
            final(self).wf(),
            final(self).spec_is_disabled(session_index, validator_index),
            final(self).spec_against_valid(session_index) == seq![validator_index]
                + old(self).spec_against_valid(session_index).filter(
                |x: u32| x != validator_index,
            ),
            final(self).spec_against_valid(session_index).contains(validator_index),
            final(self).spec_backers(session_index) == old(self).spec_backers(session_index),
            final(self).spec_for_invalid(session_index)
                == old(self).spec_for_invalid(session_index),
            forall|v2: u32|
                v2 != validator_index ==> (final(self).spec_is_disabled(session_index, v2)
                    == old(self).spec_is_disabled(session_index, v2)),
            forall|s2: u32|
                s2 != session_index ==> final(self).spec_backers(s2) == old(self).spec_backers(s2)
                    && final(self).spec_for_invalid(s2) == old(self).spec_for_invalid(s2)
                    && final(self).spec_against_valid(s2) == old(self).spec_against_valid(s2),
            forall|s2: u32, v2: u32|
                old(self).spec_backers(s2).contains(v2) ==> final(self).spec_backers(s2).contains(
                    v2,
                ),
            forall|s2: u32, v2: u32|
                old(self).spec_for_invalid(s2).contains(v2) ==> final(self).spec_for_invalid(
                    s2,
                ).contains(v2),
            forall|s2: u32, v2: u32|
                old(self).spec_against_valid(s2).contains(v2) ==> final(self).spec_against_valid(
                    s2,
                ).contains(v2),
    {
        let key = session_index as u128;
        let mut entry = match self.per_session.remove(key) {
            Some(e) => e,
            None => LostSessionDisputes::default(),
        };
        lru_insert(&mut entry.against_valid, validator_index);
        self.per_session.insert(key, entry);
        proof {
            let k = validator_index;
            assert(self.spec_against_valid(session_index)[0] == k);
            assert(self.spec_against_valid(session_index).contains(k));
            assert forall|v2: u32|
                v2 != validator_index implies self.spec_is_disabled(session_index, v2) == old(
                self,
            ).spec_is_disabled(session_index, v2) by {
                lemma_filter_membership(old(self).spec_against_valid(session_index), k, v2);
                lemma_push_front_membership(
                    old(self).spec_against_valid(session_index).filter(|x: u32| x != k),
                    k,
                    v2,
                );
            }
            assert forall|s2: u32, v2: u32|
                old(self).spec_against_valid(s2).contains(v2) implies self.spec_against_valid(
                s2,
            ).contains(v2) by {
                if s2 == session_index && v2 != k {
                    lemma_filter_membership(old(self).spec_against_valid(session_index), k, v2);
                    lemma_push_front_membership(
                        old(self).spec_against_valid(session_index).filter(|x: u32| x != k),
                        k,
                        v2,
                    );
                }
            }
        }
    }

    /// All off-chain disabled validators of a session: backers for
    /// invalid first, then other voters for invalid, then voters
    /// against valid, each most recently disabled first. May contain a
    /// validator twice, under different buckets.
    pub fn iter(&self, session_index: u32) -> (r: Vec<u32>)
        requires
            self.wf(),
        ensures
            r@ == self.spec_backers(session_index) + self.spec_for_invalid(session_index)
                + self.spec_against_valid(session_index),
    {
        let mut out: Vec<u32>;
        match self.per_session.get(session_index as u128) {
            Some(entry) => {
                out = lru_keys(&entry.backers_for_invalid);
                let mut more = lru_keys(&entry.for_invalid);
                out.append(&mut more);
                let mut last = lru_keys(&entry.against_valid);
                out.append(&mut last);
            },
            None => {
                out = Vec::new();
                proof {
                    assert(self.spec_backers(session_index) + self.spec_for_invalid(session_index)
                        + self.spec_against_valid(session_index) =~= Seq::<u32>::empty());
                }
            },
        }
        out
    }

    /// Whether a validator is off-chain disabled in a session.
    pub fn is_disabled(&self, session_index: u32, validator_index: u32) -> (r: bool)
        requires
            self.wf(),
        ensures
            r == self.spec_is_disabled(session_index, validator_index),
    {
        match self.per_session.get(session_index as u128) {
            Some(entry) => {
                lru_contains(&entry.backers_for_invalid, validator_index) || lru_contains(
                    &entry.for_invalid,
                    validator_index,
                ) || lru_contains(&entry.against_valid, validator_index)
            },
            None => false,
        }
    }
}


/// Whether a validator lost a concluded dispute recorded in the given
/// state: some concluded dispute of session `s` (not before
/// `earliest_session`) has them among its losing voters.
pub open spec fn spec_lost_concluded_dispute(
    disputes: &VecMap<DisputeStatus>,
    candidate_votes: &VecMap<CandidateVotes>,
    earliest_session: u32,
    s: u32,
    v: u32,
) -> bool {
    exists|i: int|
        {
            &&& 0 <= i < disputes.entries().len()
            &&& {
                let k = (#[trigger] disputes.entries()[i]).0;
                let status = disputes.entries()[i].1;
                &&& k / 0x1_0000_0000_0000_0000 == s as u128
                &&& s >= earliest_session
                &&& status.spec_concluded_at() is Some
                &&& match candidate_votes.spec_get(k) {
                    Some(votes) => (status.spec_concluded_for() is Some && votes.invalid.has_key(
                        v as u128,
                    )) || (status.spec_concluded_for() is None
                        && status.spec_concluded_against() is Some
                        && votes.valid.spec_get(v) is Some),
                    None => false,
                }
            }
        }
}

/// Every losing voter of one concluded dispute entry is disabled in
/// the entry's session, in the bucket its vote assigns: invalid voters
/// of a dispute concluded for the candidate land in the against-valid
/// bucket; valid voters of one concluded against land in the backers
/// or the plain for-invalid bucket, by their vote kind.
pub open spec fn spec_entry_losers_disabled(
    r: &OffchainDisabledValidators,
    k: u128,
    st: DisputeStatus,
    votes_opt: Option<CandidateVotes>,
    earliest_session: u32,
) -> bool {
    let s = (k / 0x1_0000_0000_0000_0000) as u32;
    (st.spec_concluded_at() is Some && s >= earliest_session) ==> (match votes_opt {
        Some(v) => {
            &&& (st.spec_concluded_for() is Some ==> forall|j: int|
                0 <= j < v.invalid.entries().len() ==> r.spec_against_valid(s).contains(
                    (#[trigger] v.invalid.entries()[j]).0 as u32,
                ))
            &&& ((st.spec_concluded_for() is None && st.spec_concluded_against() is Some)
                ==> forall|j: int|
                    0 <= j < v.valid.spec_raw().entries().len() ==> (if (
                    #[trigger] v.valid.spec_raw().entries()[j]).1.0.spec_is_backing() {
                        r.spec_backers(s).contains(v.valid.spec_raw().entries()[j].0 as u32)
                    } else {
                        r.spec_for_invalid(s).contains(v.valid.spec_raw().entries()[j].0 as u32)
                    }))
        },
        None => true,
    })
}

/// Bucket memberships only grow under the disabling inserts, so an
/// entry whose losers are all disabled stays fully disabled.
proof fn lemma_entry_losers_disabled_monotone(
    before: &OffchainDisabledValidators,
    after: &OffchainDisabledValidators,
    k: u128,
    st: DisputeStatus,
    votes_opt: Option<CandidateVotes>,
    earliest_session: u32,
)
    requires
        spec_entry_losers_disabled(before, k, st, votes_opt, earliest_session),
        forall|s2: u32, v2: u32|
            before.spec_backers(s2).contains(v2) ==> after.spec_backers(s2).contains(v2),
        forall|s2: u32, v2: u32|
            before.spec_for_invalid(s2).contains(v2) ==> after.spec_for_invalid(s2).contains(v2),
        forall|s2: u32, v2: u32|
            before.spec_against_valid(s2).contains(v2) ==> after.spec_against_valid(s2).contains(
                v2,
            ),
    ensures
        spec_entry_losers_disabled(after, k, st, votes_opt, earliest_session),
{
    let s = (k / 0x1_0000_0000_0000_0000) as u32;
    if st.spec_concluded_at() is Some && s >= earliest_session {
        match votes_opt {
            Some(v) => {
                if st.spec_concluded_for() is Some {
                    assert forall|j: int|
                        0 <= j < v.invalid.entries().len() implies after.spec_against_valid(
                        s,
                    ).contains((#[trigger] v.invalid.entries()[j]).0 as u32) by {
                        assert(before.spec_against_valid(s).contains(
                            v.invalid.entries()[j].0 as u32,
                        ));
                    }
                }
                if st.spec_concluded_for() is None && st.spec_concluded_against() is Some {
                    assert forall|j: int|
                        0 <= j < v.valid.spec_raw().entries().len() implies (if (
                        #[trigger] v.valid.spec_raw().entries()[j]).1.0.spec_is_backing() {
                            after.spec_backers(s).contains(v.valid.spec_raw().entries()[j].0 as u32)
                        } else {
                            after.spec_for_invalid(s).contains(
                                v.valid.spec_raw().entries()[j].0 as u32,
                            )
                        }) by {
                        if v.valid.spec_raw().entries()[j].1.0.spec_is_backing() {
                            assert(before.spec_backers(s).contains(
                                v.valid.spec_raw().entries()[j].0 as u32,
                            ));
                        } else {
                            assert(before.spec_for_invalid(s).contains(
                                v.valid.spec_raw().entries()[j].0 as u32,
                            ));
                        }
                    }
                }
            },
            None => {},
        }
    }
}

impl OffchainDisabledValidators {
    /// Rebuild the off-chain disabled set from persisted concluded
    /// disputes at startup: for each dispute concluded for its
    /// candidate (session within the window, votes loadable), every
    /// invalid voter is disabled; for each concluded against, every
    /// valid voter is, backers in their own bucket. Only validators who
    /// lost such a dispute end up disabled.
    pub fn new_from_state(
        disputes: &VecMap<DisputeStatus>,
        candidate_votes: &VecMap<CandidateVotes>,
        earliest_session: u32,
    ) -> (r: Self)
        requires
            disputes.wf(),
            candidate_votes.wf(),
            forall|k: u128| disputes.has_key(k) ==> k / 0x1_0000_0000_0000_0000 <= u32::MAX,
            forall|k: u128|
                #[trigger] candidate_votes.spec_get(k) matches Some(v) ==> v.wf(),
        ensures
            r.wf(),
            forall|s: u32, v: u32|
                #[trigger] r.spec_is_disabled(s, v) ==> spec_lost_concluded_dispute(
                    disputes,
                    candidate_votes,
                    earliest_session,
                    s,
                    v,
                ),
            forall|i: int|
                0 <= i < disputes.entries().len() ==> spec_entry_losers_disabled(
                    &r,
                    (#[trigger] disputes.entries()[i]).0,
                    disputes.entries()[i].1,
                    candidate_votes.spec_get(disputes.entries()[i].0),
                    earliest_session,
                ),
    {
        let mut disabled_validators = OffchainDisabledValidators::new();
        let n = disputes.len();
        let mut i: usize = 0;
        while i < n
            invariant
                i <= n,
                n == disputes.entries().len(),
                disputes.wf(),
                candidate_votes.wf(),
                forall|k: u128| disputes.has_key(k) ==> k / 0x1_0000_0000_0000_0000 <= u32::MAX,
                forall|k: u128|
                    #[trigger] candidate_votes.spec_get(k) matches Some(v) ==> v.wf(),
                disabled_validators.wf(),
                forall|s: u32, v: u32|
                    #[trigger] disabled_validators.spec_is_disabled(s, v)
                        ==> spec_lost_concluded_dispute(
                        disputes,
                        candidate_votes,
                        earliest_session,
                        s,
                        v,
                    ),
                forall|j: int|
                    0 <= j < i ==> spec_entry_losers_disabled(
                        &disabled_validators,
                        (#[trigger] disputes.entries()[j]).0,
                        disputes.entries()[j].1,
                        candidate_votes.spec_get(disputes.entries()[j].0),
                        earliest_session,
                    ),
            decreases n - i,
        {
            let k = disputes.key_at(i);
            let status = *disputes.val_at(i);
            proof {
                crate::keymap::lemma_find_at(disputes.entries(), i as int);
                assert(disputes.has_key(k));
                assert(k / 0x1_0000_0000_0000_0000 <= u32::MAX);
            }
            let session = (k / 0x1_0000_0000_0000_0000) as u32;
            if status.concluded_at().is_some() && session >= earliest_session {
                match candidate_votes.get(k) {
                    Some(votes) => {
                        if status.has_concluded_for() {
                            let m = votes.invalid.len();
                            let mut j: usize = 0;
                            while j < m
                                invariant
                                    j <= m,
                                    0 <= i < disputes.entries().len(),
                                    m == votes.invalid.entries().len(),
                                    votes.wf(),
                                    disputes.wf(),
                                    candidate_votes.wf(),
                                    disabled_validators.wf(),
                                    k == disputes.entries()[i as int].0,
                                    status == disputes.entries()[i as int].1,
                                    candidate_votes.spec_get(k) == Some(*votes),
                                    status.spec_concluded_at() is Some,
                                    status.spec_concluded_for() is Some,
                                    session as u128 == k / 0x1_0000_0000_0000_0000,
                                    session >= earliest_session,
                                    forall|s: u32, v: u32|
                                        #[trigger] disabled_validators.spec_is_disabled(s, v)
                                            ==> spec_lost_concluded_dispute(
                                            disputes,
                                            candidate_votes,
                                            earliest_session,
                                            s,
                                            v,
                                        ),
                                    forall|j0: int|
                                        0 <= j0 < i ==> spec_entry_losers_disabled(
                                            &disabled_validators,
                                            (#[trigger] disputes.entries()[j0]).0,
                                            disputes.entries()[j0].1,
                                            candidate_votes.spec_get(disputes.entries()[j0].0),
                                            earliest_session,
                                        ),
                                    forall|j2: int|
                                        0 <= j2 < j
                                            ==> disabled_validators.spec_against_valid(
                                            session,
                                        ).contains(
                                            (#[trigger] votes.invalid.entries()[j2]).0 as u32,
                                        ),
                                decreases m - j,
                            {
                                let vk = votes.invalid.key_at(j);
                                proof {
                                    crate::keymap::lemma_find_at(votes.invalid.entries(), j as int);
                                    assert(votes.invalid.has_key(vk));
                                    assert(vk < 0x1_0000_0000);
                                }
                                let ghost before = disabled_validators;
                                disabled_validators.insert_against_valid(session, vk as u32);
                                proof {
                                    assert(spec_lost_concluded_dispute(
                                        disputes,
                                        candidate_votes,
                                        earliest_session,
                                        session,
                                        vk as u32,
                                    ));
                                    assert forall|s: u32, v: u32|
                                        #[trigger] disabled_validators.spec_is_disabled(s, v)
                                            implies spec_lost_concluded_dispute(
                                        disputes,
                                        candidate_votes,
                                        earliest_session,
                                        s,
                                        v,
                                    ) by {
                                        if !(s == session && v == vk as u32) {
                                            assert(before.spec_is_disabled(s, v)
                                                == disabled_validators.spec_is_disabled(s, v));
                                        }
                                    }
                                    assert forall|j0: int|
                                        0 <= j0 < i implies spec_entry_losers_disabled(
                                        &disabled_validators,
                                        (#[trigger] disputes.entries()[j0]).0,
                                        disputes.entries()[j0].1,
                                        candidate_votes.spec_get(disputes.entries()[j0].0),
                                        earliest_session,
                                    ) by {
                                        lemma_entry_losers_disabled_monotone(
                                            &before,
                                            &disabled_validators,
                                            disputes.entries()[j0].0,
                                            disputes.entries()[j0].1,
                                            candidate_votes.spec_get(disputes.entries()[j0].0),
                                            earliest_session,
                                        );
                                    }
                                }
                                j = j + 1;
                            }
                        } else if status.has_concluded_against() {
                            let valid_raw = votes.valid.raw();
                            let m = valid_raw.len();
                            let mut j: usize = 0;
                            while j < m
                                invariant
                                    j <= m,
                                    0 <= i < disputes.entries().len(),
                                    valid_raw == votes.valid.spec_raw(),
                                    m == valid_raw.entries().len(),
                                    votes.wf(),
                                    disputes.wf(),
                                    candidate_votes.wf(),
                                    disabled_validators.wf(),
                                    k == disputes.entries()[i as int].0,
                                    status == disputes.entries()[i as int].1,
                                    candidate_votes.spec_get(k) == Some(*votes),
                                    status.spec_concluded_at() is Some,
                                    status.spec_concluded_for() is None,
                                    status.spec_concluded_against() is Some,
                                    session as u128 == k / 0x1_0000_0000_0000_0000,
                                    session >= earliest_session,
                                    forall|s: u32, v: u32|
                                        #[trigger] disabled_validators.spec_is_disabled(s, v)
                                            ==> spec_lost_concluded_dispute(
                                            disputes,
                                            candidate_votes,
                                            earliest_session,
                                            s,
                                            v,
                                        ),
                                    forall|j0: int|
                                        0 <= j0 < i ==> spec_entry_losers_disabled(
                                            &disabled_validators,
                                            (#[trigger] disputes.entries()[j0]).0,
                                            disputes.entries()[j0].1,
                                            candidate_votes.spec_get(disputes.entries()[j0].0),
                                            earliest_session,
                                        ),
                                    forall|j2: int|
                                        0 <= j2 < j ==> (if (
                                        #[trigger] valid_raw.entries()[j2]).1.0.spec_is_backing() {
                                            disabled_validators.spec_backers(session).contains(
                                                valid_raw.entries()[j2].0 as u32,
                                            )
                                        } else {
                                            disabled_validators.spec_for_invalid(
                                                session,
                                            ).contains(valid_raw.entries()[j2].0 as u32)
                                        }),
                                decreases m - j,
                            {
                                let vk = valid_raw.key_at(j);
                                let is_backer = valid_raw.val_at(j).0.is_backing();
                                proof {
                                    crate::keymap::lemma_find_at(valid_raw.entries(), j as int);
                                    assert(valid_raw.has_key(vk));
                                    assert(vk < 0x1_0000_0000);
                                }
                                let ghost before = disabled_validators;
                                disabled_validators.insert_for_invalid(
                                    session,
                                    vk as u32,
                                    is_backer,
                                );
                                proof {
                                    assert(votes.valid.spec_get(vk as u32) is Some);
                                    assert(spec_lost_concluded_dispute(
                                        disputes,
                                        candidate_votes,
                                        earliest_session,
                                        session,
                                        vk as u32,
                                    ));
                                    assert forall|s: u32, v: u32|
                                        #[trigger] disabled_validators.spec_is_disabled(s, v)
                                            implies spec_lost_concluded_dispute(
                                        disputes,
                                        candidate_votes,
                                        earliest_session,
                                        s,
                                        v,
                                    ) by {
                                        if !(s == session && v == vk as u32) {
                                            assert(before.spec_is_disabled(s, v)
                                                == disabled_validators.spec_is_disabled(s, v));
                                        }
                                    }
                                    assert forall|j0: int|
                                        0 <= j0 < i implies spec_entry_losers_disabled(
                                        &disabled_validators,
                                        (#[trigger] disputes.entries()[j0]).0,
                                        disputes.entries()[j0].1,
                                        candidate_votes.spec_get(disputes.entries()[j0].0),
                                        earliest_session,
                                    ) by {
                                        lemma_entry_losers_disabled_monotone(
                                            &before,
                                            &disabled_validators,
                                            disputes.entries()[j0].0,
                                            disputes.entries()[j0].1,
                                            candidate_votes.spec_get(disputes.entries()[j0].0),
                                            earliest_session,
                                        );
                                    }
                                }
                                j = j + 1;
                            }
                        }
                    },
                    None => {},
                }
            }
            proof {
                assert(spec_entry_losers_disabled(
                    &disabled_validators,
                    k,
                    status,
                    candidate_votes.spec_get(k),
                    earliest_session,
                ));
                assert forall|j0: int|
                    0 <= j0 < i + 1 implies spec_entry_losers_disabled(
                    &disabled_validators,
                    (#[trigger] disputes.entries()[j0]).0,
                    disputes.entries()[j0].1,
                    candidate_votes.spec_get(disputes.entries()[j0].0),
                    earliest_session,
                ) by {
                    if j0 == i {
                        assert(disputes.entries()[j0].0 == k);
                    }
                }
            }
            i = i + 1;
        }
        disabled_validators
    }
}

/// Membership in a sequence with one key put in front.
proof fn lemma_push_front_membership(s: Seq<u32>, k: u32, v2: u32)
    ensures
        (seq![k] + s).contains(v2) == (v2 == k || s.contains(v2)),
{
    let c = seq![k] + s;
    if v2 == k {
        assert(c[0] == v2);
        assert(c.contains(v2));
    }
    if s.contains(v2) {
        let j = choose|j: int| 0 <= j < s.len() && (#[trigger] s[j]) == v2;
        assert(c[j + 1] == v2);
        assert(c.contains(v2));
    }
    if c.contains(v2) && v2 != k {
        let j = choose|j: int| 0 <= j < c.len() && (#[trigger] c[j]) == v2;
        assert(j > 0);
        assert(s[j - 1] == v2);
        assert(s.contains(v2));
    }
}

/// Membership in a filtered recency sequence, one key at a time.
proof fn lemma_filter_membership(s: Seq<u32>, k: u32, v2: u32)
    requires
        v2 != k,
    ensures
        s.filter(|x: u32| x != k).contains(v2) == s.contains(v2),
    decreases s.len(),
{
    reveal(Seq::filter);
    if s.len() > 0 {
        lemma_filter_membership(s.drop_last(), k, v2);
        if s.filter(|x: u32| x != k).contains(v2) {
            if s.last() != v2 {
                let f = s.filter(|x: u32| x != k);
                let fd = s.drop_last().filter(|x: u32| x != k);
                assert(f.contains(v2));
                if s.last() != k {
                    assert(f == fd.push(s.last()));
                    let j = choose|j: int| 0 <= j < f.len() && f[j] == v2;
                    assert(j < f.len() - 1);
                    assert(fd[j] == v2);
                    assert(fd.contains(v2));
                } else {
                    assert(f == fd);
                }
                assert(s.drop_last().contains(v2));
                let j2 = choose|j2: int|
                    0 <= j2 < s.drop_last().len() && (#[trigger] s.drop_last()[j2]) == v2;
                assert(s[j2] == v2);
            }
            assert(s.contains(v2));
        }
        if s.contains(v2) {
            let j = choose|j: int| 0 <= j < s.len() && (#[trigger] s[j]) == v2;
            if j < s.len() - 1 {
                assert(s.drop_last()[j] == v2);
                assert(s.drop_last().contains(v2));
                let fd = s.drop_last().filter(|x: u32| x != k);
                assert(fd.contains(v2));
                let f = s.filter(|x: u32| x != k);
                if s.last() != k {
                    assert(f == fd.push(s.last()));
                    let j3 = choose|j3: int| 0 <= j3 < fd.len() && (#[trigger] fd[j3]) == v2;
                    assert(f[j3] == v2);
                } else {
                    assert(f == fd);
                }
                assert(f.contains(v2));
            } else {
                assert(s.last() == v2);
                let f = s.filter(|x: u32| x != k);
                let fd = s.drop_last().filter(|x: u32| x != k);
                assert(f == fd.push(v2));
                assert(f[f.len() - 1] == v2);
                assert(f.contains(v2));
            }
        }
    }
}

} // verus!
