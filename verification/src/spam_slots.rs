//! Spam slot accounting.
//!
//! Bounds, per session and validator, how many unconfirmed disputes a
//! validator may raise. A slot is taken when a validator's invalid vote
//! arrives for a candidate that is neither backed, included, confirmed
//! nor voted on by us, and is released only when the candidate leaves
//! that state or the session is pruned.

use vstd::prelude::*;

use crate::keymap::{
    lemma_session_validator_key_injective, session_candidate_key, session_validator_key,
    spec_session_candidate_key, spec_session_validator_key, VecMap,
};

verus! {

/// Maximum number of unconfirmed disputes a validator may raise per session.
pub const MAX_SPAM_VOTES: u32 = 50;

/// Unconfirmed-dispute budgets per (session, validator), and the voters
/// tracked per (session, candidate).
pub struct SpamSlots {
    slots: VecMap<u32>,
    unconfirmed: VecMap<Vec<u32>>,
}

impl SpamSlots {
    /// Well-formed: sorted maps, and no validator tracked twice for one candidate.
    pub closed spec fn wf(&self) -> bool {
        &&& self.slots.wf()
        &&& self.unconfirmed.wf()
        &&& forall|k: u128|
            #[trigger] self.unconfirmed.spec_get(k) matches Some(voters)
                ==> voters@.no_duplicates()
    }

    /// The unconfirmed-dispute count of a validator in a session.
    pub closed spec fn spec_count(&self, session: u32, validator: u32) -> nat {
        match self.slots.spec_get(spec_session_validator_key(session, validator)) {
            Some(c) => c as nat,
            None => 0,
        }
    }

    /// The validators whose invalid vote for a candidate took a slot.
    pub closed spec fn spec_tracked(&self, session: u32, candidate: u64) -> Seq<u32> {
        match self.unconfirmed.spec_get(spec_session_candidate_key(session, candidate)) {
            Some(voters) => voters@,
            None => Seq::empty(),
        }
    }

    /// An empty accounting.
    pub fn new() -> (r: Self)
        ensures
            r.wf(),
            forall|s: u32, v: u32| r.spec_count(s, v) == 0,
            forall|s: u32, c: u64| r.spec_tracked(s, c) == Seq::<u32>::empty(),
    {
        SpamSlots { slots: VecMap::new(), unconfirmed: VecMap::new() }
    }

    /// Account an unconfirmed dispute raised by `validator` against
    /// `candidate`. Returns whether the validator had a slot free; when
    /// it had none, nothing is recorded.
    pub fn add_unconfirmed(&mut self, session: u32, candidate: u64, validator: u32) -> (r: bool)
        requires
            old(self).wf(),
        ensures
            final(self).wf(),
            r == (old(self).spec_count(session, validator) < MAX_SPAM_VOTES),
            !r ==> *final(self) == *old(self),
            r ==> final(self).spec_tracked(session, candidate) == (if old(self).spec_tracked(
                session,
                candidate,
            ).contains(validator) {
                old(self).spec_tracked(session, candidate)
            } else {
                old(self).spec_tracked(session, candidate).push(validator)
            }),
            r ==> final(self).spec_count(session, validator) == old(self).spec_count(
                session,
                validator,
            ) + (if old(self).spec_tracked(session, candidate).contains(validator) {
                0int
            } else {
                1int
            }),
            forall|s2: u32, v2: u32|
                !(s2 == session && v2 == validator) ==> final(self).spec_count(s2, v2) == old(
                    self,
                ).spec_count(s2, v2),
            forall|s2: u32, c2: u64|
                !(s2 == session && c2 == candidate) ==> final(self).spec_tracked(s2, c2) == old(
                    self,
                ).spec_tracked(s2, c2),
    {
        let slot_key = session_validator_key(session, validator);
        let count: u32 = match self.slots.get(slot_key) {
            Some(c) => *c,
            None => 0,
        };
        if count >= MAX_SPAM_VOTES {
            return false;
        }
        let unconfirmed_key = session_candidate_key(session, candidate);
        let mut voters: Vec<u32> = match self.unconfirmed.remove(unconfirmed_key) {
            Some(v) => v,
            None => Vec::new(),
        };
        let fresh = !crate::util::contains_u32(&voters, validator);
        if fresh {
            voters.push(validator);
            self.slots.insert(slot_key, count + 1);
        }
        self.unconfirmed.insert(unconfirmed_key, voters);
        proof {
            assert forall|s2: u32, v2: u32|
                !(s2 == session && v2 == validator) implies self.spec_count(s2, v2) == old(
                self,
            ).spec_count(s2, v2) by {
                if spec_session_validator_key(s2, v2) == slot_key {
                    lemma_session_validator_key_injective(s2, v2, session, validator);
                }
            }
            assert forall|s2: u32, c2: u64|
                !(s2 == session && c2 == candidate) implies self.spec_tracked(s2, c2) == old(
                self,
            ).spec_tracked(s2, c2) by {
                if spec_session_candidate_key(s2, c2) == unconfirmed_key {
                    crate::keymap::lemma_session_candidate_key_injective(
                        s2,
                        c2,
                        session,
                        candidate,
                    );
                }
            }
        }
        true
    }

    /// Release the slots a candidate held: it became backed, included,
    /// confirmed, or we voted on it.
    pub fn clear(&mut self, session: u32, candidate: u64) -> (cleared: bool)
        requires
            old(self).wf(),
        ensures
            final(self).wf(),
            cleared == (old(self).spec_tracked(session, candidate).len() > 0),
            final(self).spec_tracked(session, candidate) == Seq::<u32>::empty(),
            forall|s2: u32, c2: u64|
                !(s2 == session && c2 == candidate) ==> final(self).spec_tracked(s2, c2) == old(
                    self,
                ).spec_tracked(s2, c2),
            forall|v2: u32|
                final(self).spec_count(session, v2) == (if old(self).spec_tracked(
                    session,
                    candidate,
                ).contains(v2) {
                    if old(self).spec_count(session, v2) >= 1 {
                        (old(self).spec_count(session, v2) - 1) as nat
                    } else {
                        0nat
                    }
                } else {
                    old(self).spec_count(session, v2)
                }),
            forall|s2: u32, v2: u32|
                s2 != session ==> final(self).spec_count(s2, v2) == old(self).spec_count(s2, v2),
    {
        let unconfirmed_key = session_candidate_key(session, candidate);
        let voters: Vec<u32> = match self.unconfirmed.remove(unconfirmed_key) {
            Some(v) => v,
            None => Vec::new(),
        };
        let ghost voters0 = voters@;
        let ghost mid = *self;
        let n = voters.len();
        let mut i: usize = 0;
        while i < n
            invariant
                i <= n,
                n == voters0.len(),
                voters@ == voters0,
                voters0.no_duplicates(),
                self.wf(),
                self.unconfirmed == mid.unconfirmed,
                forall|v2: u32|
                    voters0.take(i as int).contains(v2) ==> self.spec_count(session, v2) == (
                    if mid.spec_count(session, v2) >= 1 {
                        (mid.spec_count(session, v2) - 1) as nat
                    } else {
                        0nat
                    }),
                forall|v2: u32|
                    !voters0.take(i as int).contains(v2) ==> self.spec_count(session, v2)
                        == mid.spec_count(session, v2),
                forall|s2: u32, v2: u32|
                    s2 != session ==> self.spec_count(s2, v2) == mid.spec_count(s2, v2),
            decreases n - i,
        {
            let v = voters[i];
            let slot_key = session_validator_key(session, v);
            let ghost before = *self;
            match self.slots.remove(slot_key) {
                Some(c) => {
                    if c > 1 {
                        self.slots.insert(slot_key, c - 1);
                    }
                },
                None => {},
            }
            proof {
                assert(voters0.take(i + 1int).drop_last() =~= voters0.take(i as int));
                assert(voters0.take(i + 1int).last() == voters0[i as int]);
                assert forall|s2: u32, v2: u32|
                    !(s2 == session && v2 == v) implies self.spec_count(s2, v2)
                    == before.spec_count(s2, v2) by {
                    if spec_session_validator_key(s2, v2) == slot_key {
                        lemma_session_validator_key_injective(s2, v2, session, v);
                    }
                }
                assert forall|v2: u32| voters0.take(i + 1int).contains(v2) implies
                    self.spec_count(session, v2) == (if mid.spec_count(session, v2) >= 1 {
                    (mid.spec_count(session, v2) - 1) as nat
                } else {
                    0nat
                }) by {
                    if v2 != v {
                        let j = choose|j: int|
                            0 <= j < voters0.take(i + 1int).len() && (#[trigger] voters0.take(
                                i + 1int,
                            )[j]) == v2;
                        assert(voters0.take(i + 1int)[i as int] == v);
                        assert(j < i);
                        assert(voters0.take(i as int)[j] == v2);
                        assert(voters0.take(i as int).contains(v2));
                        assert(before.spec_count(session, v2) == (if mid.spec_count(
                            session,
                            v2,
                        ) >= 1 {
                            (mid.spec_count(session, v2) - 1) as nat
                        } else {
                            0nat
                        }));
                        assert(self.spec_count(session, v2) == before.spec_count(session, v2));
                    } else {
                        assert(!voters0.take(i as int).contains(v)) by {
                            if voters0.take(i as int).contains(v) {
                                let j = choose|j: int|
                                    0 <= j < i && (#[trigger] voters0.take(i as int)[j]) == v;
                                assert(voters0[j] == v && voters0[i as int] == v);
                            }
                        }
                        assert(before.spec_count(session, v) == mid.spec_count(session, v));
                        assert(self.spec_count(session, v) == (if before.spec_count(session, v)
                            >= 1 {
                            (before.spec_count(session, v) - 1) as nat
                        } else {
                            0nat
                        }));
                    }
                }
                assert forall|v2: u32| !voters0.take(i + 1int).contains(v2) implies
                    self.spec_count(session, v2) == mid.spec_count(session, v2) by {
                    assert(voters0.take(i + 1int)[i as int] == v);
                    assert(v2 != v);
                    assert(!voters0.take(i as int).contains(v2)) by {
                        if voters0.take(i as int).contains(v2) {
                            let j = choose|j: int|
                                0 <= j < i && (#[trigger] voters0.take(i as int)[j]) == v2;
                            assert(voters0.take(i + 1int)[j] == v2);
                        }
                    }
                    assert(before.spec_count(session, v2) == mid.spec_count(session, v2));
                    assert(self.spec_count(session, v2) == before.spec_count(session, v2));
                }
            }
            i = i + 1;
        }
        proof {
            assert(voters0.take(n as int) =~= voters0);
            assert(voters0 == old(self).spec_tracked(session, candidate));
            assert forall|v2: u32|
                self.spec_count(session, v2) == (if old(self).spec_tracked(
                    session,
                    candidate,
                ).contains(v2) {
                    if old(self).spec_count(session, v2) >= 1 {
                        (old(self).spec_count(session, v2) - 1) as nat
                    } else {
                        0nat
                    }
                } else {
                    old(self).spec_count(session, v2)
                }) by {
                assert(mid.spec_count(session, v2) == old(self).spec_count(session, v2));
                if old(self).spec_tracked(session, candidate).contains(v2) {
                    assert(voters0.take(n as int).contains(v2));
                } else {
                    assert(!voters0.take(n as int).contains(v2));
                }
            }
            assert forall|s2: u32, v2: u32| s2 != session implies self.spec_count(s2, v2) == old(
                self,
            ).spec_count(s2, v2) by {
                assert(mid.spec_count(s2, v2) == old(self).spec_count(s2, v2));
            }
            assert forall|s2: u32, c2: u64|
                !(s2 == session && c2 == candidate) implies self.spec_tracked(s2, c2) == old(
                self,
            ).spec_tracked(s2, c2) by {
                if spec_session_candidate_key(s2, c2) == unconfirmed_key {
                    crate::keymap::lemma_session_candidate_key_injective(
                        s2,
                        c2,
                        session,
                        candidate,
                    );
                }
            }
        }
        n > 0
    }

    /// Drop all accounting for sessions before `floor`.
    pub fn prune_old(&mut self, floor: u32)
        requires
            old(self).wf(),
        ensures
            final(self).wf(),
            forall|s2: u32, v2: u32|
                final(self).spec_count(s2, v2) == (if s2 >= floor {
                    old(self).spec_count(s2, v2)
                } else {
                    0nat
                }),
            forall|s2: u32, c2: u64|
                final(self).spec_tracked(s2, c2) == (if s2 >= floor {
                    old(self).spec_tracked(s2, c2)
                } else {
                    Seq::<u32>::empty()
                }),
    {
        let slot_floor = session_validator_key(floor, 0);
        let unconfirmed_floor = session_candidate_key(floor, 0);
        self.slots.retain_from(slot_floor);
        self.unconfirmed.retain_from(unconfirmed_floor);
        proof {
            assert forall|s2: u32, v2: u32|
                self.spec_count(s2, v2) == (if s2 >= floor {
                    old(self).spec_count(s2, v2)
                } else {
                    0nat
                }) by {
                crate::keymap::lemma_key_floor(s2, v2, floor);
            }
            assert forall|s2: u32, c2: u64|
                self.spec_tracked(s2, c2) == (if s2 >= floor {
                    old(self).spec_tracked(s2, c2)
                } else {
                    Seq::<u32>::empty()
                }) by {
                crate::keymap::lemma_candidate_key_floor(s2, c2, floor);
            }
        }
    }

    /// The unconfirmed-dispute count of a validator in a session.
    pub fn unconfirmed_count(&self, session: u32, validator: u32) -> (r: u32)
        requires
            self.wf(),
        ensures
            r == self.spec_count(session, validator),
    {
        match self.slots.get(session_validator_key(session, validator)) {
            Some(c) => *c,
            None => 0,
        }
    }
}

} // verus!
