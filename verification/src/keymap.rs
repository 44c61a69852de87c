//! Ordered association maps over packed integer keys.
//!
//! Vote ledgers, spam slots and the recent-disputes index are all maps
//! with small integer-like keys. `VecMap` keeps its entries in a vector
//! sorted by key, which gives deterministic iteration order and makes
//! the contracts of the containers above easy to state.
//!
//! Composite keys (session paired with a validator index or a candidate
//! hash) are packed into a `u128` so that the natural numeric order is
//! the lexicographic order on the pair.

use vstd::prelude::*;

verus! {

/// Keys of an entry sequence, in entry order.
pub open spec fn seq_keys<V>(s: Seq<(u128, V)>) -> Seq<u128> {
    s.map_values(|e: (u128, V)| e.0)
}

/// Entries are strictly sorted by key (hence keys are unique).
pub open spec fn seq_sorted<V>(s: Seq<(u128, V)>) -> bool {
    forall|i: int, j: int| 0 <= i < j < s.len() ==> s[i].0 < s[j].0
}

/// The value stored under `k`, if any (first occurrence).
pub open spec fn seq_find<V>(s: Seq<(u128, V)>, k: u128) -> Option<V>
    decreases s.len(),
{
    if s.len() == 0 {
        None
    } else if s[0].0 == k {
        Some(s[0].1)
    } else {
        seq_find(s.drop_first(), k)
    }
}

/// Looking a key up is the same after skipping a prefix free of that key.
pub proof fn lemma_find_skip<V>(s: Seq<(u128, V)>, k: u128, i: int)
    requires
        0 <= i <= s.len(),
        forall|j: int| 0 <= j < i ==> s[j].0 != k,
    ensures
        seq_find(s, k) == seq_find(s.subrange(i, s.len() as int), k),
    decreases i,
{
    if i > 0 {
        assert(s.drop_first() =~= s.subrange(1, s.len() as int));
        lemma_find_skip(s.drop_first(), k, i - 1);
        assert(s.drop_first().subrange(i - 1, s.drop_first().len() as int) =~= s.subrange(
            i,
            s.len() as int,
        ));
    } else {
        assert(s.subrange(0, s.len() as int) =~= s);
    }
}

/// A key is found exactly when it occurs among the keys.
pub proof fn lemma_find_contains<V>(s: Seq<(u128, V)>, k: u128)
    ensures
        seq_find(s, k) is Some <==> seq_keys(s).contains(k),
    decreases s.len(),
{
    if s.len() > 0 {
        lemma_find_contains(s.drop_first(), k);
        if s[0].0 != k {
            assert(seq_keys(s).drop_first() =~= seq_keys(s.drop_first()));
            if seq_keys(s).contains(k) {
                let i = choose|i: int| 0 <= i < seq_keys(s).len() && seq_keys(s)[i] == k;
                assert(seq_keys(s.drop_first())[i - 1] == k);
            }
            if seq_keys(s.drop_first()).contains(k) {
                let i = choose|i: int|
                    0 <= i < seq_keys(s.drop_first()).len() && seq_keys(s.drop_first())[i] == k;
                assert(seq_keys(s)[i + 1] == k);
            }
        } else {
            assert(seq_keys(s)[0] == k);
        }
    }
}

/// In a sorted entry sequence, each entry is what lookup of its key returns.
pub proof fn lemma_find_at<V>(s: Seq<(u128, V)>, i: int)
    requires
        seq_sorted(s),
        0 <= i < s.len(),
    ensures
        seq_find(s, s[i].0) == Some(s[i].1),
{
    assert(forall|j: int| 0 <= j < i ==> s[j].0 != s[i].0);
    lemma_find_skip(s, s[i].0, i);
    let tail = s.subrange(i, s.len() as int);
    assert(tail[0] == s[i]);
}

/// In a strictly sorted entry sequence the `i`-th key is at least `i`,
/// so keys below a bound also bound the length.
pub proof fn lemma_sorted_len_bound<V>(s: Seq<(u128, V)>, bound: u128)
    requires
        seq_sorted(s),
        forall|i: int| 0 <= i < s.len() ==> s[i].0 < bound,
    ensures
        s.len() <= bound,
        forall|i: int| 0 <= i < s.len() ==> s[i].0 >= i,
    decreases s.len(),
{
    if s.len() > 0 {
        let sub = s.drop_last();
        lemma_sorted_len_bound(sub, bound);
        assert forall|i: int| 0 <= i < s.len() implies s[i].0 >= i by {
            if i < s.len() - 1 {
                assert(s[i] == sub[i]);
            } else if i > 0 {
                assert(s[i - 1] == sub[i - 1]);
                assert(s[i - 1].0 >= i - 1);
            }
        }
        assert(s[s.len() - 1].0 < bound);
    }
}

/// An association map with strictly sorted `u128` keys.
pub struct VecMap<V> {
    entries: Vec<(u128, V)>,
}

impl<V> VecMap<V> {
    /// The entries, sorted by key.
    pub closed spec fn entries(&self) -> Seq<(u128, V)> {
        self.entries@
    }

    /// Well-formed: entries strictly sorted by key.
    pub open spec fn wf(&self) -> bool {
        seq_sorted(self.entries())
    }

    /// The value under `k`, if any.
    pub open spec fn spec_get(&self, k: u128) -> Option<V> {
        seq_find(self.entries(), k)
    }

    /// Whether `k` has an entry.
    pub open spec fn has_key(&self, k: u128) -> bool {
        self.spec_get(k) is Some
    }

    /// The map's contents as a mathematical map.
    pub open spec fn as_map(&self) -> Map<u128, V> {
        Map::new(|k: u128| self.has_key(k), |k: u128| self.spec_get(k)->Some_0)
    }

    /// An empty map.
    pub fn new() -> (r: Self)
        ensures
            r.wf(),
            r.entries() == Seq::<(u128, V)>::empty(),
    {
        VecMap { entries: Vec::new() }
    }

    /// Number of entries.
    pub fn len(&self) -> (n: usize)
        ensures
            n == self.entries().len(),
    {
        self.entries.len()
    }

    /// The `i`-th smallest key.
    pub fn key_at(&self, i: usize) -> (k: u128)
        requires
            i < self.entries().len(),
        ensures
            k == self.entries()[i as int].0,
    {
        self.entries[i].0
    }

    /// The value stored under the `i`-th smallest key.
    pub fn val_at(&self, i: usize) -> (v: &V)
        requires
            i < self.entries().len(),
        ensures
            *v == self.entries()[i as int].1,
    {
        &self.entries[i].1
    }

    /// Position of the first key that is not below `k`.
    fn lower_bound(&self, k: u128) -> (i: usize)
        requires
            self.wf(),
        ensures
            i <= self.entries().len(),
            forall|j: int| 0 <= j < i ==> self.entries()[j].0 < k,
            forall|j: int| i <= j < self.entries().len() ==> self.entries()[j].0 >= k,
    {
        let n = self.entries.len();
        let mut i: usize = 0;
        while i < n && self.entries[i].0 < k
            invariant
                i <= n,
                n == self.entries().len(),
                forall|j: int| 0 <= j < i ==> self.entries()[j].0 < k,
            decreases n - i,
        {
            i = i + 1;
        }
        proof {
            assert forall|j: int| i <= j < self.entries().len() implies self.entries()[j].0
                >= k by {
                if i < self.entries().len() {
                    assert(self.entries()[i as int].0 >= k);
                }
            }
        }
        i
    }

    /// Look a key up.
    pub fn get(&self, k: u128) -> (r: Option<&V>)
        requires
            self.wf(),
        ensures
            match r {
                Some(v) => self.spec_get(k) == Some(*v),
                None => self.spec_get(k) is None,
            },
    {
        let i = self.lower_bound(k);
        if i < self.entries.len() && self.entries[i].0 == k {
            proof {
                lemma_find_skip(self.entries(), k, i as int);
            }
            Some(&self.entries[i].1)
        } else {
            proof {
                assert(forall|j: int|
                    0 <= j < self.entries().len() ==> self.entries()[j].0 != k);
                lemma_find_skip(self.entries(), k, self.entries().len() as int);
            }
            None
        }
    }

    /// Whether the map has an entry under `k`.
    pub fn contains_key(&self, k: u128) -> (r: bool)
        requires
            self.wf(),
        ensures
            r == self.has_key(k),
    {
        self.get(k).is_some()
    }

    /// Insert or replace; returns the previous value, if any.
    pub fn insert(&mut self, k: u128, v: V) -> (r: Option<V>)
        requires
            old(self).wf(),
        ensures
            final(self).wf(),
            r == old(self).spec_get(k),
            final(self).spec_get(k) == Some(v),
            forall|k2: u128| k2 != k ==> final(self).spec_get(k2) == old(self).spec_get(k2),
            final(self).entries().len() == old(self).entries().len() + (if old(self).has_key(k) {
                0int
            } else {
                1int
            }),
    {
        let i = self.lower_bound(k);
        let ghost s0 = self.entries();
        if i < self.entries.len() && self.entries[i].0 == k {
            let mut pair = (k, v);
            core::mem::swap(&mut self.entries[i], &mut pair);
            proof {
                let s1 = self.entries();
                lemma_find_skip(s0, k, i as int);
                lemma_find_skip(s1, k, i as int);
                assert(s1[i as int].0 == k);
                assert(s1.subrange(i as int, s1.len() as int)[0] == (k, v));
                assert forall|k2: u128| k2 != k implies seq_find(s1, k2) == seq_find(
                    s0,
                    k2,
                ) by {
                    lemma_find_unchanged_update(s0, s1, i as int, k2);
                }
            }
            Some(pair.1)
        } else {
            self.entries.insert(i, (k, v));
            proof {
                let s1 = self.entries();
                assert(s1 == s0.insert(i as int, (k, v)));
                assert(seq_sorted(s1)) by {
                    assert forall|a: int, b: int| 0 <= a < b < s1.len() implies s1[a].0
                        < s1[b].0 by {
                        if a < i && b == i {
                        } else if a == i && b > i {
                            assert(s1[b] == s0[b - 1]);
                        } else if a < i && b > i {
                            assert(s1[a] == s0[a] && s1[b] == s0[b - 1]);
                        } else if a > i && b > i {
                            assert(s1[a] == s0[a - 1] && s1[b] == s0[b - 1]);
                        }
                    }
                }
                assert(forall|j: int| 0 <= j < i ==> s1[j] == s0[j]);
                lemma_find_skip(s1, k, i as int);
                assert(s1.subrange(i as int, s1.len() as int)[0] == (k, v));
                assert(forall|j: int| 0 <= j < s0.len() ==> s0[j].0 != k);
                lemma_find_skip(s0, k, s0.len() as int);
                assert(seq_find(s0, k) is None);
                assert forall|k2: u128| k2 != k implies seq_find(s1, k2) == seq_find(
                    s0,
                    k2,
                ) by {
                    lemma_find_unchanged_insert(s0, s1, i as int, k2);
                }
            }
            None
        }
    }

    /// Remove the entry under `k`; returns the removed value, if any.
    pub fn remove(&mut self, k: u128) -> (r: Option<V>)
        requires
            old(self).wf(),
        ensures
            final(self).wf(),
            r == old(self).spec_get(k),
            final(self).spec_get(k) is None,
            forall|k2: u128| k2 != k ==> final(self).spec_get(k2) == old(self).spec_get(k2),
            final(self).entries().len() == old(self).entries().len() - (if old(self).has_key(k) {
                1int
            } else {
                0int
            }),
    {
        let i = self.lower_bound(k);
        let ghost s0 = self.entries();
        if i < self.entries.len() && self.entries[i].0 == k {
            let pair = self.entries.remove(i);
            proof {
                let s1 = self.entries();
                assert(s1 == s0.remove(i as int));
                assert(seq_sorted(s1)) by {
                    assert forall|a: int, b: int| 0 <= a < b < s1.len() implies s1[a].0
                        < s1[b].0 by {
                        if a < i && b >= i {
                            assert(s1[a] == s0[a] && s1[b] == s0[b + 1]);
                        } else if a >= i {
                            assert(s1[a] == s0[a + 1] && s1[b] == s0[b + 1]);
                        }
                    }
                }
                lemma_find_skip(s0, k, i as int);
                assert(s0.subrange(i as int, s0.len() as int)[0] == s0[i as int]);
                assert(forall|j: int| 0 <= j < s1.len() ==> s1[j].0 != k) by {
                    assert forall|j: int| 0 <= j < s1.len() implies s1[j].0 != k by {
                        if j < i {
                            assert(s1[j] == s0[j]);
                        } else {
                            assert(s1[j] == s0[j + 1]);
                        }
                    }
                }
                lemma_find_skip(s1, k, s1.len() as int);
                assert forall|k2: u128| k2 != k implies seq_find(s1, k2) == seq_find(
                    s0,
                    k2,
                ) by {
                    lemma_find_unchanged_remove(s0, s1, i as int, k2);
                }
            }
            Some(pair.1)
        } else {
            proof {
                assert(forall|j: int| 0 <= j < s0.len() ==> s0[j].0 != k);
                lemma_find_skip(s0, k, s0.len() as int);
            }
            None
        }
    }

    /// Drop every entry with a key below `floor`.
    pub fn retain_from(&mut self, floor: u128)
        requires
            old(self).wf(),
        ensures
            final(self).wf(),
            forall|k2: u128|
                final(self).spec_get(k2) == (if k2 >= floor {
                    old(self).spec_get(k2)
                } else {
                    Option::<V>::None
                }),
    {
        let i = self.lower_bound(floor);
        let ghost s0 = self.entries();
        let rest = self.entries.split_off(i);
        self.entries = rest;
        proof {
            let s1 = self.entries();
            assert(s1 =~= s0.subrange(i as int, s0.len() as int));
            assert forall|k2: u128|
                self.spec_get(k2) == (if k2 >= floor {
                    seq_find(s0, k2)
                } else {
                    Option::<V>::None
                }) by {
                if k2 >= floor {
                    lemma_find_skip(s0, k2, i as int);
                } else {
                    assert(forall|j: int| 0 <= j < s1.len() ==> s1[j].0 != k2);
                    lemma_find_skip(s1, k2, s1.len() as int);
                }
            }
        }
    }
}

impl<V: Copy> VecMap<V> {
    /// A copy of the map with the same entries.
    pub fn clone_map(&self) -> (r: Self)
        ensures
            r.entries() == self.entries(),
    {
        let n = self.entries.len();
        let mut copy: Vec<(u128, V)> = Vec::new();
        let mut i: usize = 0;
        while i < n
            invariant
                i <= n,
                n == self.entries@.len(),
                copy@ =~= self.entries@.take(i as int),
            decreases n - i,
        {
            copy.push(self.entries[i]);
            proof {
                assert(copy@ =~= self.entries@.take(i + 1int));
            }
            i = i + 1;
        }
        proof {
            assert(copy@ =~= self.entries@);
        }
        VecMap { entries: copy }
    }
}

/// Replacing the value at one position leaves other keys' lookups unchanged.
proof fn lemma_find_unchanged_update<V>(s0: Seq<(u128, V)>, s1: Seq<(u128, V)>, i: int, k2: u128)
    requires
        0 <= i < s0.len(),
        s1.len() == s0.len(),
        forall|j: int| 0 <= j < s0.len() && j != i ==> s1[j] == s0[j],
        s1[i].0 == s0[i].0,
        s0[i].0 != k2,
    ensures
        seq_find(s1, k2) == seq_find(s0, k2),
    decreases s0.len(),
{
    if s0.len() > 0 {
        if i == 0 {
            assert(s1.drop_first() =~= s0.drop_first());
        } else if s0[0].0 != k2 {
            lemma_find_unchanged_update(s0.drop_first(), s1.drop_first(), i - 1, k2);
        }
    }
}

/// Inserting an entry for a fresh key leaves other keys' lookups unchanged.
proof fn lemma_find_unchanged_insert<V>(s0: Seq<(u128, V)>, s1: Seq<(u128, V)>, i: int, k2: u128)
    requires
        0 <= i <= s0.len(),
        s1 == s0.insert(i, s1[i]),
        s1[i].0 != k2,
    ensures
        seq_find(s1, k2) == seq_find(s0, k2),
    decreases s0.len(),
{
    if i == 0 {
        assert(s1.drop_first() =~= s0);
    } else {
        assert(s1[0] == s0[0]);
        if s0[0].0 != k2 {
            assert(s1.drop_first() =~= s0.drop_first().insert(i - 1, s1[i]));
            assert(s1.drop_first()[i - 1] == s1[i]);
            lemma_find_unchanged_insert(s0.drop_first(), s1.drop_first(), i - 1, k2);
        }
    }
}

/// Removing one entry leaves other keys' lookups unchanged, provided the
/// removed key does not occur elsewhere.
proof fn lemma_find_unchanged_remove<V>(s0: Seq<(u128, V)>, s1: Seq<(u128, V)>, i: int, k2: u128)
    requires
        0 <= i < s0.len(),
        s1 == s0.remove(i),
        s0[i].0 != k2,
    ensures
        seq_find(s1, k2) == seq_find(s0, k2),
    decreases s0.len(),
{
    if i == 0 {
        assert(s1 =~= s0.drop_first());
    } else {
        assert(s1[0] == s0[0]);
        if s0[0].0 != k2 {
            assert(s1.drop_first() =~= s0.drop_first().remove(i - 1));
            lemma_find_unchanged_remove(s0.drop_first(), s1.drop_first(), i - 1, k2);
        }
    }
}

/// Pack a session index and a validator index, ordered by session first.
pub fn session_validator_key(session: u32, validator: u32) -> (k: u128)
    ensures
        k == spec_session_validator_key(session, validator),
{
    (session as u128) * 0x1_0000_0000 + (validator as u128)
}

/// Spec form of `session_validator_key`.
pub open spec fn spec_session_validator_key(session: u32, validator: u32) -> u128 {
    (session * 0x1_0000_0000 + validator) as u128
}

/// Pack a session index and a candidate hash, ordered by session first.
pub fn session_candidate_key(session: u32, candidate: u64) -> (k: u128)
    ensures
        k == spec_session_candidate_key(session, candidate),
{
    (session as u128) * 0x1_0000_0000_0000_0000 + (candidate as u128)
}

/// Spec form of `session_candidate_key`.
pub open spec fn spec_session_candidate_key(session: u32, candidate: u64) -> u128 {
    (session * 0x1_0000_0000_0000_0000 + candidate) as u128
}

/// Packing session/validator pairs is injective.
pub proof fn lemma_session_validator_key_injective(s1: u32, v1: u32, s2: u32, v2: u32)
    requires
        spec_session_validator_key(s1, v1) == spec_session_validator_key(s2, v2),
    ensures
        s1 == s2 && v1 == v2,
{
    assert(s1 == s2 && v1 == v2) by (nonlinear_arith)
        requires
            s1 * 0x1_0000_0000 + v1 == s2 * 0x1_0000_0000 + v2,
            v1 < 0x1_0000_0000,
            v2 < 0x1_0000_0000,
            s1 >= 0,
            s2 >= 0,
    ;
}

/// Packing session/candidate pairs is injective.
pub proof fn lemma_session_candidate_key_injective(s1: u32, c1: u64, s2: u32, c2: u64)
    requires
        spec_session_candidate_key(s1, c1) == spec_session_candidate_key(s2, c2),
    ensures
        s1 == s2 && c1 == c2,
{
    assert(s1 == s2 && c1 == c2) by (nonlinear_arith)
        requires
            s1 * 0x1_0000_0000_0000_0000 + c1 == s2 * 0x1_0000_0000_0000_0000 + c2,
            c1 < 0x1_0000_0000_0000_0000,
            c2 < 0x1_0000_0000_0000_0000,
            s1 >= 0,
            s2 >= 0,
    ;
}

/// A session/validator key clears the floor key of a session exactly
/// when its own session does.
pub proof fn lemma_key_floor(s: u32, v: u32, floor: u32)
    ensures
        (spec_session_validator_key(s, v) >= spec_session_validator_key(floor, 0)) == (s >= floor),
{
    assert((s * 0x1_0000_0000 + v >= floor * 0x1_0000_0000) == (s >= floor)) by (nonlinear_arith)
        requires
            v < 0x1_0000_0000,
            s >= 0,
            floor >= 0,
    ;
}

/// A session/candidate key clears the floor key of a session exactly
/// when its own session does.
pub proof fn lemma_candidate_key_floor(s: u32, c: u64, floor: u32)
    ensures
        (spec_session_candidate_key(s, c) >= spec_session_candidate_key(floor, 0)) == (s >= floor),
{
    assert((s * 0x1_0000_0000_0000_0000 + c >= floor * 0x1_0000_0000_0000_0000) == (s
        >= floor)) by (nonlinear_arith)
        requires
            c < 0x1_0000_0000_0000_0000,
            s >= 0,
            floor >= 0,
    ;
}

} // verus!
