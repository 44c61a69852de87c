//! A deterministic model of the message-queue service.
//!
//! Queues of pending messages are served round-robin under a per-block
//! weight budget (one unit per message). A prioritizer can force its
//! favourite queue to the head of the service ring for a streak of
//! blocks so the queue cannot be starved.

use vstd::prelude::*;

verus! {

/// Blocks a prioritized queue stays at the head once bumped.
pub const STREAK_LEN: u64 = 3;

/// Total number of messages pending over a ring of queues.
pub open spec fn seq_total(s: Seq<(u32, u64)>) -> nat
    decreases s.len(),
{
    if s.len() == 0 {
        0
    } else {
        (s[0].1 + seq_total(s.drop_first())) as nat
    }
}

/// Messages pending in the queue of `origin` (first occurrence).
pub open spec fn queue_count(s: Seq<(u32, u64)>, origin: u32) -> nat
    decreases s.len(),
{
    if s.len() == 0 {
        0
    } else if s[0].0 == origin {
        s[0].1 as nat
    } else {
        queue_count(s.drop_first(), origin)
    }
}

/// The ring after serving under a budget: queues are emptied from the
/// front and removed; a queue larger than the remaining budget keeps
/// its place with the remainder.
pub open spec fn spec_serve(s: Seq<(u32, u64)>, budget: nat) -> Seq<(u32, u64)>
    decreases s.len(),
{
    if budget == 0 || s.len() == 0 {
        s
    } else if s[0].1 <= budget {
        spec_serve(s.drop_first(), (budget - s[0].1) as nat)
    } else {
        s.update(0, (s[0].0, (s[0].1 - budget) as u64))
    }
}

/// Removing one entry removes its count from the total.
proof fn lemma_total_remove(s: Seq<(u32, u64)>, i: int)
    requires
        0 <= i < s.len(),
    ensures
        seq_total(s) == seq_total(s.remove(i)) + s[i].1,
    decreases i,
{
    if i == 0 {
        assert(s.remove(0) =~= s.drop_first());
    } else {
        lemma_total_remove(s.drop_first(), i - 1);
        assert(s.remove(i).drop_first() =~= s.drop_first().remove(i - 1));
        assert(s.remove(i)[0] == s[0]);
    }
}

/// Each entry's count is at most the total.
proof fn lemma_total_ge_elem(s: Seq<(u32, u64)>, i: int)
    requires
        0 <= i < s.len(),
    ensures
        s[i].1 <= seq_total(s),
    decreases i,
{
    if i > 0 {
        lemma_total_ge_elem(s.drop_first(), i - 1);
    }
}

/// The message queues, in service-ring order: each entry is an origin
/// with its pending message count. Served queues are emptied from the
/// front of the ring.
pub struct MessageQueues {
    queues: Vec<(u32, u64)>,
    service_weight: Option<u64>,
    block_number: u64,
}

/// The state of the queue prioritizer.
pub struct AhmPrioritizer {
    /// Until which block the favourite queue holds the head.
    pub streak_until: Option<u64>,
    /// The favourite queue, if one is set.
    pub prioritized_queue: Option<u32>,
    /// Last seen message count of the favourite queue.
    pub favorite_queue_num_messages: Option<u64>,
}

impl AhmPrioritizer {
    /// A prioritizer with no favourite queue.
    pub fn new() -> (r: Self)
        ensures
            r.streak_until is None,
            r.prioritized_queue is None,
            r.favorite_queue_num_messages is None,
    {
        AhmPrioritizer {
            streak_until: None,
            prioritized_queue: None,
            favorite_queue_num_messages: None,
        }
    }

    /// Set the favourite queue.
    pub fn prioritize(&mut self, origin: u32)
        ensures
            final(self).prioritized_queue == Some(origin),
            final(self).streak_until == old(self).streak_until,
            final(self).favorite_queue_num_messages == old(self).favorite_queue_num_messages,
    {
        self.prioritized_queue = Some(origin);
    }

    /// At the start of a block: bump the favourite queue to the head of
    /// the ring while its streak lasts, and schedule a new streak when
    /// it has been starved for more than ten blocks. Returns the weight
    /// consumed (one unit when the head was forced).
    pub fn on_initialize(&mut self, now: u64, mq: &mut MessageQueues) -> (consumed: u64)
        requires
            old(mq).wf(),
        ensures
            final(mq).wf(),
            seq_total(final(mq).spec_queues()) == seq_total(old(mq).spec_queues()),
            final(mq).spec_service_weight() == old(mq).spec_service_weight(),
            final(mq).spec_block_number() == old(mq).spec_block_number(),
            old(self).prioritized_queue is None ==> *final(self) == *old(self) && *final(mq)
                == *old(mq) && consumed == 0,
            final(self).prioritized_queue == old(self).prioritized_queue,
            old(self).prioritized_queue matches Some(q) ==> {
                let streak0 = if old(self).streak_until is None {
                    0u64
                } else {
                    old(self).streak_until->Some_0
                };
                let starved = streak0 < spec_saturating_sub_u64(now, 10);
                let streak1 = if queue_count(old(mq).spec_queues(), q) == 0 {
                    streak0
                } else if starved {
                    spec_saturating_add_u64(now, STREAK_LEN)
                } else {
                    streak0
                };
                &&& final(self).streak_until == Some(streak1)
                &&& final(self).favorite_queue_num_messages == (
                if old(self).favorite_queue_num_messages is None {
                    Some(0u64)
                } else {
                    old(self).favorite_queue_num_messages
                })
                &&& (queue_count(old(mq).spec_queues(), q) == 0 ==> *final(mq) == *old(mq)
                    && consumed == 0)
                &&& (queue_count(old(mq).spec_queues(), q) != 0 ==> consumed == (if streak1 > now {
                    1u64
                } else {
                    0u64
                }))
                &&& ((queue_count(old(mq).spec_queues(), q) != 0 && !(streak1 > now))
                    ==> *final(mq) == *old(mq))
                &&& ((queue_count(old(mq).spec_queues(), q) != 0 && streak1 > now) ==> exists|
                    i: int,
                |
                    0 <= i < old(mq).spec_queues().len() && (#[trigger] old(mq).spec_queues()[i]).0
                        == q && final(mq).spec_queues() == seq![old(mq).spec_queues()[i]]
                        + old(mq).spec_queues().remove(i))
            },
    {
        let q = match self.prioritized_queue {
            Some(q) => q,
            None => {
                return 0;
            },
        };
        let streak0 = match self.streak_until {
            Some(s) => s,
            None => 0,
        };
        self.streak_until = Some(streak0);
        if self.favorite_queue_num_messages.is_none() {
            self.favorite_queue_num_messages = Some(0);
        }
        if mq.message_count(q) == 0 {
            return 0;
        }
        let starved = streak0 < now.saturating_sub(10);
        if starved {
            self.streak_until = Some(now.saturating_add(STREAK_LEN));
        }
        let streak1 = match self.streak_until {
            Some(s) => s,
            None => 0,
        };
        if streak1 > now {
            mq.force_set_head(q);
            1
        } else {
            0
        }
    }
}

/// `sub` on `u64` with a floor of zero.
pub open spec fn spec_saturating_sub_u64(a: u64, b: u64) -> u64 {
    if a >= b {
        (a - b) as u64
    } else {
        0
    }
}

/// `add` on `u64` with a ceiling at the maximum.
pub open spec fn spec_saturating_add_u64(a: u64, b: u64) -> u64 {
    if a + b <= u64::MAX {
        (a + b) as u64
    } else {
        u64::MAX
    }
}

/// Moving one entry to the front keeps the total, the positive counts
/// and the uniqueness of origins.
proof fn lemma_move_to_front(all: Seq<(u32, u64)>, i: int)
    requires
        0 <= i < all.len(),
        forall|a: int| 0 <= a < all.len() ==> (#[trigger] all[a]).1 > 0,
        forall|a: int, b: int| 0 <= a < b < all.len() ==> all[a].0 != all[b].0,
    ensures
        seq_total(seq![all[i]] + all.remove(i)) == seq_total(all),
        forall|a: int|
            0 <= a < all.len() ==> ((#[trigger] (seq![all[i]] + all.remove(i))[a]).1 > 0),
        forall|a: int, b: int|
            0 <= a < b < all.len() ==> (seq![all[i]] + all.remove(i))[a].0 != (seq![all[i]]
                + all.remove(i))[b].0,
{
    let moved = seq![all[i]] + all.remove(i);
    lemma_total_remove(all, i);
    assert(moved.drop_first() =~= all.remove(i));
    assert(moved[0] == all[i]);
    assert(seq_total(moved) == all[i].1 + seq_total(all.remove(i)));
    assert forall|a: int| 0 <= a < all.len() implies ((#[trigger] moved[a]).1 > 0) by {
        if a > 0 {
            let a0 = if a <= i {
                a - 1
            } else {
                a
            };
            assert(moved[a] == all[a0]);
        }
    }
    assert forall|a: int, b: int| 0 <= a < b < all.len() implies moved[a].0 != moved[b].0 by {
        if a == 0 {
            let b0 = if b <= i {
                b - 1
            } else {
                b
            };
            assert(moved[b] == all[b0]);
        } else {
            let a0 = if a <= i {
                a - 1
            } else {
                a
            };
            let b0 = if b <= i {
                b - 1
            } else {
                b
            };
            assert(moved[a] == all[a0] && moved[b] == all[b0]);
        }
    }
}

impl MessageQueues {
    /// The ring: origins and their pending counts, in service order.
    pub closed spec fn spec_queues(&self) -> Seq<(u32, u64)> {
        self.queues@
    }

    /// The per-block service budget, if one is set.
    pub closed spec fn spec_service_weight(&self) -> Option<u64> {
        self.service_weight
    }

    /// The current block number.
    pub closed spec fn spec_block_number(&self) -> u64 {
        self.block_number
    }

    /// Well-formed: every ring member has pending messages, origins are
    /// unique, and the total fits the weight scale.
    pub closed spec fn wf(&self) -> bool {
        &&& forall|i: int| 0 <= i < self.queues@.len() ==> (#[trigger] self.queues@[i]).1 > 0
        &&& forall|i: int, j: int|
            0 <= i < j < self.queues@.len() ==> self.queues@[i].0 != self.queues@[j].0
        &&& seq_total(self.queues@) <= u64::MAX
    }

    /// No queues, no budget, block zero.
    pub fn new() -> (r: Self)
        ensures
            r.wf(),
            r.spec_queues() == Seq::<(u32, u64)>::empty(),
            r.spec_service_weight() is None,
            r.spec_block_number() == 0,
    {
        MessageQueues { queues: Vec::new(), service_weight: None, block_number: 0 }
    }

    /// Set the per-block service budget.
    pub fn set_service_weight(&mut self, weight: Option<u64>)
        requires
            old(self).wf(),
        ensures
            final(self).wf(),
            final(self).spec_queues() == old(self).spec_queues(),
            final(self).spec_service_weight() == weight,
            final(self).spec_block_number() == old(self).spec_block_number(),
    {
        self.service_weight = weight;
    }

    /// Messages pending in the queue of `origin`.
    pub fn message_count(&self, origin: u32) -> (r: u64)
        requires
            self.wf(),
        ensures
            r == queue_count(self.spec_queues(), origin),
    {
        let ghost all = self.queues@;
        let n = self.queues.len();
        let mut i: usize = 0;
        proof {
            assert(all.skip(0) =~= all);
        }
        while i < n
            invariant
                i <= n,
                n == all.len(),
                self.queues@ == all,
                self.wf(),
                queue_count(all, origin) == queue_count(all.skip(i as int), origin),
            decreases n - i,
        {
            proof {
                assert(all.skip(i as int)[0] == all[i as int]);
                assert(all.skip(i as int).drop_first() =~= all.skip(i + 1int));
                lemma_total_ge_elem(all, i as int);
            }
            if self.queues[i].0 == origin {
                return self.queues[i].1;
            }
            i = i + 1;
        }
        proof {
            assert(all.skip(n as int) =~= Seq::<(u32, u64)>::empty());
        }
        0
    }

    /// Add messages to a queue, merging with its ring entry if there is
    /// one, else joining the back of the ring.
    pub fn enqueue(&mut self, origin: u32, count: u64)
        requires
            old(self).wf(),
            seq_total(old(self).spec_queues()) + count <= u64::MAX,
        ensures
            final(self).wf(),
            seq_total(final(self).spec_queues()) == seq_total(old(self).spec_queues()) + count,
            final(self).spec_service_weight() == old(self).spec_service_weight(),
            final(self).spec_block_number() == old(self).spec_block_number(),
            queue_count(final(self).spec_queues(), origin) == queue_count(
                old(self).spec_queues(),
                origin,
            ) + count,
            forall|o2: u32|
                o2 != origin ==> queue_count(final(self).spec_queues(), o2) == queue_count(
                    old(self).spec_queues(),
                    o2,
                ),
    {
        if count == 0 {
            return;
        }
        let ghost all = self.queues@;
        let n = self.queues.len();
        let mut i: usize = 0;
        while i < n
            invariant
                i <= n,
                self.queues@ == all,
                n == all.len(),
                old(self).wf(),
                count >= 1,
                seq_total(all) + count <= u64::MAX,
                all == old(self).spec_queues(),
                self.service_weight == old(self).service_weight,
                self.block_number == old(self).block_number,
                forall|j: int| 0 <= j < i ==> (#[trigger] all[j]).0 != origin,
            decreases n - i,
        {
            if self.queues[i].0 == origin {
                let c = self.queues[i].1;
                proof {
                    lemma_total_ge_elem(all, i as int);
                }
                self.queues[i] = (origin, c + count);
                proof {
                    let updated = self.queues@;
                    assert(updated == all.update(i as int, (origin, (c + count) as u64)));
                    lemma_total_remove(all, i as int);
                    lemma_total_remove(updated, i as int);
                    assert(updated.remove(i as int) =~= all.remove(i as int));
                    lemma_count_at(all, i as int);
                    lemma_count_at(updated, i as int);
                    assert forall|o2: u32|
                        o2 != origin implies queue_count(updated, o2) == queue_count(
                        all,
                        o2,
                    ) by {
                        lemma_count_update_other(
                            all,
                            i as int,
                            (origin, (c + count) as u64),
                            o2,
                        );
                    }
                }
                return;
            }
            i = i + 1;
        }
        proof {
            assert(forall|j: int| 0 <= j < all.len() ==> (#[trigger] all[j]).0 != origin);
        }
        self.queues.push((origin, count));
        proof {
            let pushed = self.queues@;
            assert(pushed == all.push((origin, count)));
            lemma_total_remove(pushed, pushed.len() - 1);
            assert(pushed.remove(pushed.len() - 1) =~= all);
            lemma_count_at(pushed, pushed.len() - 1);
            lemma_count_absent(all, origin);
            assert forall|o2: u32|
                o2 != origin implies queue_count(pushed, o2) == queue_count(all, o2) by {
                lemma_count_push_other(all, (origin, count), o2);
            }
        }
    }

    /// Move the queue of `origin` to the head of the ring.
    #[verifier::rlimit(60)]
    pub fn force_set_head(&mut self, origin: u32) -> (found: bool)
        requires
            old(self).wf(),
        ensures
            final(self).wf(),
            seq_total(final(self).spec_queues()) == seq_total(old(self).spec_queues()),
            final(self).spec_service_weight() == old(self).spec_service_weight(),
            final(self).spec_block_number() == old(self).spec_block_number(),
            found == (queue_count(old(self).spec_queues(), origin) > 0),
            !found ==> final(self).spec_queues() == old(self).spec_queues(),
            found ==> exists|i: int|
                0 <= i < old(self).spec_queues().len() && (#[trigger] old(self).spec_queues()[i]).0
                    == origin && final(self).spec_queues() == seq![old(self).spec_queues()[i]]
                    + old(self).spec_queues().remove(i),
    {
        let ghost all = self.queues@;
        let n = self.queues.len();
        let mut i: usize = 0;
        while i < n
            invariant
                i <= n,
                self.queues@ == all,
                n == all.len(),
                old(self).wf(),
                all == old(self).spec_queues(),
                self.service_weight == old(self).service_weight,
                self.block_number == old(self).block_number,
                forall|j: int| 0 <= j < i ==> (#[trigger] all[j]).0 != origin,
            decreases n - i,
        {
            if self.queues[i].0 == origin {
                let entry = self.queues.remove(i);
                self.queues.insert(0, entry);
                proof {
                    lemma_count_at(all, i as int);
                    assert(self.queues@ =~= seq![all[i as int]] + all.remove(i as int));
                    lemma_move_to_front(all, i as int);
                    assert(all[i as int].0 == origin);
                }
                return true;
            }
            i = i + 1;
        }
        proof {
            assert(forall|j: int| 0 <= j < all.len() ==> (#[trigger] all[j]).0 != origin);
            lemma_count_absent(all, origin);
        }
        false
    }

    /// Serve messages from the front of the ring until the budget runs
    /// out, removing emptied queues. Returns the weight consumed.
    fn service_queues(&mut self, budget: u64) -> (consumed: u64)
        requires
            old(self).wf(),
        ensures
            final(self).wf(),
            consumed == (if budget <= seq_total(old(self).spec_queues()) {
                budget as nat
            } else {
                seq_total(old(self).spec_queues())
            }),
            seq_total(final(self).spec_queues()) == seq_total(old(self).spec_queues()) - consumed,
            final(self).spec_queues() == spec_serve(old(self).spec_queues(), budget as nat),
            final(self).spec_service_weight() == old(self).spec_service_weight(),
            final(self).spec_block_number() == old(self).spec_block_number(),
    {
        let mut left = budget;
        while left > 0 && self.queues.len() > 0
            invariant
                self.wf(),
                left <= budget,
                self.service_weight == old(self).service_weight,
                self.block_number == old(self).block_number,
                budget - left == (if budget - left <= seq_total(old(self).spec_queues()) {
                    budget - left
                } else {
                    0
                }),
                seq_total(self.spec_queues()) == seq_total(old(self).spec_queues()) - (budget
                    - left),
                left == budget || seq_total(self.spec_queues()) + (budget - left) == seq_total(
                    old(self).spec_queues(),
                ),
                spec_serve(old(self).spec_queues(), budget as nat) == spec_serve(
                    self.spec_queues(),
                    left as nat,
                ),
            decreases seq_total(self.spec_queues()) + left,
        {
            let ghost ring = self.queues@;
            let ghost left_pre = left;
            let (origin, c) = self.queues[0];
            proof {
                assert(ring[0].1 > 0);
                lemma_total_ge_elem(ring, 0);
            }
            if c <= left {
                let removed = self.queues.remove(0);
                left = left - c;
                proof {
                    assert(self.queues@ =~= ring.drop_first());
                    assert(spec_serve(ring, left_pre as nat) == spec_serve(
                        ring.drop_first(),
                        (left_pre - c) as nat,
                    ));
                }
            } else {
                self.queues[0] = (origin, c - left);
                left = 0;
                proof {
                    let updated = self.queues@;
                    assert(updated.drop_first() =~= ring.drop_first());
                    assert(updated =~= ring.update(0, (origin, (c - left_pre) as u64)));
                    assert(spec_serve(ring, left_pre as nat) == updated);
                    assert(spec_serve(updated, 0) == updated);
                }
            }
        }
        proof {
            if self.queues.len() == 0 {
                assert(seq_total(self.spec_queues()) == 0);
                assert(spec_serve(self.spec_queues(), left as nat) == self.spec_queues());
            } else {
                assert(spec_serve(self.spec_queues(), 0) == self.spec_queues());
            }
        }
        budget - left
    }

    /// Advance one block: run the prioritizer, then serve queues under
    /// the current budget (no budget means no service). Returns the
    /// service weight consumed.
    pub fn next_block(&mut self, prio: &mut AhmPrioritizer) -> (consumed: u64)
        requires
            old(self).wf(),
            old(self).spec_block_number() < u64::MAX,
        ensures
            final(self).wf(),
            final(self).spec_block_number() == old(self).spec_block_number() + 1,
            final(self).spec_service_weight() == old(self).spec_service_weight(),
            final(prio).prioritized_queue == old(prio).prioritized_queue,
            ({
                let budget = match old(self).spec_service_weight() {
                    Some(w) => w as nat,
                    None => 0nat,
                };
                let total = seq_total(old(self).spec_queues());
                let now = (old(self).spec_block_number() + 1) as u64;
                &&& consumed == (if budget <= total {
                    budget
                } else {
                    total
                })
                &&& seq_total(final(self).spec_queues()) == total - consumed
                &&& (old(prio).prioritized_queue is None ==> *final(prio) == *old(prio)
                    && final(self).spec_queues() == spec_serve(old(self).spec_queues(), budget))
                &&& (old(prio).prioritized_queue matches Some(q) ==> {
                    let streak0 = if old(prio).streak_until is None {
                        0u64
                    } else {
                        old(prio).streak_until->Some_0
                    };
                    let cnt = queue_count(old(self).spec_queues(), q);
                    let starved = streak0 < spec_saturating_sub_u64(now, 10);
                    let streak1 = if cnt == 0 {
                        streak0
                    } else if starved {
                        spec_saturating_add_u64(now, STREAK_LEN)
                    } else {
                        streak0
                    };
                    &&& final(prio).streak_until == Some(streak1)
                    &&& final(prio).favorite_queue_num_messages == (
                    if old(prio).favorite_queue_num_messages is None {
                        Some(0u64)
                    } else {
                        old(prio).favorite_queue_num_messages
                    })
                    &&& (!(cnt != 0 && streak1 > now) ==> final(self).spec_queues() == spec_serve(
                        old(self).spec_queues(),
                        budget,
                    ))
                    &&& ((cnt != 0 && streak1 > now) ==> exists|i: int|
                        0 <= i < old(self).spec_queues().len()
                            && (#[trigger] old(self).spec_queues()[i]).0 == q
                            && final(self).spec_queues() == spec_serve(
                            seq![old(self).spec_queues()[i]] + old(self).spec_queues().remove(i),
                            budget,
                        ))
                })
            }),
    {
        self.block_number = self.block_number + 1;
        let now = self.block_number;
        let ghost ring0 = self.spec_queues();
        prio.on_initialize(now, self);
        let ghost ring1 = self.spec_queues();
        let budget = match self.service_weight {
            Some(w) => w,
            None => 0,
        };
        let consumed = self.service_queues(budget);
        proof {
            match old(prio).prioritized_queue {
                Some(q) => {
                    let streak0 = if old(prio).streak_until is None {
                        0u64
                    } else {
                        old(prio).streak_until->Some_0
                    };
                    let cnt = queue_count(ring0, q);
                    let starved = streak0 < spec_saturating_sub_u64(now, 10);
                    let streak1 = if cnt == 0 {
                        streak0
                    } else if starved {
                        spec_saturating_add_u64(now, STREAK_LEN)
                    } else {
                        streak0
                    };
                    if cnt != 0 && streak1 > now {
                        let i = choose|i: int|
                            0 <= i < ring0.len() && (#[trigger] ring0[i]).0 == q && ring1 == seq![
                                ring0[i],
                            ] + ring0.remove(i);
                        assert(self.spec_queues() == spec_serve(
                            seq![ring0[i]] + ring0.remove(i),
                            budget as nat,
                        ));
                    }
                },
                None => {},
            }
        }
        consumed
    }

    /// Advance one block serving exactly `num_msgs` messages.
    pub fn process_some_messages(&mut self, prio: &mut AhmPrioritizer, num_msgs: u64)
        requires
            old(self).wf(),
            old(self).spec_block_number() < u64::MAX,
            num_msgs <= seq_total(old(self).spec_queues()),
        ensures
            final(self).wf(),
            seq_total(final(self).spec_queues()) == seq_total(old(self).spec_queues()) - num_msgs,
            final(self).spec_block_number() == old(self).spec_block_number() + 1,
    {
        self.set_service_weight(Some(num_msgs));
        let consumed = self.next_block(prio);
    }

    /// Advance one block serving all remaining messages; `expected`
    /// must be their exact number.
    pub fn process_all_messages(&mut self, prio: &mut AhmPrioritizer, expected: u64) -> (consumed:
        u64)
        requires
            old(self).wf(),
            old(self).spec_block_number() < u64::MAX,
            expected == seq_total(old(self).spec_queues()),
        ensures
            final(self).wf(),
            consumed == expected,
            seq_total(final(self).spec_queues()) == 0,
            final(self).spec_queues().len() == 0,
    {
        self.set_service_weight(Some(u64::MAX));
        let consumed = self.next_block(prio);
        proof {
            if self.queues@.len() > 0 {
                assert(self.queues@[0].1 > 0);
                lemma_total_ge_elem(self.queues@, 0);
            }
        }
        consumed
    }

    /// How many messages are in each queue, in ring order.
    pub fn msgs_per_queue(&self) -> (r: Vec<(u32, u64)>)
        requires
            self.wf(),
        ensures
            r@ == self.spec_queues(),
    {
        let n = self.queues.len();
        let mut out: Vec<(u32, u64)> = Vec::new();
        let mut i: usize = 0;
        while i < n
            invariant
                i <= n,
                n == self.queues@.len(),
                out@ =~= self.queues@.take(i as int),
            decreases n - i,
        {
            out.push(self.queues[i]);
            proof {
                assert(out@ =~= self.queues@.take(i + 1int));
            }
            i = i + 1;
        }
        proof {
            assert(out@ =~= self.queues@);
        }
        out
    }

    /// Whether the service reached its post state: every queue empty.
    pub fn post_conditions(&self) -> (r: bool)
        requires
            self.wf(),
        ensures
            r == (self.spec_queues().len() == 0),
            r == (seq_total(self.spec_queues()) == 0),
    {
        proof {
            if self.queues@.len() > 0 {
                assert(self.queues@[0].1 > 0);
                lemma_total_ge_elem(self.queues@, 0);
            }
        }
        self.queues.len() == 0
    }
}

/// In a ring with unique origins, the count of the origin at `i` is
/// that entry's count.
proof fn lemma_count_at(s: Seq<(u32, u64)>, i: int)
    requires
        0 <= i < s.len(),
        forall|a: int, b: int| 0 <= a < b < s.len() ==> s[a].0 != s[b].0,
    ensures
        queue_count(s, s[i].0) == s[i].1,
    decreases i,
{
    if i > 0 {
        assert(s[0].0 != s[i].0);
        assert(s.drop_first()[i - 1] == s[i]);
        assert forall|a: int, b: int|
            0 <= a < b < s.drop_first().len() implies s.drop_first()[a].0
            != s.drop_first()[b].0 by {
            assert(s.drop_first()[a] == s[a + 1] && s.drop_first()[b] == s[b + 1]);
        }
        lemma_count_at(s.drop_first(), i - 1);
    }
}

/// An origin that appears nowhere has no pending messages.
proof fn lemma_count_absent(s: Seq<(u32, u64)>, origin: u32)
    requires
        forall|j: int| 0 <= j < s.len() ==> (#[trigger] s[j]).0 != origin,
    ensures
        queue_count(s, origin) == 0,
    decreases s.len(),
{
    if s.len() > 0 {
        lemma_count_absent(s.drop_first(), origin);
    }
}

/// Updating one entry (to a different origin than `o2`) leaves `o2`'s
/// count unchanged.
proof fn lemma_count_update_other(s0: Seq<(u32, u64)>, i: int, e: (u32, u64), o2: u32)
    requires
        0 <= i < s0.len(),
        s0[i].0 != o2,
        e.0 != o2,
    ensures
        queue_count(s0.update(i, e), o2) == queue_count(s0, o2),
    decreases s0.len(),
{
    let s1 = s0.update(i, e);
    if i == 0 {
        assert(s1.drop_first() =~= s0.drop_first());
    } else {
        assert(s1[0] == s0[0]);
        if s0[0].0 != o2 {
            assert(s1.drop_first() =~= s0.drop_first().update(i - 1, e));
            lemma_count_update_other(s0.drop_first(), i - 1, e, o2);
        }
    }
}

/// Appending an entry of a different origin leaves `o2`'s count
/// unchanged.
proof fn lemma_count_push_other(s0: Seq<(u32, u64)>, e: (u32, u64), o2: u32)
    requires
        e.0 != o2,
    ensures
        queue_count(s0.push(e), o2) == queue_count(s0, o2),
    decreases s0.len(),
{
    if s0.len() == 0 {
        assert(s0.push(e)[0] == e);
        assert(s0.push(e).drop_first() =~= Seq::<(u32, u64)>::empty());
        assert(queue_count(s0.push(e), o2) == queue_count(Seq::<(u32, u64)>::empty(), o2));
    } else {
        assert(s0.push(e)[0] == s0[0]);
        if s0[0].0 != o2 {
            assert(s0.push(e).drop_first() =~= s0.drop_first().push(e));
            lemma_count_push_other(s0.drop_first(), e, o2);
        } else {
            assert(queue_count(s0.push(e), o2) == s0[0].1);
            assert(queue_count(s0, o2) == s0[0].1);
        }
    }
}

} // verus!
