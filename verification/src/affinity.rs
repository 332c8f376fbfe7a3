//! The sticky policy: a caller identity claims one session on first use and
//! keeps it for good, so no session ever serves two identities.

use vstd::prelude::*;
use std::collections::HashMap;

verus! {

broadcast use vstd::std_specs::hash::group_hash_axioms;

/// The assignment record as a value: the number of sessions and, for each
/// caller identity that has claimed one, the index of its session.
pub struct AffinityState {
    pub size: nat,
    pub claimed: Map<u64, usize>,
}

impl AffinityState {
    /// The record of a pool of `size` sessions that nobody has used yet.
    pub open spec fn fresh(size: nat) -> AffinityState {
        AffinityState { size, claimed: Map::empty() }
    }

    /// How many sessions are still unclaimed.
    pub open spec fn spare(self) -> int {
        self.size - self.claimed.dom().len()
    }

    /// The claimed sessions are the last ones of the pool, as many as there
    /// are identities, and no two identities share one.
    pub open spec fn wf(self) -> bool {
        &&& self.size <= usize::MAX
        &&& self.claimed.dom().finite()
        &&& self.claimed.dom().len() <= self.size
        &&& forall|c: u64| #[trigger]
            self.claimed.contains_key(c) ==> self.spare() <= self.claimed[c] < self.size
        &&& forall|a: u64, b: u64|
            self.claimed.contains_key(a) && self.claimed.contains_key(b) && a != b
                ==> #[trigger] self.claimed[a] != #[trigger] self.claimed[b]
    }

    /// Whether `caller` can be served: it holds a session already, or one is
    /// left to claim.
    pub open spec fn can_serve(self, caller: u64) -> bool {
        self.claimed.contains_key(caller) || self.spare() > 0
    }

    /// The session `caller` is served by: its own if it holds one, else the
    /// last unclaimed one, else none.
    pub open spec fn slot_for(self, caller: u64) -> Option<usize> {
        if self.claimed.contains_key(caller) {
            Some(self.claimed[caller])
        } else if self.spare() > 0 {
            Some((self.spare() - 1) as usize)
        } else {
            None
        }
    }

    /// The record once `caller` has asked for its session.
    pub open spec fn after(self, caller: u64) -> AffinityState {
        if self.claimed.contains_key(caller) || self.spare() <= 0 {
            self
        } else {
            AffinityState {
                size: self.size,
                claimed: self.claimed.insert(caller, (self.spare() - 1) as usize),
            }
        }
    }

    /// The record once each of `callers` has asked in turn.
    pub open spec fn after_all(self, callers: Seq<u64>) -> AffinityState
        decreases callers.len(),
    {
        if callers.len() == 0 {
            self
        } else {
            self.after(callers[0]).after_all(callers.skip(1))
        }
    }
}

/// The assignment record of the sticky policy.
pub struct Affinity {
    size: usize,
    claimed: HashMap<u64, usize>,
}

impl View for Affinity {
    type V = AffinityState;

    closed spec fn view(&self) -> AffinityState {
        AffinityState { size: self.size as nat, claimed: self.claimed@ }
    }
}

impl Affinity {
    /// Holds of every value of the type, at every moment.
    #[verifier::type_invariant]
    spec fn inv(self) -> bool {
        self@.wf()
    }

    /// The record of a pool of `size` sessions, none claimed.
    pub fn new(size: usize) -> (record: Affinity)
        ensures
            record@ == AffinityState::fresh(size as nat),
    {
        let record = Affinity { size, claimed: HashMap::new() };
        proof {
            assert(record@.claimed.dom() =~= Set::<u64>::empty());
        }
        record
    }

    /// How many sessions the pool holds.
    pub fn size(&self) -> (size: usize)
        ensures
            size == self@.size,
    {
        self.size
    }

    /// How many sessions are still unclaimed.
    pub fn spare(&self) -> (spare: usize)
        ensures
            spare == self@.spare(),
    {
        proof {
            use_type_invariant(self);
        }
        self.size - self.claimed.len()
    }

    /// The session `caller` holds, if it has claimed one. Changes nothing, so
    /// callers that already hold a session can ask side by side.
    pub fn assigned(&self, caller: u64) -> (slot: Option<usize>)
        ensures
            slot == (if self@.claimed.contains_key(caller) {
                Some(self@.claimed[caller])
            } else {
                None
            }),
            slot matches Some(s) ==> s < self@.size,
    {
        proof {
            use_type_invariant(self);
        }
        match self.claimed.get(&caller) {
            Some(slot) => Some(*slot),
            None => None,
        }
    }

    /// The session that serves `caller`: the one it holds, or else the last
    /// unclaimed one, which it holds from now on. `None` when `caller` holds
    /// none and none is left; the record is then unchanged.
    pub fn try_acquire(&mut self, caller: u64) -> (slot: Option<usize>)
        ensures
            slot == old(self)@.slot_for(caller),
            final(self)@ == old(self)@.after(caller),
            slot.is_some() == old(self)@.can_serve(caller),
            slot matches Some(s) ==> s < final(self)@.size && final(self)@.claimed.contains_key(
                caller,
            ) && final(self)@.claimed[caller] == s,
    {
        proof {
            use_type_invariant(&*self);
        }
        match self.assigned(caller) {
            Some(slot) => Some(slot),
            None => {
                let taken: usize = self.claimed.len();
                if taken >= self.size {
                    None
                } else {
                    let slot: usize = self.size - taken - 1;
                    proof {
                        lemma_claim_keeps_wf(self@, caller);
                    }
                    let mut claimed: HashMap<u64, usize> = HashMap::new();
                    proof {
                        assert(claimed@.dom() =~= Set::<u64>::empty());
                    }
                    std::mem::swap(&mut claimed, &mut self.claimed);
                    claimed.insert(caller, slot);
                    self.claimed = claimed;
                    Some(slot)
                }
            },
        }
    }

    /// The session that serves `caller`, for a caller that can be served.
    pub fn acquire(&mut self, caller: u64) -> (slot: usize)
        requires
            old(self)@.can_serve(caller),
        ensures
            Some(slot) == old(self)@.slot_for(caller),
            final(self)@ == old(self)@.after(caller),
            slot < final(self)@.size,
            final(self)@.claimed.contains_key(caller),
            final(self)@.claimed[caller] == slot,
    {
        match self.try_acquire(caller) {
            Some(slot) => slot,
            None => {
                proof {
                    assert(false);
                }
                0
            },
        }
    }
}

/// Serving a caller keeps the record well formed and the pool its size.
pub proof fn lemma_claim_keeps_wf(s: AffinityState, caller: u64)
    requires
        s.wf(),
    ensures
        s.after(caller).wf(),
        s.after(caller).size == s.size,
        s.after(caller).claimed.contains_key(caller) == s.can_serve(caller),
{
    if !s.claimed.contains_key(caller) && s.spare() > 0 {
        let t = s.after(caller);
        assert(t.claimed.dom() =~= s.claimed.dom().insert(caller));
    }
}

/// Serving callers one after another keeps the record well formed.
pub proof fn lemma_claims_keep_wf(s: AffinityState, callers: Seq<u64>)
    requires
        s.wf(),
    ensures
        s.after_all(callers).wf(),
        s.after_all(callers).size == s.size,
    decreases callers.len(),
{
    if callers.len() > 0 {
        lemma_claim_keeps_wf(s, callers[0]);
        lemma_claims_keep_wf(s.after(callers[0]), callers.skip(1));
    }
}

/// A caller that asks twice is served by the same session both times, and
/// its second request changes nothing.
pub proof fn lemma_same_caller_same_session(s: AffinityState, caller: u64)
    requires
        s.wf(),
        s.can_serve(caller),
    ensures
        s.after(caller).slot_for(caller) == s.slot_for(caller),
        s.after(caller).slot_for(caller).is_some(),
        s.after(caller).after(caller) == s.after(caller),
{
    lemma_claim_keeps_wf(s, caller);
}

/// A session once claimed is never handed to another identity: whoever asks
/// afterwards, and however often, the holder keeps its session, and nobody
/// else is served by it.
pub proof fn lemma_assignment_is_permanent(s: AffinityState, holder: u64, callers: Seq<u64>)
    requires
        s.wf(),
        s.claimed.contains_key(holder),
    ensures
        s.after_all(callers).claimed.contains_key(holder),
        s.after_all(callers).claimed[holder] == s.claimed[holder],
        forall|other: u64|
            other != holder && #[trigger] s.after_all(callers).claimed.contains_key(other)
                ==> s.after_all(callers).claimed[other] != s.claimed[holder],
    decreases callers.len(),
{
    lemma_claims_keep_wf(s, callers);
    if callers.len() > 0 {
        lemma_claim_keeps_wf(s, callers[0]);
        lemma_assignment_is_permanent(s.after(callers[0]), holder, callers.skip(1));
    }
}

/// Two identities never hold the same session.
pub proof fn lemma_distinct_callers_distinct_sessions(s: AffinityState, a: u64, b: u64)
    requires
        s.wf(),
        a != b,
        s.claimed.contains_key(a),
        s.claimed.contains_key(b),
    ensures
        s.claimed[a] != s.claimed[b],
{
}

/// Identities that hold no session yet, all different and no more than
/// there are sessions to spare, each claim one of their own: the first takes
/// the last spare session, the next the one before it, and so on. What was
/// claimed before stays as it was, and nobody else gains a session.
pub proof fn lemma_new_callers_claim_in_turn(s: AffinityState, callers: Seq<u64>)
    requires
        s.wf(),
        callers.no_duplicates(),
        callers.len() <= s.spare(),
        forall|i: int| 0 <= i < callers.len() ==> !s.claimed.contains_key(callers[i]),
    ensures
        s.after_all(callers).wf(),
        s.after_all(callers).spare() == s.spare() - callers.len(),
        forall|i: int|
            0 <= i < callers.len() ==> s.after_all(callers).claimed.contains_key(
                #[trigger] callers[i],
            ) && s.after_all(callers).claimed[callers[i]] == s.spare() - 1 - i,
        forall|c: u64|
            s.claimed.contains_key(c) ==> #[trigger] s.after_all(callers).claimed.contains_key(c)
                && s.after_all(callers).claimed[c] == s.claimed[c],
        forall|c: u64| #[trigger]
            s.after_all(callers).claimed.contains_key(c) ==> s.claimed.contains_key(c)
                || callers.contains(c),
    decreases callers.len(),
{
    if callers.len() > 0 {
        let first = callers[0];
        let rest = callers.skip(1);
        let t = s.after(first);
        lemma_claim_keeps_wf(s, first);
        assert forall|i: int| 0 <= i < rest.len() implies !t.claimed.contains_key(rest[i]) by {
            assert(rest[i] == callers[i + 1]);
        }
        assert(rest.no_duplicates()) by {
            assert forall|i: int, j: int| 0 <= i < rest.len() && 0 <= j < rest.len() && i != j
                implies rest[i] != rest[j] by {
                assert(rest[i] == callers[i + 1] && rest[j] == callers[j + 1]);
            }
        }
        lemma_new_callers_claim_in_turn(t, rest);
        lemma_assignment_is_permanent(t, first, rest);
        let end = s.after_all(callers);
        assert(end == t.after_all(rest));
        assert forall|i: int| 0 <= i < callers.len() implies end.claimed.contains_key(
            #[trigger] callers[i],
        ) && end.claimed[callers[i]] == s.spare() - 1 - i by {
            if i > 0 {
                assert(callers[i] == rest[i - 1]);
            }
        }
        assert forall|c: u64| #[trigger] end.claimed.contains_key(c) implies s.claimed.contains_key(
            c,
        ) || callers.contains(c) by {
            if t.claimed.contains_key(c) {
                if c == first {
                    assert(callers[0] == c);
                }
            } else {
                let i = choose|i: int| 0 <= i < rest.len() && rest[i] == c;
                assert(callers[i + 1] == c);
            }
        }
    }
}

/// On a pool that nobody has used, `k` different identities, `k` no more
/// than the number of sessions, are served by `k` different sessions, one
/// each.
pub proof fn lemma_k_callers_k_sessions(size: nat, callers: Seq<u64>)
    requires
        size <= usize::MAX,
        callers.no_duplicates(),
        callers.len() <= size,
    ensures
        ({
            let end = AffinityState::fresh(size).after_all(callers);
            &&& end.wf()
            &&& end.claimed.dom() == callers.to_set()
            &&& end.claimed.dom().len() == callers.len()
            &&& forall|i: int|
                0 <= i < callers.len() ==> #[trigger] end.slot_for(callers[i]) == Some(
                    (size - 1 - i) as usize,
                )
            &&& forall|i: int, j: int|
                0 <= i < callers.len() && 0 <= j < callers.len() && i != j ==> end.slot_for(
                    callers[i],
                ) != end.slot_for(callers[j])
        }),
{
    let s = AffinityState::fresh(size);
    assert(s.claimed.dom() =~= Set::<u64>::empty());
    lemma_new_callers_claim_in_turn(s, callers);
    let end = s.after_all(callers);
    lemma_claims_keep_wf(s, callers);
    assert forall|i: int| 0 <= i < callers.len() implies #[trigger] end.slot_for(callers[i])
        == Some((size - 1 - i) as usize) by {
        assert(end.claimed[callers[i]] == size - 1 - i);
    }
    assert(end.claimed.dom() =~= callers.to_set()) by {
        assert forall|c: u64| end.claimed.dom().contains(c) <==> callers.to_set().contains(c) by {
            if callers.contains(c) {
                let i = choose|i: int| 0 <= i < callers.len() && callers[i] == c;
                assert(end.claimed.contains_key(callers[i]));
            }
        }
    }
}

} // verus!
