//! The cyclic policy: one shared counter walks the sessions in order. It
//! keeps no record of who holds what, so two callers may share a session.

use vstd::prelude::*;
use vstd::arithmetic::div_mod::{lemma_mod_add_multiples_vanish, lemma_small_mod};

verus! {

/// The session a ticket falls on in a pool of `size` sessions.
pub open spec fn slot_of(ticket: nat, size: nat) -> nat {
    ticket % size
}

/// The session a ticket falls on. The caller draws tickets from a counter of
/// its own, one per request.
pub fn slot_for_ticket(ticket: usize, size: usize) -> (slot: usize)
    requires
        size >= 1,
    ensures
        slot == slot_of(ticket as nat, size as nat),
        slot < size,
{
    ticket % size
}

/// The counter as a value.
pub struct RoundRobinState {
    pub size: nat,
    pub counter: nat,
}

impl RoundRobinState {
    /// The counter of a pool of `size` sessions before the first request.
    pub open spec fn fresh(size: nat) -> RoundRobinState {
        RoundRobinState { size, counter: 0 }
    }

    /// There is a session to hand out, and both numbers fit the machine.
    pub open spec fn wf(self) -> bool {
        &&& 1 <= self.size <= usize::MAX
        &&& self.counter <= usize::MAX
    }

    /// The session the next request is served by.
    pub open spec fn slot(self) -> nat {
        slot_of(self.counter, self.size)
    }

    /// The counter once a request has been served. It starts over at zero
    /// after the largest number it can hold.
    pub open spec fn after(self) -> RoundRobinState {
        RoundRobinState {
            size: self.size,
            counter: if self.counter == usize::MAX {
                0
            } else {
                self.counter + 1
            },
        }
    }

    /// The counter once `requests` requests have been served.
    pub open spec fn after_n(self, requests: nat) -> RoundRobinState
        decreases requests,
    {
        if requests == 0 {
            self
        } else {
            self.after_n((requests - 1) as nat).after()
        }
    }

    /// The sessions that serve the next `requests` requests, in order.
    pub open spec fn slots(self, requests: nat) -> Seq<nat>
        decreases requests,
    {
        if requests == 0 {
            Seq::empty()
        } else {
            self.slots((requests - 1) as nat).push(self.after_n((requests - 1) as nat).slot())
        }
    }

    /// Whether the counter can serve `requests` more requests without
    /// starting over.
    pub open spec fn runs_on(self, requests: nat) -> bool {
        requests == 0 || self.counter + requests - 1 <= usize::MAX
    }
}

/// The counter of the cyclic policy.
pub struct RoundRobin {
    size: usize,
    counter: usize,
}

impl View for RoundRobin {
    type V = RoundRobinState;

    closed spec fn view(&self) -> RoundRobinState {
        RoundRobinState { size: self.size as nat, counter: self.counter as nat }
    }
}

impl RoundRobin {
    /// Holds of every value of the type, at every moment.
    #[verifier::type_invariant]
    spec fn inv(self) -> bool {
        self@.wf()
    }

    /// The counter of a pool of `size` sessions, or nothing for a pool
    /// without sessions.
    pub fn new(size: usize) -> (counter: Option<RoundRobin>)
        ensures
            size == 0 ==> counter.is_none(),
            size >= 1 ==> counter.is_some(),
            counter matches Some(c) ==> c@ == RoundRobinState::fresh(size as nat),
    {
        if size == 0 {
            None
        } else {
            Some(RoundRobin { size, counter: 0 })
        }
    }

    /// How many sessions the pool holds.
    pub fn size(&self) -> (size: usize)
        ensures
            size == self@.size,
            size >= 1,
    {
        proof {
            use_type_invariant(self);
        }
        self.size
    }

    /// The session that serves this request. The counter moves on by one.
    pub fn acquire(&mut self) -> (slot: usize)
        ensures
            slot == old(self)@.slot(),
            slot < old(self)@.size,
            final(self)@ == old(self)@.after(),
    {
        proof {
            use_type_invariant(&*self);
        }
        let size: usize = self.size;
        let ticket: usize = self.counter;
        let next: usize = if ticket == usize::MAX {
            0
        } else {
            ticket + 1
        };
        *self = RoundRobin { size, counter: next };
        slot_for_ticket(ticket, size)
    }
}

/// How many of the `len` tickets from `start` on fall on session `slot`.
pub open spec fn falls_on(start: nat, len: nat, size: nat, slot: nat) -> nat
    decreases len,
{
    if len == 0 {
        0
    } else {
        falls_on(start, (len - 1) as nat, size, slot) + if slot_of(
            (start + len - 1) as nat,
            size,
        ) == slot {
            1nat
        } else {
            0nat
        }
    }
}

/// A run of tickets counts as its two halves do.
proof fn lemma_falls_on_splits(start: nat, a: nat, b: nat, size: nat, slot: nat)
    ensures
        falls_on(start, a + b, size, slot) == falls_on(start, a, size, slot) + falls_on(
            start + a,
            b,
            size,
            slot,
        ),
    decreases b,
{
    if b > 0 {
        lemma_falls_on_splits(start, a, (b - 1) as nat, size, slot);
    }
}

/// Of the first tickets, fewer than a round, each falls on the session of
/// its own number.
proof fn lemma_falls_on_first_tickets(len: nat, size: nat, slot: nat)
    requires
        len <= size,
        slot < size,
    ensures
        falls_on(0, len, size, slot) == (if slot < len {
            1nat
        } else {
            0nat
        }),
    decreases len,
{
    if len > 0 {
        lemma_falls_on_first_tickets((len - 1) as nat, size, slot);
        lemma_small_mod((len - 1) as nat, size);
    }
}

/// One round of tickets, wherever it starts, falls once on every session.
proof fn lemma_falls_on_one_round(start: nat, size: nat, slot: nat)
    requires
        size >= 1,
        slot < size,
    ensures
        falls_on(start, size, size, slot) == 1,
    decreases start,
{
    if start == 0 {
        lemma_falls_on_first_tickets(size, size, slot);
    } else {
        let before = (start - 1) as nat;
        lemma_falls_on_one_round(before, size, slot);
        lemma_falls_on_splits(before, 1, size, size, slot);
        assert(falls_on(before, 1, size, slot) == (if slot_of(before, size) == slot {
            1nat
        } else {
            0nat
        })) by {
            assert(falls_on(before, 0, size, slot) == 0);
        }
        assert(falls_on(before, size + 1, size, slot) == falls_on(before, size, size, slot) + (
        if slot_of(before + size, size) == slot {
            1nat
        } else {
            0nat
        })) by {
            assert((before + (size + 1) - 1) as nat == before + size);
        }
        lemma_mod_add_multiples_vanish(before as int, size as int);
        assert(slot_of(before + size, size) == slot_of(before, size)) by {
            assert(size + before == before + size);
        }
    }
}

/// `rounds` rounds of tickets fall `rounds` times on every session.
proof fn lemma_falls_on_whole_rounds(start: nat, size: nat, rounds: nat, slot: nat)
    requires
        size >= 1,
        slot < size,
    ensures
        falls_on(start, size * rounds, size, slot) == rounds,
    decreases rounds,
{
    if rounds == 0 {
        assert(size * rounds == 0) by (nonlinear_arith)
            requires
                rounds == 0,
        ;
    } else {
        let done = (rounds - 1) as nat;
        lemma_falls_on_whole_rounds(start, size, done, slot);
        lemma_falls_on_one_round(start + size * done, size, slot);
        lemma_falls_on_splits(start, size * done, size, size, slot);
        assert(size * rounds == size * done + size) by (nonlinear_arith)
            requires
                done == rounds - 1,
        ;
    }
}

/// Every request keeps the counter well formed and the pool its size.
pub proof fn lemma_round_robin_step_keeps_wf(s: RoundRobinState)
    requires
        s.wf(),
    ensures
        s.after().wf(),
        s.after().size == s.size,
        s.slot() < s.size,
{
    vstd::arithmetic::div_mod::lemma_mod_bound(s.counter as int, s.size as int);
}

/// As long as the counter does not start over, the request made after
/// `served` others is served by session `(counter + served) mod size`.
pub proof fn lemma_round_robin_slot(s: RoundRobinState, served: nat)
    requires
        s.wf(),
        s.counter + served <= usize::MAX,
    ensures
        s.after_n(served).wf(),
        s.after_n(served).size == s.size,
        s.after_n(served).counter == s.counter + served,
        s.after_n(served).slot() == (s.counter + served) % s.size,
    decreases served,
{
    if served > 0 {
        lemma_round_robin_slot(s, (served - 1) as nat);
    }
}

/// The sessions follow each other in a cycle: after session `i` comes
/// session `i + 1`, and after the last one the first.
pub proof fn lemma_round_robin_cycles(s: RoundRobinState)
    requires
        s.wf(),
        s.counter < usize::MAX,
    ensures
        s.after().slot() == (if s.slot() + 1 == s.size {
            0
        } else {
            s.slot() + 1
        }),
{
    let c = s.counter as int;
    let n = s.size as int;
    vstd::arithmetic::div_mod::lemma_fundamental_div_mod(c, n);
    vstd::arithmetic::div_mod::lemma_fundamental_div_mod(c + 1, n);
    vstd::arithmetic::div_mod::lemma_mod_bound(c, n);
    vstd::arithmetic::div_mod::lemma_mod_bound(c + 1, n);
    let q = c / n;
    let r = c % n;
    assert((q + 1) * n == n * q + n && q * n == n * q) by (nonlinear_arith);
    if r + 1 == n {
        vstd::arithmetic::div_mod::lemma_fundamental_div_mod_converse(c + 1, n, q + 1, 0);
    } else {
        vstd::arithmetic::div_mod::lemma_fundamental_div_mod_converse(c + 1, n, q, r + 1);
    }
}

/// What the next `requests` requests are served by, one by one.
pub proof fn lemma_round_robin_slots(s: RoundRobinState, requests: nat)
    requires
        s.wf(),
        s.runs_on(requests),
    ensures
        s.slots(requests).len() == requests,
        forall|i: int|
            0 <= i < requests ==> #[trigger] s.slots(requests)[i] == (s.counter + i) % (
            s.size as int),
        forall|i: int| 0 <= i < requests ==> #[trigger] s.slots(requests)[i] < s.size,
    decreases requests,
{
    if requests > 0 {
        let before = (requests - 1) as nat;
        lemma_round_robin_slots(s, before);
        lemma_round_robin_slot(s, before);
        vstd::arithmetic::div_mod::lemma_mod_bound((s.counter + before) as int, s.size as int);
    }
}

/// Over `rounds` full rounds, `size * rounds` requests in all, every session
/// serves exactly `rounds` requests, as long as the counter does not start
/// over in between.
pub proof fn lemma_round_robin_is_even(s: RoundRobinState, rounds: nat, slot: nat)
    requires
        s.wf(),
        s.runs_on(s.size * rounds),
        slot < s.size,
    ensures
        s.slots(s.size * rounds).to_multiset().count(slot) == rounds,
{
    lemma_slots_count(s, s.size * rounds, slot);
    lemma_falls_on_whole_rounds(s.counter, s.size, rounds, slot);
}

/// A session serves as many of the next requests as tickets fall on it.
proof fn lemma_slots_count(s: RoundRobinState, requests: nat, slot: nat)
    requires
        s.wf(),
        s.runs_on(requests),
    ensures
        s.slots(requests).to_multiset().count(slot) == falls_on(
            s.counter,
            requests,
            s.size,
            slot,
        ),
    decreases requests,
{
    broadcast use vstd::seq_lib::to_multiset_build;

    if requests == 0 {
        s.slots(requests).to_multiset_ensures();
    } else {
        let before = (requests - 1) as nat;
        lemma_slots_count(s, before, slot);
        lemma_round_robin_slot(s, before);
    }
}

} // verus!
