//! The cyclic policy for callers that share the pool without a lock: the
//! counter is an atomic, and every request draws its ticket from it in one
//! step. Which ticket a request draws depends on who else is asking, so all
//! that is known of the session it falls on is that the pool has it.

use vstd::prelude::*;
use std::sync::atomic::AtomicUsize;
use std::sync::atomic::Ordering;
use crate::round_robin::slot_for_ticket;

verus! {

/// A pool's shared counter.
pub struct SharedRoundRobin {
    size: usize,
    tickets: AtomicUsize,
}

impl SharedRoundRobin {
    /// Holds of every value of the type, at every moment.
    #[verifier::type_invariant]
    spec fn inv(self) -> bool {
        self.size >= 1
    }

    /// How many sessions the pool holds.
    pub closed spec fn spec_size(self) -> usize {
        self.size
    }

    /// The counter of a pool of `size` sessions, or nothing for a pool
    /// without sessions.
    pub fn new(size: usize) -> (counter: Option<SharedRoundRobin>)
        ensures
            size == 0 ==> counter.is_none(),
            size >= 1 ==> counter.is_some(),
            counter matches Some(c) ==> c.spec_size() == size,
    {
        if size == 0 {
            None
        } else {
            Some(SharedRoundRobin { size, tickets: AtomicUsize::new(0) })
        }
    }

    /// How many sessions the pool holds.
    pub fn size(&self) -> (size: usize)
        ensures
            size == self.spec_size(),
            size >= 1,
    {
        proof {
            use_type_invariant(self);
        }
        self.size
    }

    /// The ticket of this request. The counter moves on by one in the same
    /// step, and starts over after the largest number it can hold.
    fn ticket(&self) -> usize {
        self.tickets.fetch_add(1, Ordering::Relaxed)
    }

    /// The session that serves this request: the one its ticket falls on.
    pub fn acquire(&self) -> (slot: usize)
        ensures
            slot < self.spec_size(),
    {
        proof {
            use_type_invariant(self);
        }
        slot_for_ticket(self.ticket(), self.size)
    }
}

} // verus!
