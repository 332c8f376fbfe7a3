//! The pool: a fixed set of sessions and the policy that hands them out.
//! Asking for a session does no I/O and never waits.

use vstd::prelude::*;
use crate::affinity::{Affinity, AffinityState};
use crate::policy::AssignmentPolicy;
use crate::round_robin::{RoundRobin, RoundRobinState};
use crate::startup::StartupError;

verus! {

/// The bookkeeping of the policy in force, as a value.
pub enum AssignerState {
    RoundRobin(RoundRobinState),
    Affinity(AffinityState),
}

impl AssignerState {
    /// The bookkeeping of a pool of `size` sessions that nobody has used.
    pub open spec fn fresh(policy: AssignmentPolicy, size: nat) -> AssignerState {
        match policy {
            AssignmentPolicy::RoundRobin => AssignerState::RoundRobin(RoundRobinState::fresh(size)),
            AssignmentPolicy::Affinity => AssignerState::Affinity(AffinityState::fresh(size)),
        }
    }

    /// The policy in force.
    pub open spec fn policy(self) -> AssignmentPolicy {
        match self {
            AssignerState::RoundRobin(_) => AssignmentPolicy::RoundRobin,
            AssignerState::Affinity(_) => AssignmentPolicy::Affinity,
        }
    }

    /// How many sessions are handed out.
    pub open spec fn size(self) -> nat {
        match self {
            AssignerState::RoundRobin(counter) => counter.size,
            AssignerState::Affinity(record) => record.size,
        }
    }

    /// The bookkeeping of the policy in force is well formed.
    pub open spec fn wf(self) -> bool {
        match self {
            AssignerState::RoundRobin(counter) => counter.wf(),
            AssignerState::Affinity(record) => record.wf(),
        }
    }

    /// Whether `caller` can be served. The cyclic policy serves everybody.
    pub open spec fn can_serve(self, caller: u64) -> bool {
        match self {
            AssignerState::RoundRobin(_) => true,
            AssignerState::Affinity(record) => record.can_serve(caller),
        }
    }

    /// The session that serves `caller`, if it can be served.
    pub open spec fn slot_for(self, caller: u64) -> Option<usize> {
        match self {
            AssignerState::RoundRobin(counter) => Some(counter.slot() as usize),
            AssignerState::Affinity(record) => record.slot_for(caller),
        }
    }

    /// The session `caller` is known to hold, without any change to the
    /// bookkeeping. The cyclic policy knows of none.
    pub open spec fn held_by(self, caller: u64) -> Option<usize> {
        match self {
            AssignerState::RoundRobin(_) => None,
            AssignerState::Affinity(record) => if record.claimed.contains_key(caller) {
                Some(record.claimed[caller])
            } else {
                None
            },
        }
    }

    /// The bookkeeping once `caller` has asked for its session.
    pub open spec fn after(self, caller: u64) -> AssignerState {
        match self {
            AssignerState::RoundRobin(counter) => AssignerState::RoundRobin(counter.after()),
            AssignerState::Affinity(record) => AssignerState::Affinity(record.after(caller)),
        }
    }
}

impl AssignerState {
    /// The bookkeeping once each of `callers` has asked in turn.
    pub open spec fn after_all(self, callers: Seq<u64>) -> AssignerState
        decreases callers.len(),
    {
        if callers.len() == 0 {
            self
        } else {
            self.after(callers[0]).after_all(callers.skip(1))
        }
    }
}

/// However many callers ask, and whoever they are, the bookkeeping stays
/// well formed and the pool its size, and whoever is served is served by a
/// session of the pool. More callers than sessions break nothing: under the
/// sticky policy those that come too late are not served, under the cyclic
/// policy everybody is.
pub proof fn lemma_any_callers_keep_the_pool_whole(s: AssignerState, callers: Seq<u64>, next: u64)
    requires
        s.wf(),
    ensures
        s.after_all(callers).wf(),
        s.after_all(callers).size() == s.size(),
        s.after_all(callers).policy() == s.policy(),
        s.after_all(callers).slot_for(next) matches Some(slot) ==> slot < s.size(),
        s.policy() == AssignmentPolicy::RoundRobin ==> s.after_all(callers).can_serve(next),
    decreases callers.len(),
{
    match s {
        AssignerState::RoundRobin(counter) => {
            crate::round_robin::lemma_round_robin_step_keeps_wf(counter);
        },
        AssignerState::Affinity(record) => {
            if callers.len() > 0 {
                crate::affinity::lemma_claim_keeps_wf(record, callers[0]);
            }
        },
    }
    if callers.len() > 0 {
        lemma_any_callers_keep_the_pool_whole(s.after(callers[0]), callers.skip(1), next);
    }
}

/// The pool as a value: its sessions and the bookkeeping of its policy.
pub struct PoolState<S> {
    pub sessions: Seq<S>,
    pub assigner: AssignerState,
}

impl<S> PoolState<S> {
    /// There is a session, and the policy hands out exactly the sessions
    /// there are.
    pub open spec fn wf(self) -> bool {
        &&& self.sessions.len() >= 1
        &&& self.assigner.size() == self.sessions.len()
        &&& self.assigner.wf()
    }
}

/// The bookkeeping of the policy in force.
enum Assigner {
    RoundRobin(RoundRobin),
    Affinity(Affinity),
}

impl View for Assigner {
    type V = AssignerState;

    closed spec fn view(&self) -> AssignerState {
        match self {
            Assigner::RoundRobin(counter) => AssignerState::RoundRobin(counter@),
            Assigner::Affinity(record) => AssignerState::Affinity(record@),
        }
    }
}

/// A pool of sessions of type `S`.
pub struct Pool<S> {
    sessions: Vec<S>,
    assigner: Assigner,
}

impl<S> View for Pool<S> {
    type V = PoolState<S>;

    closed spec fn view(&self) -> PoolState<S> {
        PoolState { sessions: self.sessions@, assigner: self.assigner@ }
    }
}

impl<S> Pool<S> {
    /// Holds of every value of the type, at every moment.
    #[verifier::type_invariant]
    spec fn inv(self) -> bool {
        self@.wf()
    }

    /// The pool over `sessions`, handed out by `policy`. A pool needs at
    /// least one session.
    pub fn new(sessions: Vec<S>, policy: AssignmentPolicy) -> (pool: Result<Pool<S>, StartupError>)
        ensures
            sessions@.len() == 0 ==> pool is Err && pool->Err_0 == StartupError::EmptyPool,
            sessions@.len() >= 1 ==> pool is Ok,
            pool matches Ok(p) ==> {
                &&& p@.sessions == sessions@
                &&& p@.assigner == AssignerState::fresh(policy, sessions@.len())
                &&& p@.wf()
            },
    {
        let size: usize = sessions.len();
        if size == 0 {
            return Err(StartupError::EmptyPool);
        }
        let assigner = match policy {
            AssignmentPolicy::RoundRobin => match RoundRobin::new(size) {
                Some(counter) => Assigner::RoundRobin(counter),
                None => {
                    return Err(StartupError::EmptyPool);
                },
            },
            AssignmentPolicy::Affinity => {
                let record = Affinity::new(size);
                proof {
                    assert(record@.claimed.dom() =~= Set::<u64>::empty());
                }
                Assigner::Affinity(record)
            },
        };
        Ok(Pool { sessions, assigner })
    }

    /// The policy in force.
    pub fn policy(&self) -> (policy: AssignmentPolicy)
        ensures
            policy == self@.assigner.policy(),
    {
        match &self.assigner {
            Assigner::RoundRobin(_) => AssignmentPolicy::RoundRobin,
            Assigner::Affinity(_) => AssignmentPolicy::Affinity,
        }
    }

    /// How many sessions the pool holds.
    pub fn size(&self) -> (size: usize)
        ensures
            size == self@.sessions.len(),
            size >= 1,
    {
        proof {
            use_type_invariant(self);
        }
        self.sessions.len()
    }

    /// The session at `slot`, if the pool has that many.
    pub fn session(&self, slot: usize) -> (session: Option<&S>)
        ensures
            slot < self@.sessions.len() ==> session == Some(&self@.sessions[slot as int]),
            slot >= self@.sessions.len() ==> session.is_none(),
    {
        if slot < self.sessions.len() {
            Some(&self.sessions[slot])
        } else {
            None
        }
    }

    /// The session `caller` is known to hold. Nothing changes, so callers
    /// may look side by side; a caller that learns nothing here asks with
    /// `try_acquire`.
    pub fn assigned(&self, caller: u64) -> (slot: Option<usize>)
        ensures
            slot == self@.assigner.held_by(caller),
            slot matches Some(s) ==> s < self@.sessions.len(),
    {
        proof {
            use_type_invariant(self);
        }
        match &self.assigner {
            Assigner::RoundRobin(_) => None,
            Assigner::Affinity(record) => record.assigned(caller),
        }
    }

    /// The session that serves `caller`, as the policy has it. `None` only
    /// under the sticky policy, when `caller` holds no session and none is
    /// left; the pool is then unchanged.
    pub fn try_acquire(&mut self, caller: u64) -> (slot: Option<usize>)
        ensures
            slot == old(self)@.assigner.slot_for(caller),
            slot.is_some() == old(self)@.assigner.can_serve(caller),
            slot matches Some(s) ==> s < old(self)@.sessions.len(),
            final(self)@.sessions == old(self)@.sessions,
            final(self)@.assigner == old(self)@.assigner.after(caller),
    {
        proof {
            use_type_invariant(&*self);
        }
        // The bookkeeping is taken out while it works and an unused one of
        // the same size stands in, so the pool is whole at every moment.
        let stand_in = Affinity::new(self.sessions.len());
        proof {
            assert(stand_in@.claimed.dom() =~= Set::<u64>::empty());
        }
        let mut assigner = Assigner::Affinity(stand_in);
        std::mem::swap(&mut assigner, &mut self.assigner);
        let slot: Option<usize> = match assigner {
            Assigner::RoundRobin(mut counter) => {
                let slot: usize = counter.acquire();
                proof {
                    crate::round_robin::lemma_round_robin_step_keeps_wf(
                        old(self)@.assigner->RoundRobin_0,
                    );
                }
                self.assigner = Assigner::RoundRobin(counter);
                Some(slot)
            },
            Assigner::Affinity(mut record) => {
                let slot: Option<usize> = record.try_acquire(caller);
                proof {
                    crate::affinity::lemma_claim_keeps_wf(old(self)@.assigner->Affinity_0, caller);
                }
                self.assigner = Assigner::Affinity(record);
                slot
            },
        };
        slot
    }

    /// The session that serves `caller`, itself rather than its slot.
    pub fn try_acquire_session(&mut self, caller: u64) -> (session: Option<&S>)
        ensures
            session == match old(self)@.assigner.slot_for(caller) {
                Some(slot) => Some(&old(self)@.sessions[slot as int]),
                None => None,
            },
            final(self)@.sessions == old(self)@.sessions,
            final(self)@.assigner == old(self)@.assigner.after(caller),
    {
        match self.try_acquire(caller) {
            Some(slot) => self.session(slot),
            None => None,
        }
    }

    /// The session that serves `caller`, for a caller that can be served.
    pub fn acquire(&mut self, caller: u64) -> (slot: usize)
        requires
            old(self)@.assigner.can_serve(caller),
        ensures
            Some(slot) == old(self)@.assigner.slot_for(caller),
            slot < old(self)@.sessions.len(),
            final(self)@.sessions == old(self)@.sessions,
            final(self)@.assigner == old(self)@.assigner.after(caller),
    {
        match self.try_acquire(caller) {
            Some(slot) => slot,
            None => {
                proof {
                    assert(false);
                }
                0
            },
        }
    }

    /// The session that serves `caller`, itself rather than its slot, for a
    /// caller that can be served.
    pub fn acquire_session(&mut self, caller: u64) -> (session: &S)
        requires
            old(self)@.assigner.can_serve(caller),
        ensures
            old(self)@.assigner.slot_for(caller) matches Some(slot) && *session
                == old(self)@.sessions[slot as int],
            final(self)@.sessions == old(self)@.sessions,
            final(self)@.assigner == old(self)@.assigner.after(caller),
    {
        let slot: usize = self.acquire(caller);
        &self.sessions[slot]
    }
}

} // verus!
