//! The two choices a deployment makes.

use vstd::prelude::*;

verus! {

/// How the pool hands its sessions to callers.
#[derive(Clone, Copy, Debug, PartialEq, Eq, Structural)]
pub enum AssignmentPolicy {
    /// A shared counter walks the sessions in a cycle. Two callers may be
    /// handed the same session, so the protocol must tolerate pipelined use.
    RoundRobin,
    /// Each caller identity claims one session on first use and keeps it.
    Affinity,
}

/// How a batch update reaches the store.
#[derive(Clone, Copy, Debug, PartialEq, Eq, Structural)]
pub enum UpdatePolicy {
    /// One plain lookup per row, then one batch statement, outside any
    /// transaction.
    Literal,
    /// Row-locking lookups, the batch statement and the commit inside one
    /// transaction, rolled back on any failure.
    Transactional,
}

} // verus!
