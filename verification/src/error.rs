//! Why an operation against the store did not finish.

use vstd::prelude::*;

verus! {

/// The failure of one operation. Nothing is retried, and no partial result
/// is handed out.
#[derive(Clone, Copy, Debug, PartialEq, Eq, Structural)]
pub enum DispatchError {
    /// No random generator could be seeded for the call.
    Entropy,
    /// A round trip to the store failed, or the store answered with a row
    /// that was not asked for.
    Store,
}

} // verus!
