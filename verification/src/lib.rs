//! Two deterministic ledger modules, written as verified state-transition
//! functions: a breedable-creature registry and a content-claim registry.
//!
//! Each registry owns its maps and counters as plain data; a transition
//! validates its preconditions against the current state, then either applies
//! all of its writes or returns a named error and leaves the state unchanged.

use vstd::prelude::*;

pub mod claims;
pub mod dna;
pub mod kitties;

verus! {

/// Account identifier, as assigned by the surrounding runtime.
pub type AccountId = u64;

/// Height of the block a transition executes in.
pub type BlockNumber = u64;

} // verus!
