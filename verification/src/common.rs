//! Common-reference material bookkeeping.
//!
//! `RefFinder` names the destinations for persisting the parts of a common
//! reference string: the circuit text, the compiled QAP and the two group
//! halves of the setup output.  Reading and writing those artifacts is the
//! persistence layer's own step.

use vstd::prelude::*;

verus! {

/// Destination names for the four persisted parts of a common reference
/// string.
pub struct RefFinder {
    pub code: String,
    pub qap: String,
    pub sg1: String,
    pub sg2: String,
}

} // verus!
