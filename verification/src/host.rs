//! The trace of host calls that a circuit is to certify.

use vstd::prelude::*;

verus! {

/// One entry of a trace of host calls.
#[derive(Clone, Copy, Debug, PartialEq, Eq, Structural)]
pub struct ExternalHostCallEntry {
    /// The code of the host operation.
    pub op: usize,
    /// An operand of the operation, or the value that it returned.
    pub value: u64,
    /// Whether `value` is what the operation returned.
    pub is_ret: bool,
}

/// A trace of host calls, in the order in which they were made.
#[derive(Debug)]
pub struct ExternalHostCallEntryTable(pub Vec<ExternalHostCallEntry>);

} // verus!
