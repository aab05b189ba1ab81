//! The conditions that end a search before it has an answer.

use vstd::prelude::*;

verus! {

/// Why the engine gave up.
#[derive(Copy, Clone, Debug, PartialEq, Eq, Structural)]
pub enum EngineError {
    /// The heap or a descriptor is not what a compiler leaves behind: a
    /// pointer leads out of the heap, a block does not fit, a chain of
    /// bindings runs in a circle.
    InternalInvariantViolation,
    /// The heap or the trail would grow beyond its bound, or a term nests
    /// deeper than it is followed: in a unification, deeper than the heap
    /// has cells.
    ResourceExhausted,
}

} // verus!
