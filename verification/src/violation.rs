//! The ways in which a call can fail.

use vstd::prelude::*;

verus! {

/// An invariant that a call found violated. Every fallible function of the
/// crate reports one of these instead of panicking.
#[derive(Debug, Clone, Copy, PartialEq, Eq, Structural)]
pub enum Violation {
    /// A body was looked up by a name or an id that no body carries.
    LookupMiss,
    /// An orbiting body has no parent to orbit.
    UnreachableParent,
    /// A vector of length zero was to be normalized.
    DegenerateNormalize,
    /// A step of decimal arithmetic has no result that a `Decimal` can hold.
    Unrepresentable,
}

} // verus!
