//! Errors raised while building or serializing a devicetree.

use vstd::prelude::*;

verus! {

/// Everything that can go wrong while building a tree or emitting the blob.
///
/// Every failure is deterministic in the inputs; a rejected operation never
/// leaves the tree partially updated.
#[derive(Debug, PartialEq, Eq)]
pub enum Error {
    /// A node or property name violates the devicetree name grammar.
    InvalidName(String),
    /// A string property value contains an embedded terminator byte.
    InvalidString(String),
    /// A property value's byte length does not fit in 32 bits.
    PropertyValueTooLarge,
    /// The finished blob's byte length does not fit in 32 bits.
    TotalSizeTooLarge,
}

} // verus!
