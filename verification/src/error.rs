//! Failure kinds of the encode and decode paths.

use vstd::prelude::*;

verus! {

/// Why an encode call could not commit its bytes.
#[derive(Clone, Copy, Debug, PartialEq, Eq, Structural)]
pub enum SerializeError {
    /// The destination has a fixed capacity and the write would exceed it.
    OutOfSpace,
}

/// Why a decode call rejected its input.
#[derive(Clone, Copy, Debug, PartialEq, Eq, Structural)]
pub enum DeserializeError {
    /// A read asked for more stack bytes than the cursor still holds.
    UnexpectedEnd,
    /// A reference designates bytes outside the heap known to the cursor.
    InvalidReference,
    /// A tag byte matches no variant of the sum type being decoded.
    UnexpectedDiscriminant,
}

} // verus!
