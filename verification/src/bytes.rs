//! Raw bytes: a leaf formula whose values are written as they are.
//!
//! The bytes take the whole stack range of their cursor, so their count is
//! the length of that range: that of the reference that leads to them.

use crate::error::DeserializeError;
use crate::formula::Formula;
use vstd::prelude::*;

verus! {

/// The formula of a run of raw bytes.
pub struct Bytes;

impl Formula for Bytes {
    type Value = Seq<u8>;

    open spec fn spec_max_stack_size() -> Option<usize> {
        None
    }

    open spec fn spec_exact_size() -> bool {
        false
    }

    open spec fn spec_heapless() -> bool {
        true
    }

    open spec fn stack_bytes(value: Seq<u8>, heap: nat) -> Seq<u8> {
        value
    }

    open spec fn heap_bytes(value: Seq<u8>, heap: nat) -> Seq<u8> {
        Seq::empty()
    }

    open spec fn addressable(value: Seq<u8>, heap: nat) -> bool {
        true
    }

    open spec fn decoded(stack: Seq<u8>, heap: Seq<u8>) -> Result<Seq<u8>, DeserializeError> {
        Ok(stack)
    }

    fn max_stack_size() -> Option<usize> {
        None
    }

    fn exact_size() -> bool {
        false
    }

    fn heapless() -> bool {
        true
    }

    proof fn law_footprint(value: Seq<u8>, heap: nat) {
    }

    proof fn law_round_trip(
        value: Seq<u8>,
        prefix: Seq<u8>,
        suffix: Seq<u8>,
        trailing: Seq<u8>,
    ) {
        assert(value + trailing =~= value);
    }
}

} // verus!
