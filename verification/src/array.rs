//! Runs of a fixed number of elements of one formula.
//!
//! An array of `N` elements is written as its elements, each as a field,
//! with no count: the formula carries the count.

use crate::deserialize::{deserialize_extend_iter, Deserialize, Deserializer};
use crate::error::DeserializeError;
use crate::formula::{field_layout, field_width, spec_field_width, spec_inline_field, Formula};
use crate::slice::{
    elems_addressable, elems_decoded, elems_heap, elems_stack, lemma_elems_footprint,
    lemma_elems_round_trip,
};
use std::collections::VecDeque;
use vstd::prelude::*;

verus! {

/// The first `count` of the values, filled up with arbitrary values where
/// there are fewer.
pub open spec fn fitted<V>(values: Seq<V>, count: nat) -> Seq<V> {
    Seq::new(
        count,
        |i: int|
            if i < values.len() {
                values[i]
            } else {
                arbitrary()
            },
    )
}

/// Stack bound of `count` fields of formula `F`: unbounded when the product
/// does not fit the machine word.
pub open spec fn array_bound<F: Formula>(count: usize) -> Option<usize> {
    if count * spec_field_width::<F>() <= usize::MAX {
        Some((count * spec_field_width::<F>()) as usize)
    } else {
        None
    }
}

impl<F: Formula, const N: usize> Formula for [F; N] {
    type Value = Seq<F::Value>;

    open spec fn spec_max_stack_size() -> Option<usize> {
        array_bound::<F>(N)
    }

    open spec fn spec_exact_size() -> bool {
        array_bound::<F>(N) is Some
    }

    open spec fn spec_heapless() -> bool {
        spec_inline_field::<F>()
    }

    open spec fn stack_bytes(value: Seq<F::Value>, heap: nat) -> Seq<u8> {
        elems_stack::<F>(fitted(value, N as nat), heap)
    }

    open spec fn heap_bytes(value: Seq<F::Value>, heap: nat) -> Seq<u8> {
        elems_heap::<F>(fitted(value, N as nat), heap)
    }

    open spec fn addressable(value: Seq<F::Value>, heap: nat) -> bool {
        &&& value.len() == N
        &&& elems_addressable::<F>(value, heap)
    }

    open spec fn decoded(stack: Seq<u8>, heap: Seq<u8>) -> Result<
        Seq<F::Value>,
        DeserializeError,
    > {
        elems_decoded::<F>(stack, heap, N as nat)
    }

    fn max_stack_size() -> Option<usize> {
        N.checked_mul(field_width::<F>())
    }

    fn exact_size() -> bool {
        N.checked_mul(field_width::<F>()).is_some()
    }

    fn heapless() -> bool {
        field_layout::<F>().is_some()
    }

    proof fn law_footprint(value: Seq<F::Value>, heap: nat) {
        lemma_elems_footprint::<F>(fitted(value, N as nat), heap, 0);
        lemma_elems_footprint::<F>(fitted(value, N as nat), 0, 0);
    }

    proof fn law_round_trip(
        value: Seq<F::Value>,
        prefix: Seq<u8>,
        suffix: Seq<u8>,
        trailing: Seq<u8>,
    ) {
        assert(fitted(value, N as nat) =~= value);
        lemma_elems_round_trip::<F>(value, prefix, suffix, trailing);
    }
}

impl<'de, F: Formula, T: Deserialize<'de, F>, const N: usize> Deserialize<
    'de,
    [F; N],
> for VecDeque<T> {
    fn deserialize(de: Deserializer<'de>) -> (r: Result<VecDeque<T>, DeserializeError>) {
        let iter = de.into_unsized_array_iter::<F>(N);
        let mut deque = VecDeque::with_capacity(iter.lower_bound());
        assert(deque.deep_view() =~= Seq::<F::Value>::empty());
        let ghost values = iter.elements::<F>();
        deserialize_extend_iter::<F, T>(&mut deque, iter)?;
        assert(values is Ok ==> Seq::<F::Value>::empty() + values->Ok_0 =~= values->Ok_0);
        Ok(deque)
    }

    /// Decodes into a new queue first and moves its elements into this one
    /// only when every element has been decoded.
    fn deserialize_in_place(&mut self, de: Deserializer<'de>) -> (r: Result<(), DeserializeError>) {
        let mut decoded = <VecDeque<T> as Deserialize<'de, [F; N]>>::deserialize(de)?;
        let ghost values = decoded.deep_view();
        self.clear();
        self.reserve(decoded.len());
        self.append(&mut decoded);
        assert(self.deep_view() =~= values);
        Ok(())
    }
}

} // verus!
