//! References: the only link from the stack region into the heap region.
//!
//! A reference is written as two unsigned 64-bit little-endian integers,
//! sixteen bytes in all. The first is the offset: the heap total at the
//! moment the reference is emitted, which is where its payload ends. The
//! second is the payload's length. The payload of a reference is therefore
//! the `length` heap bytes that end at `offset`, and everything before the
//! payload is the heap that the payload itself may refer to.

use crate::buffer::{lemma_extends_transitive, Buffer, Sizes};
use crate::deserialize::{Deserialize, Deserializer};
use crate::error::{DeserializeError, SerializeError};
use crate::formula::Formula;
use crate::serialize::{write_ref, write_reference, Serialize};
use std::marker::PhantomData;
use vstd::bytes::*;
use vstd::prelude::*;

verus! {

/// Number of stack bytes that one reference occupies.
pub const REFERENCE_SIZE: usize = 16;

/// A decoded reference: where its payload ends in the heap, and how long the
/// payload is.
#[derive(Clone, Copy, Debug, PartialEq, Eq, Structural)]
pub struct Reference {
    pub offset: usize,
    pub length: usize,
}

/// The sixteen bytes that stand for a reference.
pub open spec fn reference_bytes(offset: nat, length: nat) -> Seq<u8> {
    spec_u64_to_le_bytes(offset as u64) + spec_u64_to_le_bytes(length as u64)
}

/// The offset field of the reference at the start of `bytes`.
pub open spec fn reference_offset(bytes: Seq<u8>) -> nat {
    spec_u64_from_le_bytes(bytes.subrange(0, 8)) as nat
}

/// The length field of the reference at the start of `bytes`.
pub open spec fn reference_length(bytes: Seq<u8>) -> nat {
    spec_u64_from_le_bytes(bytes.subrange(8, 16)) as nat
}

/// Reading back the fields of a written reference gives what was written,
/// whatever bytes follow it.
pub proof fn lemma_reference_fields(offset: nat, length: nat, rest: Seq<u8>)
    requires
        offset <= u64::MAX,
        length <= u64::MAX,
    ensures
        reference_bytes(offset, length).len() == REFERENCE_SIZE,
        reference_offset(reference_bytes(offset, length) + rest) == offset,
        reference_length(reference_bytes(offset, length) + rest) == length,
{
    lemma_auto_spec_u64_to_from_le_bytes();
    let o = spec_u64_to_le_bytes(offset as u64);
    let l = spec_u64_to_le_bytes(length as u64);
    let all = reference_bytes(offset, length) + rest;
    assert(all.subrange(0, 8) =~= o);
    assert(all.subrange(8, 16) =~= l);
}

impl Reference {
    /// The bytes of this reference.
    pub fn to_bytes(&self) -> (bytes: Vec<u8>)
        ensures
            bytes@ == reference_bytes(self.offset as nat, self.length as nat),
            bytes@.len() == REFERENCE_SIZE,
    {
        proof {
            lemma_reference_fields(self.offset as nat, self.length as nat, Seq::empty());
        }
        let mut bytes = u64_to_le_bytes(self.offset as u64);
        let mut length = u64_to_le_bytes(self.length as u64);
        bytes.append(&mut length);
        bytes
    }

    /// Reads the reference at the start of `bytes`. Fields that do not fit
    /// the machine word cannot address any buffer and yield `None`.
    pub fn from_bytes(bytes: &[u8]) -> (r: Option<Reference>)
        requires
            bytes@.len() >= REFERENCE_SIZE,
        ensures
            r is Some <==> reference_offset(bytes@) <= usize::MAX && reference_length(bytes@)
                <= usize::MAX,
            r matches Some(reference) ==> reference.offset == reference_offset(bytes@)
                && reference.length == reference_length(bytes@),
    {
        let offset = u64_from_le_bytes(vstd::slice::slice_subrange(bytes, 0, 8));
        let length = u64_from_le_bytes(vstd::slice::slice_subrange(bytes, 8, 16));
        if offset > usize::MAX as u64 || length > usize::MAX as u64 {
            None
        } else {
            Some(Reference { offset: offset as usize, length: length as usize })
        }
    }
}

/// Stack bytes of a value written behind a reference: the reference itself.
pub open spec fn ref_stack<F: Formula + ?Sized>(value: F::Value, heap: nat) -> Seq<u8> {
    reference_bytes(
        heap + F::heap_bytes(value, heap).len() + F::stack_bytes(value, heap).len(),
        F::stack_bytes(value, heap).len(),
    )
}

/// Heap bytes of a value written behind a reference: what the value itself
/// places in the heap, followed by what it would have placed on the stack.
pub open spec fn ref_heap<F: Formula + ?Sized>(value: F::Value, heap: nat) -> Seq<u8> {
    F::heap_bytes(value, heap) + F::stack_bytes(value, heap)
}

/// Whether every offset written for the value behind a reference fits the
/// machine word.
pub open spec fn ref_addressable<F: Formula + ?Sized>(value: F::Value, heap: nat) -> bool {
    &&& F::addressable(value, heap)
    &&& heap + F::heap_bytes(value, heap).len() + F::stack_bytes(value, heap).len() <= usize::MAX
}

/// Following the reference at the start of `stack` into `heap`: the stack
/// and the heap of the cursor over its payload. The payload is the `length`
/// bytes that end at `offset`; the heap known to the payload is what
/// precedes it.
pub open spec fn dereferenced(stack: Seq<u8>, heap: Seq<u8>) -> Result<
    (Seq<u8>, Seq<u8>),
    DeserializeError,
> {
    if stack.len() < REFERENCE_SIZE {
        Err(DeserializeError::UnexpectedEnd)
    } else {
        let offset = reference_offset(stack);
        let length = reference_length(stack);
        if offset > heap.len() || length > offset {
            Err(DeserializeError::InvalidReference)
        } else {
            Ok((heap.subrange(offset - length, offset as int), heap.take(offset - length)))
        }
    }
}

/// Decoding through a reference: follow it, then decode the payload.
pub open spec fn ref_decoded<F: Formula + ?Sized>(stack: Seq<u8>, heap: Seq<u8>) -> Result<
    F::Value,
    DeserializeError,
> {
    match dereferenced(stack, heap) {
        Ok((payload, before)) => F::decoded(payload, before),
        Err(e) => Err(e),
    }
}

/// A value written behind a reference decodes to itself, whatever precedes
/// and follows its heap bytes and whatever follows the reference.
pub proof fn lemma_ref_round_trip<F: Formula + ?Sized>(
    value: F::Value,
    prefix: Seq<u8>,
    suffix: Seq<u8>,
    trailing: Seq<u8>,
)
    requires
        ref_addressable::<F>(value, prefix.len()),
    ensures
        ref_stack::<F>(value, prefix.len()).len() == REFERENCE_SIZE,
        ref_decoded::<F>(
            ref_stack::<F>(value, prefix.len()) + trailing,
            prefix + ref_heap::<F>(value, prefix.len()) + suffix,
        ) == Ok::<F::Value, DeserializeError>(value),
{
    let base = prefix.len();
    let own_heap = F::heap_bytes(value, base);
    let own_stack = F::stack_bytes(value, base);
    let offset = base + own_heap.len() + own_stack.len();
    let heap = prefix + ref_heap::<F>(value, base) + suffix;
    lemma_reference_fields(offset, own_stack.len(), trailing);
    F::law_round_trip(value, prefix, Seq::empty(), Seq::empty());
    let start = offset - own_stack.len();
    assert(heap.subrange(start, offset as int) =~= own_stack + Seq::<u8>::empty());
    assert(heap.take(start) =~= prefix + own_heap + Seq::<u8>::empty());
}

/// The formula of a value of formula `F` that lives in the heap and is
/// reached through a reference on the stack.
pub struct Ref<F: ?Sized> {
    marker: PhantomData<F>,
}

impl<F: Formula + ?Sized> Formula for Ref<F> {
    type Value = F::Value;

    open spec fn spec_max_stack_size() -> Option<usize> {
        Some(REFERENCE_SIZE)
    }

    open spec fn spec_exact_size() -> bool {
        true
    }

    open spec fn spec_heapless() -> bool {
        false
    }

    open spec fn stack_bytes(value: F::Value, heap: nat) -> Seq<u8> {
        ref_stack::<F>(value, heap)
    }

    open spec fn heap_bytes(value: F::Value, heap: nat) -> Seq<u8> {
        ref_heap::<F>(value, heap)
    }

    open spec fn addressable(value: F::Value, heap: nat) -> bool {
        ref_addressable::<F>(value, heap)
    }

    open spec fn decoded(stack: Seq<u8>, heap: Seq<u8>) -> Result<F::Value, DeserializeError> {
        ref_decoded::<F>(stack, heap)
    }

    fn max_stack_size() -> Option<usize> {
        Some(REFERENCE_SIZE)
    }

    fn exact_size() -> bool {
        true
    }

    fn heapless() -> bool {
        false
    }

    proof fn law_footprint(value: F::Value, heap: nat) {
        lemma_auto_spec_u64_to_from_le_bytes();
        F::law_footprint(value, heap);
    }

    proof fn law_round_trip(
        value: F::Value,
        prefix: Seq<u8>,
        suffix: Seq<u8>,
        trailing: Seq<u8>,
    ) {
        lemma_ref_round_trip::<F>(value, prefix, suffix, trailing);
    }
}

/// Whatever can be written as `F` can be written behind a reference: the
/// value goes to the heap and the reference to it on the stack.
impl<F: Formula + ?Sized, T: Serialize<F>> Serialize<Ref<F>> for T {
    fn serialize(self, sizes: &mut Sizes, buffer: &mut Buffer) -> (r: Result<(), SerializeError>) {
        proof {
            F::law_footprint(self.deep_view(), sizes.heap as nat);
            lemma_auto_spec_u64_to_from_le_bytes();
        }
        let ghost before = *buffer;
        let length = write_ref::<F, T>(self, sizes, buffer.reborrow())?;
        let ghost between = *buffer;
        let written = write_reference(length, sizes.heap, sizes, buffer);
        proof {
            lemma_extends_transitive(&before, &between, buffer);
        }
        written
    }

    fn size_hint(&self) -> (r: Option<Sizes>) {
        proof {
            lemma_auto_spec_u64_to_from_le_bytes();
        }
        let mut sizes = <Self as Serialize<F>>::size_hint(self)?;
        if sizes.stack > usize::MAX - sizes.heap {
            return None;
        }
        sizes.to_heap(0);
        sizes.add_stack(REFERENCE_SIZE);
        Some(sizes)
    }
}

/// Whatever can be read from `F` can be read from behind a reference.
impl<'de, F: Formula + ?Sized, T: Deserialize<'de, F>> Deserialize<'de, Ref<F>> for T {
    fn deserialize(de: Deserializer<'de>) -> (r: Result<T, DeserializeError>) {
        let de = de.deref()?;
        <T as Deserialize<'de, F>>::deserialize(de)
    }

    fn deserialize_in_place(&mut self, de: Deserializer<'de>) -> (r: Result<(), DeserializeError>) {
        let de = de.deref()?;
        <T as Deserialize<'de, F>>::deserialize_in_place(self, de)
    }
}

} // verus!
