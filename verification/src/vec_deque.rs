//! Double-ended queues.
//!
//! As a formula, a queue of `F` is a reference to a sequence of `F`: one
//! reference on the stack, the elements in the heap. As a value, a queue
//! can be written as, and read from, a sequence of any formula that its
//! elements support, and a queue of bytes as raw bytes.

use crate::buffer::{lemma_extends_transitive, Buffer, Sizes};
use crate::bytes::Bytes;
use crate::deserialize::{deserialize_extend_iter, Deserialize, Deserializer};
use crate::error::{DeserializeError, SerializeError};
use crate::formula::Formula;
use crate::reference::{Ref, REFERENCE_SIZE};
use crate::serialize::{write_ref, write_reference, write_spans, Serialize};
use crate::slice::{iter_sizes, ref_iter_sizes, write_slice, write_slice_ref};
use std::collections::VecDeque;
use vstd::prelude::*;

verus! {

impl<F: Formula> Formula for VecDeque<F> {
    type Value = Seq<F::Value>;

    open spec fn spec_max_stack_size() -> Option<usize> {
        <Ref<[F]> as Formula>::spec_max_stack_size()
    }

    open spec fn spec_exact_size() -> bool {
        <Ref<[F]> as Formula>::spec_exact_size()
    }

    open spec fn spec_heapless() -> bool {
        <Ref<[F]> as Formula>::spec_heapless()
    }

    open spec fn stack_bytes(value: Seq<F::Value>, heap: nat) -> Seq<u8> {
        <Ref<[F]> as Formula>::stack_bytes(value, heap)
    }

    open spec fn heap_bytes(value: Seq<F::Value>, heap: nat) -> Seq<u8> {
        <Ref<[F]> as Formula>::heap_bytes(value, heap)
    }

    open spec fn addressable(value: Seq<F::Value>, heap: nat) -> bool {
        <Ref<[F]> as Formula>::addressable(value, heap)
    }

    open spec fn decoded(stack: Seq<u8>, heap: Seq<u8>) -> Result<
        Seq<F::Value>,
        DeserializeError,
    > {
        <Ref<[F]> as Formula>::decoded(stack, heap)
    }

    fn max_stack_size() -> Option<usize> {
        <Ref<[F]> as Formula>::max_stack_size()
    }

    fn exact_size() -> bool {
        <Ref<[F]> as Formula>::exact_size()
    }

    fn heapless() -> bool {
        <Ref<[F]> as Formula>::heapless()
    }

    proof fn law_footprint(value: Seq<F::Value>, heap: nat) {
        <Ref<[F]> as Formula>::law_footprint(value, heap);
    }

    proof fn law_round_trip(
        value: Seq<F::Value>,
        prefix: Seq<u8>,
        suffix: Seq<u8>,
        trailing: Seq<u8>,
    ) {
        <Ref<[F]> as Formula>::law_round_trip(value, prefix, suffix, trailing);
    }
}

/// Whatever can be written as a sequence of `F` can be written as a queue
/// of `F`: the sequence goes to the heap and a reference to it on the stack.
impl<F: Formula, T: Serialize<[F]>> Serialize<VecDeque<F>> for T {
    fn serialize(self, sizes: &mut Sizes, buffer: &mut Buffer) -> (r: Result<(), SerializeError>) {
        proof {
            <[F] as Formula>::law_footprint(self.deep_view(), sizes.heap as nat);
            vstd::bytes::lemma_auto_spec_u64_to_from_le_bytes();
        }
        let ghost before = *buffer;
        let size = write_ref::<[F], T>(self, sizes, buffer.reborrow())?;
        let ghost between = *buffer;
        let written = write_reference(size, sizes.heap, sizes, buffer);
        proof {
            lemma_extends_transitive(&before, &between, buffer);
        }
        written
    }

    fn size_hint(&self) -> (r: Option<Sizes>) {
        proof {
            vstd::bytes::lemma_auto_spec_u64_to_from_le_bytes();
        }
        let mut sizes = <Self as Serialize<[F]>>::size_hint(self)?;
        if sizes.stack > usize::MAX - sizes.heap {
            return None;
        }
        sizes.to_heap(0);
        sizes.add_stack(REFERENCE_SIZE);
        Some(sizes)
    }
}

/// Whatever can be read from a sequence of `F` can be read from a queue of
/// `F`, by following the reference.
impl<'de, F: Formula, T: Deserialize<'de, [F]>> Deserialize<'de, VecDeque<F>> for T {
    fn deserialize(de: Deserializer<'de>) -> (r: Result<T, DeserializeError>) {
        let de = de.deref()?;
        <T as Deserialize<'de, [F]>>::deserialize(de)
    }

    fn deserialize_in_place(&mut self, de: Deserializer<'de>) -> (r: Result<(), DeserializeError>) {
        let de = de.deref()?;
        <T as Deserialize<'de, [F]>>::deserialize_in_place(self, de)
    }
}

impl<F: Formula, T: Serialize<F>> Serialize<[F]> for VecDeque<T> {
    fn serialize(self, sizes: &mut Sizes, buffer: &mut Buffer) -> (r: Result<(), SerializeError>) {
        proof {
            vstd::bytes::lemma_auto_spec_u64_to_from_le_bytes();
        }
        write_slice::<F, T>(self, sizes, buffer)
    }

    fn size_hint(&self) -> (r: Option<Sizes>) {
        iter_sizes::<F, T>(self)
    }
}

impl<'ser, F: Formula, T: DeepView<V = F::Value>> Serialize<[F]> for &'ser VecDeque<T> where
    &'ser T: Serialize<F>,
 {
    fn serialize(self, sizes: &mut Sizes, buffer: &mut Buffer) -> (r: Result<(), SerializeError>) {
        proof {
            vstd::bytes::lemma_auto_spec_u64_to_from_le_bytes();
        }
        write_slice_ref::<F, T>(self, sizes, buffer)
    }

    fn size_hint(&self) -> (r: Option<Sizes>) {
        ref_iter_sizes::<F, T>(*self)
    }
}

impl<'de, F: Formula, T: Deserialize<'de, F>> Deserialize<'de, [F]> for VecDeque<T> {
    fn deserialize(de: Deserializer<'de>) -> (r: Result<VecDeque<T>, DeserializeError>) {
        let iter = de.into_unsized_iter::<F>();
        let lower = iter.lower_bound();
        let mut deque = VecDeque::with_capacity(lower);
        assert(deque.deep_view() =~= Seq::<F::Value>::empty());
        let ghost values = iter.elements::<F>();
        deserialize_extend_iter::<F, T>(&mut deque, iter)?;
        assert(values is Ok ==> Seq::<F::Value>::empty() + values->Ok_0 =~= values->Ok_0);
        Ok(deque)
    }

    /// Decodes into a new queue first and moves its elements into this one
    /// only when every element has been decoded.
    fn deserialize_in_place(&mut self, de: Deserializer<'de>) -> (r: Result<(), DeserializeError>) {
        let mut decoded = <VecDeque<T> as Deserialize<'de, [F]>>::deserialize(de)?;
        let ghost values = decoded.deep_view();
        self.clear();
        self.reserve(decoded.len());
        self.append(&mut decoded);
        assert(self.deep_view() =~= values);
        Ok(())
    }
}

/// Calls `VecDeque::as_slices` of the standard library, which documents
/// that the two slices it returns hold, in order, the contents of the
/// queue. The contract claims that and no more: nothing is said of where
/// the contents are split.
#[verifier::external_body]
fn as_slices<'a>(deque: &'a VecDeque<u8>) -> (slices: (&'a [u8], &'a [u8]))
    ensures
        slices.0@ + slices.1@ == deque@,
{
    deque.as_slices()
}

/// The model of a queue of bytes is the bytes it holds.
pub proof fn lemma_byte_queue_model(deque: &VecDeque<u8>)
    ensures
        deque.deep_view() == deque@,
{
    assert(deque.deep_view() =~= deque@);
}

/// Appends `bytes` to the back of `deque`.
fn extend_bytes(deque: &mut VecDeque<u8>, bytes: &[u8])
    ensures
        final(deque)@ == old(deque)@ + bytes@,
{
    let mut index: usize = 0;
    assert(deque@ =~= old(deque)@ + bytes@.take(0));
    while index < bytes.len()
        invariant
            index <= bytes@.len(),
            deque@ == old(deque)@ + bytes@.take(index as int),
        decreases bytes@.len() - index,
    {
        deque.push_back(bytes[index]);
        index = index + 1;
        assert(deque@ =~= old(deque)@ + bytes@.take(index as int));
    }
    assert(bytes@.take(index as int) =~= bytes@);
}

/// A queue of bytes written as raw bytes: its two contiguous spans are
/// copied one after the other.
impl Serialize<Bytes> for VecDeque<u8> {
    fn serialize(self, sizes: &mut Sizes, buffer: &mut Buffer) -> (r: Result<(), SerializeError>) {
        proof {
            lemma_byte_queue_model(&self);
        }
        let ghost before = *buffer;
        let (head, tail) = as_slices(&self);
        let written = write_spans(head, tail, sizes, buffer);
        proof {
            assert(before.heap() + Seq::<u8>::empty() =~= before.heap());
        }
        written
    }

    fn size_hint(&self) -> (r: Option<Sizes>) {
        proof {
            lemma_byte_queue_model(self);
        }
        Some(Sizes::with_stack(self.len()))
    }
}

impl<'ser> Serialize<Bytes> for &'ser VecDeque<u8> {
    fn serialize(self, sizes: &mut Sizes, buffer: &mut Buffer) -> (r: Result<(), SerializeError>) {
        proof {
            lemma_byte_queue_model(self);
        }
        let ghost before = *buffer;
        let (head, tail) = as_slices(self);
        let written = write_spans(head, tail, sizes, buffer);
        proof {
            assert(before.heap() + Seq::<u8>::empty() =~= before.heap());
        }
        written
    }

    fn size_hint(&self) -> (r: Option<Sizes>) {
        proof {
            lemma_byte_queue_model(*self);
        }
        Some(Sizes::with_stack(self.len()))
    }
}

impl<'de> Deserialize<'de, Bytes> for VecDeque<u8> {
    fn deserialize(de: Deserializer<'de>) -> (r: Result<VecDeque<u8>, DeserializeError>) {
        let bytes = de.read_all_bytes();
        let mut deque = VecDeque::with_capacity(bytes.len());
        extend_bytes(&mut deque, bytes);
        proof {
            lemma_byte_queue_model(&deque);
            assert(Seq::<u8>::empty() + bytes@ =~= bytes@);
        }
        Ok(deque)
    }

    fn deserialize_in_place(&mut self, de: Deserializer<'de>) -> (r: Result<(), DeserializeError>) {
        self.clear();
        extend_bytes(self, de.read_all_bytes());
        proof {
            lemma_byte_queue_model(self);
            assert(Seq::<u8>::empty() + de.stack() =~= de.stack());
        }
        Ok(())
    }
}

} // verus!
