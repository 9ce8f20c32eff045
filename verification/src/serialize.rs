//! The encode contract, and the writes that every container shares.

use crate::buffer::{lemma_extends_transitive, Buffer, Sizes};
use crate::error::SerializeError;
use crate::formula::{
    field_addressable, field_heap, field_stack, heap_len, lemma_field_footprint, root_bytes,
    spec_field_width, stack_len, Formula,
};
use crate::reference::{ref_heap, reference_bytes, Reference, REFERENCE_SIZE};
use vstd::prelude::*;

verus! {

/// What a size estimate for a value is: the exact lengths that a write will
/// commit to each region, or `None` when one of them does not fit the
/// machine word.
pub open spec fn spec_size_hint<F: Formula + ?Sized>(value: F::Value) -> Option<Sizes> {
    let stack = stack_len::<F>(value);
    let heap = heap_len::<F>(value);
    if stack <= usize::MAX && heap <= usize::MAX {
        Some(Sizes { heap: heap as usize, stack: stack as usize })
    } else {
        None
    }
}

/// An estimate never falls short of what a write commits, at whatever heap
/// position the value is written.
pub proof fn lemma_size_hint_sound<F: Formula + ?Sized>(value: F::Value, heap: nat)
    ensures
        spec_size_hint::<F>(value) matches Some(sizes) ==> sizes.stack >= F::stack_bytes(
            value,
            heap,
        ).len() && sizes.heap >= F::heap_bytes(value, heap).len(),
{
    F::law_footprint(value, heap);
}

/// A type whose values can be written in the shape of formula `F`.
pub trait Serialize<F: Formula + ?Sized>: Sized + DeepView<V = F::Value> {
    /// Writes the value: its stack bytes at the end of the stack region and
    /// its heap bytes at the end of the heap region. Fails exactly when the
    /// buffer has no room for both. What a failed write had committed before
    /// it failed stays committed: what the buffer held before the call is
    /// still at the front of both regions, and the accumulator counts what
    /// the buffer holds, whatever the outcome.
    fn serialize(self, sizes: &mut Sizes, buffer: &mut Buffer) -> (r: Result<(), SerializeError>)
        requires
            old(buffer).tracks(*old(sizes)),
        ensures
            final(buffer).tracks(*final(sizes)),
            final(buffer).extends(old(buffer)),
            r is Ok <==> old(buffer).has_room(
                stack_len::<F>(self.deep_view()) + heap_len::<F>(self.deep_view()),
            ),
            r is Ok ==> final(buffer).stack() == old(buffer).stack() + F::stack_bytes(
                self.deep_view(),
                old(sizes).heap as nat,
            ),
            r is Ok ==> final(buffer).heap() == old(buffer).heap() + F::heap_bytes(
                self.deep_view(),
                old(sizes).heap as nat,
            ),
            r is Ok ==> F::addressable(self.deep_view(), old(sizes).heap as nat),
    ;

    /// The sizes that writing the value will commit.
    fn size_hint(&self) -> (r: Option<Sizes>)
        ensures
            r == spec_size_hint::<F>(self.deep_view()),
    ;
}

/// Writes the payload of a reference: the value's heap bytes, then its stack
/// bytes, all at the end of the heap region. Returns the number of stack
/// bytes, which is the length that the reference must carry. Fails exactly
/// when the payload does not fit.
pub fn write_ref<F: Formula + ?Sized, T: Serialize<F>>(
    value: T,
    sizes: &mut Sizes,
    buffer: &mut Buffer,
) -> (r: Result<usize, SerializeError>)
    requires
        old(buffer).tracks(*old(sizes)),
    ensures
        final(buffer).tracks(*final(sizes)),
        final(buffer).extends(old(buffer)),
        r is Ok <==> old(buffer).has_room(
            stack_len::<F>(value.deep_view()) + heap_len::<F>(value.deep_view()),
        ),
        r matches Ok(length) ==> length == F::stack_bytes(
            value.deep_view(),
            old(sizes).heap as nat,
        ).len(),
        r is Ok ==> final(buffer).stack() == old(buffer).stack(),
        r is Ok ==> final(buffer).heap() == old(buffer).heap() + ref_heap::<F>(
            value.deep_view(),
            old(sizes).heap as nat,
        ),
        r is Ok ==> F::addressable(value.deep_view(), old(sizes).heap as nat),
{
    let start = sizes.stack;
    let ghost before = *buffer;
    let ghost own_stack = F::stack_bytes(value.deep_view(), sizes.heap as nat);
    let ghost own_heap = F::heap_bytes(value.deep_view(), sizes.heap as nat);
    value.serialize(sizes, buffer)?;
    let length = sizes.stack - start;
    buffer.move_to_heap(sizes, length);
    proof {
        assert((before.stack() + own_stack).take(before.stack().len() as int)
            =~= before.stack());
        assert((before.stack() + own_stack).skip(before.stack().len() as int) =~= own_stack);
        assert(buffer.heap() =~= before.heap() + (own_heap + own_stack));
    }
    Ok(length)
}

/// Writes the reference to a payload of `length` bytes that ends at heap
/// position `offset`.
pub fn write_reference(length: usize, offset: usize, sizes: &mut Sizes, buffer: &mut Buffer) -> (r:
    Result<(), SerializeError>)
    requires
        old(buffer).tracks(*old(sizes)),
    ensures
        final(buffer).tracks(*final(sizes)),
        final(buffer).extends(old(buffer)),
        r is Ok <==> old(buffer).has_room(REFERENCE_SIZE as nat),
        r is Ok ==> final(buffer).stack() == old(buffer).stack() + reference_bytes(
            offset as nat,
            length as nat,
        ),
        r is Ok ==> final(buffer).heap() == old(buffer).heap(),
        r is Err ==> final(buffer).same_contents(old(buffer)),
{
    let bytes = (Reference { offset, length }).to_bytes();
    buffer.write_bytes(sizes, bytes.as_slice())
}

/// Writes two spans of bytes to the stack region, the first and then the
/// second. Succeeds exactly when both fit. Where the first fits and the
/// second does not, the first stays committed and counted; where the first
/// does not fit, nothing is written.
pub fn write_spans(head: &[u8], tail: &[u8], sizes: &mut Sizes, buffer: &mut Buffer) -> (r: Result<
    (),
    SerializeError,
>)
    requires
        old(buffer).tracks(*old(sizes)),
    ensures
        final(buffer).tracks(*final(sizes)),
        final(buffer).extends(old(buffer)),
        final(buffer).heap() == old(buffer).heap(),
        r is Ok <==> old(buffer).has_room(head@.len() + tail@.len()),
        r is Ok ==> final(buffer).stack() == old(buffer).stack() + (head@ + tail@),
        r is Err ==> final(buffer).stack() == if old(buffer).has_room(head@.len()) {
            old(buffer).stack() + head@
        } else {
            old(buffer).stack()
        },
{
    let ghost before = *buffer;
    buffer.reborrow().write_bytes(sizes, head)?;
    let ghost between = *buffer;
    let written = buffer.write_bytes(sizes, tail);
    proof {
        lemma_extends_transitive(&before, &between, buffer);
        assert(before.stack() + head@ + tail@ =~= before.stack() + (head@ + tail@));
    }
    written
}

/// Encodes `value` as the root of `buffer` and returns the finished bytes,
/// stack region first, with the sizes of the two regions. Fails exactly
/// when the buffer has no room; a buffer without a limit always has.
pub fn serialize<F: Formula + ?Sized, T: Serialize<F>>(value: T, buffer: Buffer) -> (r: Result<
    (Vec<u8>, Sizes),
    SerializeError,
>)
    ensures
        r is Ok <==> buffer.has_room(
            spec_field_width::<F>() + field_heap::<F>(value.deep_view(), 0).len(),
        ),
        r matches Ok((bytes, sizes)) ==> {
            &&& bytes@ == (buffer.stack() + field_stack::<F>(
                value.deep_view(),
                buffer.heap().len(),
            )) + (buffer.heap() + field_heap::<F>(value.deep_view(), buffer.heap().len()))
            &&& sizes.stack == buffer.stack().len() + spec_field_width::<F>()
            &&& sizes.heap == buffer.heap().len() + field_heap::<F>(value.deep_view(), 0).len()
            &&& field_addressable::<F>(value.deep_view(), buffer.heap().len())
        },
{
    let mut buffer = buffer;
    let mut sizes = buffer.sizes();
    proof {
        lemma_field_footprint::<F>(value.deep_view(), sizes.heap as nat);
    }
    buffer.write_value::<F, T>(&mut sizes, value)?;
    match buffer.finish(&sizes) {
        Some(bytes) => Ok((bytes, sizes)),
        None => Err(SerializeError::OutOfSpace),
    }
}

/// Encodes `value` into `output`, replacing what it held, and returns the
/// number of bytes written with the sizes of the two regions.
pub fn serialize_to_vec<F: Formula + ?Sized, T: Serialize<F>>(value: T, output: &mut Vec<u8>) -> (r:
    (usize, Sizes))
    ensures
        final(output)@ == root_bytes::<F>(value.deep_view()),
        r.0 == final(output)@.len(),
        r.1.stack == spec_field_width::<F>(),
        r.1.heap == field_heap::<F>(value.deep_view(), 0).len(),
        field_addressable::<F>(value.deep_view(), 0),
{
    let ghost stack = field_stack::<F>(value.deep_view(), 0);
    let ghost heap = field_heap::<F>(value.deep_view(), 0);
    match serialize::<F, T>(value, Buffer::new()) {
        Ok((bytes, sizes)) => {
            proof {
                assert(bytes@ =~= stack + heap);
            }
            *output = bytes;
            (output.len(), sizes)
        },
        Err(_) => {
            output.clear();
            (0, Sizes::zero())
        },
    }
}

} // verus!
