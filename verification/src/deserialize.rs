//! The decode side: the cursor over an encoded buffer, the decode contract,
//! and the lazy sequence of element cursors.

use crate::error::DeserializeError;
use crate::formula::{
    field_addressable, field_cursor, field_decoded, field_layout, field_width, layout_width,
    lemma_root_round_trip, root_bytes, root_decoded, spec_field_layout, spec_field_width, Formula,
};
use crate::reference::{dereferenced, Reference, REFERENCE_SIZE};
use crate::slice::{elems_decoded, opened, prepended, COUNT_SIZE};
use std::collections::VecDeque;
use vstd::bytes::u64_from_le_bytes;
use vstd::prelude::*;
use vstd::slice::slice_subrange;

verus! {

/// A read-only cursor: the stack bytes not yet consumed, and the heap that
/// references found on that stack point into.
pub struct Deserializer<'de> {
    stack: &'de [u8],
    heap: &'de [u8],
}

/// What a cursor over `stack` and `heap` decodes for a value of formula `F`
/// that is the last of its aggregate, or a field that others follow.
pub open spec fn value_decoded<F: Formula + ?Sized>(
    stack: Seq<u8>,
    heap: Seq<u8>,
    last: bool,
) -> Result<F::Value, DeserializeError> {
    if last {
        F::decoded(stack, heap)
    } else {
        field_decoded::<F>(stack, heap)
    }
}

/// A type whose values can be read from the shape of formula `F`.
pub trait Deserialize<'de, F: Formula + ?Sized>: Sized + DeepView<V = F::Value> {
    /// Builds a value from what the cursor holds: the value that the formula
    /// decodes, or the error that it decodes.
    fn deserialize(de: Deserializer<'de>) -> (r: Result<Self, DeserializeError>)
        ensures
            match F::decoded(de.stack(), de.heap()) {
                Ok(value) => r is Ok && r->Ok_0.deep_view() == value,
                Err(e) => r is Err && r->Err_0 == e,
            },
    ;

    /// Overwrites an existing value with what the cursor holds, reusing what
    /// the value has allocated where it can. The outcome is that of
    /// `deserialize`, whatever the value was before; after a failure the
    /// value is what it was before.
    fn deserialize_in_place(&mut self, de: Deserializer<'de>) -> (r: Result<(), DeserializeError>)
        ensures
            match F::decoded(de.stack(), de.heap()) {
                Ok(value) => r is Ok && final(self).deep_view() == value,
                Err(e) => r is Err && r->Err_0 == e,
            },
            r is Err ==> *final(self) == *old(self),
    ;
}

impl<'de> Deserializer<'de> {
    /// The stack bytes not yet consumed.
    pub closed spec fn stack(&self) -> Seq<u8> {
        self.stack@
    }

    /// The heap known to this cursor.
    pub closed spec fn heap(&self) -> Seq<u8> {
        self.heap@
    }

    /// A cursor over the given stack bytes and heap.
    pub fn new(stack: &'de [u8], heap: &'de [u8]) -> (de: Deserializer<'de>)
        ensures
            de.stack() == stack@,
            de.heap() == heap@,
    {
        Deserializer { stack, heap }
    }

    /// Number of stack bytes not yet consumed.
    pub fn remaining(&self) -> (len: usize)
        ensures
            len == self.stack().len(),
    {
        self.stack.len()
    }

    /// Consumes the next `len` stack bytes, or fails and consumes nothing
    /// when fewer remain.
    pub fn read_bytes(&mut self, len: usize) -> (r: Result<&'de [u8], DeserializeError>)
        ensures
            final(self).heap() == old(self).heap(),
            r is Ok <==> len <= old(self).stack().len(),
            r matches Ok(bytes) ==> {
                &&& bytes@ == old(self).stack().take(len as int)
                &&& final(self).stack() == old(self).stack().skip(len as int)
            },
            r matches Err(e) ==> {
                &&& e == DeserializeError::UnexpectedEnd
                &&& final(self).stack() == old(self).stack()
            },
    {
        if len > self.stack.len() {
            return Err(DeserializeError::UnexpectedEnd);
        }
        let bytes = slice_subrange(self.stack, 0, len);
        self.stack = slice_subrange(self.stack, len, self.stack.len());
        Ok(bytes)
    }

    /// Consumes all the stack bytes that remain.
    pub fn read_all_bytes(self) -> (bytes: &'de [u8])
        ensures
            bytes@ == self.stack(),
    {
        self.stack
    }

    /// Splits off a cursor over the next `len` stack bytes, with the same
    /// heap, or fails and consumes nothing when fewer remain.
    pub fn sub(&mut self, len: usize) -> (r: Result<Deserializer<'de>, DeserializeError>)
        ensures
            final(self).heap() == old(self).heap(),
            r is Ok <==> len <= old(self).stack().len(),
            r matches Ok(sub) ==> {
                &&& sub.stack() == old(self).stack().take(len as int)
                &&& sub.heap() == old(self).heap()
                &&& final(self).stack() == old(self).stack().skip(len as int)
            },
            r matches Err(e) ==> {
                &&& e == DeserializeError::UnexpectedEnd
                &&& final(self).stack() == old(self).stack()
            },
    {
        let heap = self.heap;
        let stack = self.read_bytes(len)?;
        Ok(Deserializer { stack, heap })
    }

    /// Follows the reference at the start of the stack: the cursor over the
    /// payload that it designates. Fails when the stack is too short for a
    /// reference, and when the reference points outside the heap.
    pub fn deref(self) -> (r: Result<Deserializer<'de>, DeserializeError>)
        ensures
            match dereferenced(self.stack(), self.heap()) {
                Ok((stack, heap)) => r is Ok && r->Ok_0.stack() == stack && r->Ok_0.heap() == heap,
                Err(e) => r is Err && r->Err_0 == e,
            },
    {
        if self.stack.len() < REFERENCE_SIZE {
            return Err(DeserializeError::UnexpectedEnd);
        }
        let heap_len = self.heap.len();
        match Reference::from_bytes(self.stack) {
            None => Err(DeserializeError::InvalidReference),
            Some(reference) => {
                if reference.offset > heap_len || reference.length > reference.offset {
                    Err(DeserializeError::InvalidReference)
                } else {
                    let start = reference.offset - reference.length;
                    Ok(
                        Deserializer {
                            stack: slice_subrange(self.heap, start, reference.offset),
                            heap: slice_subrange(self.heap, 0, start),
                        },
                    )
                }
            },
        }
    }

    /// Splits off the cursor over the field at the start of the stack: the
    /// next bytes themselves where the field is inline, the payload that the
    /// next reference designates where it is not.
    pub fn field(&mut self, layout: Option<usize>) -> (r: Result<
        Deserializer<'de>,
        DeserializeError,
    >)
        ensures
            final(self).heap() == old(self).heap(),
            match field_cursor(layout, old(self).stack(), old(self).heap()) {
                Ok((stack, heap)) => r is Ok && r->Ok_0.stack() == stack && r->Ok_0.heap() == heap,
                Err(e) => r is Err && r->Err_0 == e,
            },
            final(self).stack() == if old(self).stack().len() >= layout_width(layout) {
                old(self).stack().skip(layout_width(layout) as int)
            } else {
                old(self).stack()
            },
    {
        match layout {
            Some(width) => self.sub(width),
            None => {
                let sub = self.sub(REFERENCE_SIZE)?;
                sub.deref()
            },
        }
    }

    /// Reads one value of formula `F`. The last value of an aggregate takes
    /// all the stack bytes that remain; any other is a field of fixed width.
    pub fn read_value<F: Formula + ?Sized, T: Deserialize<'de, F>>(&mut self, last: bool) -> (r:
        Result<T, DeserializeError>)
        ensures
            final(self).heap() == old(self).heap(),
            match value_decoded::<F>(old(self).stack(), old(self).heap(), last) {
                Ok(value) => r is Ok && r->Ok_0.deep_view() == value,
                Err(e) => r is Err && r->Err_0 == e,
            },
            last ==> final(self).stack() == Seq::<u8>::empty(),
            !last && old(self).stack().len() >= spec_field_width::<F>() ==> final(self).stack()
                == old(self).stack().skip(spec_field_width::<F>() as int),
    {
        let sub = if last {
            let len = self.stack.len();
            proof {
                assert(self.stack().take(len as int) =~= self.stack());
                assert(self.stack().skip(len as int) =~= Seq::<u8>::empty());
            }
            self.sub(len)?
        } else {
            self.field(field_layout::<F>())?
        };
        T::deserialize(sub)
    }

    /// Reads one value of formula `F` into an existing value.
    pub fn read_in_place<F: Formula + ?Sized, T: Deserialize<'de, F>>(
        &mut self,
        place: &mut T,
        last: bool,
    ) -> (r: Result<(), DeserializeError>)
        ensures
            final(self).heap() == old(self).heap(),
            match value_decoded::<F>(old(self).stack(), old(self).heap(), last) {
                Ok(value) => r is Ok && final(place).deep_view() == value,
                Err(e) => r is Err && r->Err_0 == e,
            },
            r is Err ==> *final(place) == *old(place),
            last ==> final(self).stack() == Seq::<u8>::empty(),
            !last && old(self).stack().len() >= spec_field_width::<F>() ==> final(self).stack()
                == old(self).stack().skip(spec_field_width::<F>() as int),
    {
        let sub = if last {
            let len = self.stack.len();
            proof {
                assert(self.stack().take(len as int) =~= self.stack());
                assert(self.stack().skip(len as int) =~= Seq::<u8>::empty());
            }
            self.sub(len)?
        } else {
            self.field(field_layout::<F>())?
        };
        place.deserialize_in_place(sub)
    }
}

/// A lazy sequence of element cursors: forward only, single pass, finite.
/// Each step consumes one field from the front of the stack that remains
/// and hands out the cursor over it; nothing is decoded ahead of time.
pub struct DeIter<'de> {
    de: Deserializer<'de>,
    remaining: usize,
    layout: Option<usize>,
    failure: Option<DeserializeError>,
}

impl<'de> DeIter<'de> {
    /// The stack bytes not yet consumed.
    pub closed spec fn stack(&self) -> Seq<u8> {
        self.de.stack()
    }

    /// The heap known to every element.
    pub closed spec fn heap(&self) -> Seq<u8> {
        self.de.heap()
    }

    /// Number of elements still to come.
    pub closed spec fn remaining(&self) -> nat {
        self.remaining as nat
    }

    /// How each element lies on the stack.
    pub closed spec fn layout(&self) -> Option<usize> {
        self.layout
    }

    /// The error met when the sequence was opened, which the next step
    /// hands out in place of an element.
    pub closed spec fn failure(&self) -> Option<DeserializeError> {
        self.failure
    }

    /// What decoding every element that the sequence still hands out gives:
    /// the elements in order, or the first error.
    pub open spec fn elements<F: Formula>(&self) -> Result<Seq<F::Value>, DeserializeError> {
        match self.failure() {
            Some(e) => Err(e),
            None => elems_decoded::<F>(self.stack(), self.heap(), self.remaining()),
        }
    }

    /// Whether the elements are laid out as fields of formula `F`.
    pub open spec fn is_for<F: Formula + ?Sized>(&self) -> bool {
        self.layout() == spec_field_layout::<F>()
    }

    /// The number of elements that it is safe to reserve room for: the
    /// number still to come, capped by how many fields the stack bytes that
    /// remain can hold. Elements of no width take no bytes, and nothing is
    /// reserved for them.
    pub open spec fn spec_lower_bound(&self) -> int {
        let width = layout_width(self.layout()) as int;
        if width == 0 {
            0
        } else if self.remaining() < self.stack().len() as int / width {
            self.remaining() as int
        } else {
            self.stack().len() as int / width
        }
    }

    /// A number of elements that is safe to reserve room for: the number
    /// still to come, or the number of whole fields in the bytes that
    /// remain where that is fewer. So it is never more than are still to
    /// come, and never more than the bytes that remain could hold.
    pub fn lower_bound(&self) -> (bound: usize)
        ensures
            bound == self.spec_lower_bound(),
            bound <= self.remaining(),
            layout_width(self.layout()) > 0 ==> bound * layout_width(self.layout())
                <= self.stack().len(),
    {
        let width = match self.layout {
            Some(width) => width,
            None => REFERENCE_SIZE,
        };
        if width == 0 {
            0
        } else {
            let available = self.de.remaining() / width;
            proof {
                vstd::arithmetic::div_mod::lemma_fundamental_div_mod(
                    self.stack().len() as int,
                    width as int,
                );
                vstd::arithmetic::div_mod::lemma_mod_bound(self.stack().len() as int, width as int);
                if self.remaining < available {
                    vstd::arithmetic::mul::lemma_mul_inequality(
                        self.remaining as int,
                        available as int,
                        width as int,
                    );
                }
                vstd::arithmetic::mul::lemma_mul_is_commutative(width as int, available as int);
            }
            if self.remaining < available {
                self.remaining
            } else {
                available
            }
        }
    }

    /// The cursor over the next element, `None` once all have been handed
    /// out. A sequence that could not be opened hands out its error first
    /// and then nothing; a field that cannot be split off ends the sequence
    /// with its error.
    pub fn next(&mut self) -> (r: Option<Result<Deserializer<'de>, DeserializeError>>)
        ensures
            final(self).heap() == old(self).heap(),
            final(self).layout() == old(self).layout(),
            final(self).failure() is None,
            r is None <==> old(self).remaining() == 0 && old(self).failure() is None,
            r is None ==> final(self).stack() == old(self).stack() && final(self).remaining() == 0,
            old(self).failure() matches Some(e) ==> {
                &&& r == Some(Err::<Deserializer<'de>, DeserializeError>(e))
                &&& final(self).remaining() == 0
            },
            old(self).failure() is None ==> (r matches Some(item) ==> match field_cursor(
                old(self).layout(),
                old(self).stack(),
                old(self).heap(),
            ) {
                Ok((stack, heap)) => {
                    &&& item is Ok
                    &&& item->Ok_0.stack() == stack
                    &&& item->Ok_0.heap() == heap
                    &&& final(self).remaining() == old(self).remaining() - 1
                    &&& final(self).stack() == old(self).stack().skip(
                        layout_width(old(self).layout()) as int,
                    )
                },
                Err(e) => item is Err && item->Err_0 == e && final(self).remaining() == 0,
            }),
    {
        if let Some(e) = self.failure {
            self.failure = None;
            self.remaining = 0;
            return Some(Err(e));
        }
        if self.remaining == 0 {
            return None;
        }
        match self.de.field(self.layout) {
            Ok(sub) => {
                self.remaining = self.remaining - 1;
                Some(Ok(sub))
            },
            Err(e) => {
                self.remaining = 0;
                Some(Err(e))
            },
        }
    }
}

impl<'de> Deserializer<'de> {
    /// Opens a sequence written in the shape of `[F]` and hands out its
    /// elements one by one. Opening never fails: where the element count
    /// cannot be read, the sequence hands out that error at its first step.
    pub fn into_unsized_iter<F: Formula>(self) -> (iter: DeIter<'de>)
        ensures
            iter.is_for::<F>(),
            iter.heap() == self.heap(),
            match opened(spec_field_layout::<F>(), self.stack()) {
                Ok((elements, count)) => {
                    &&& iter.failure() is None
                    &&& iter.stack() == elements
                    &&& iter.remaining() == count
                },
                Err(e) => iter.failure() == Some(e) && iter.remaining() == 0,
            },
            iter.elements::<F>() == <[F] as Formula>::decoded(self.stack(), self.heap()),
    {
        let layout = field_layout::<F>();
        let width = field_width::<F>();
        if width > 0 {
            let remaining = self.stack.len() / width;
            DeIter { de: self, remaining, layout, failure: None }
        } else {
            let mut de = self;
            match de.read_bytes(COUNT_SIZE) {
                Err(e) => DeIter { de, remaining: 0, layout, failure: Some(e) },
                Ok(bytes) => {
                    let count = u64_from_le_bytes(bytes);
                    if count > usize::MAX as u64 {
                        DeIter {
                            de,
                            remaining: 0,
                            layout,
                            failure: Some(DeserializeError::UnexpectedEnd),
                        }
                    } else {
                        DeIter { de, remaining: count as usize, layout, failure: None }
                    }
                },
            }
        }
    }

    /// Opens a run of exactly `count` elements of formula `F` that carries
    /// no element count of its own.
    pub fn into_unsized_array_iter<F: Formula>(self, count: usize) -> (iter: DeIter<'de>)
        ensures
            iter.is_for::<F>(),
            iter.heap() == self.heap(),
            iter.stack() == self.stack(),
            iter.remaining() == count,
            iter.failure() is None,
    {
        DeIter { de: self, remaining: count, layout: field_layout::<F>(), failure: None }
    }
}

/// Decodes every element that the sequence hands out and appends it to the
/// back of `deque`. Stops at the first element that fails; what the queue
/// held before stays at its front either way.
pub fn deserialize_extend_iter<'de, F: Formula, T: Deserialize<'de, F>>(
    deque: &mut VecDeque<T>,
    iter: DeIter<'de>,
) -> (r: Result<(), DeserializeError>)
    requires
        iter.is_for::<F>(),
    ensures
        match iter.elements::<F>() {
            Ok(values) => r is Ok && final(deque).deep_view() == old(deque).deep_view() + values,
            Err(e) => r is Err && r->Err_0 == e,
        },
        old(deque).deep_view().is_prefix_of(final(deque).deep_view()),
{
    broadcast use vstd::std_specs::vecdeque::group_vec_dequeue_axioms;

    let mut elements = iter;
    let ghost total = iter.elements::<F>();
    let ghost start = deque.deep_view();
    let ghost mut done = Seq::<F::Value>::empty();
    proof {
        assert(start + done =~= start);
        match total {
            Ok(values) => {
                assert(done + values =~= values);
            },
            Err(e) => {},
        }
    }
    loop
        invariant
            elements.is_for::<F>(),
            start == old(deque).deep_view(),
            total == iter.elements::<F>(),
            deque.deep_view() == start + done,
            total == prepended(done, elements.elements::<F>()),
        decreases elements.remaining(),
    {
        let ghost stack = elements.stack();
        let ghost heap = elements.heap();
        let ghost count = elements.remaining();
        let ghost held = deque.deep_view();
        match elements.next() {
            None => {
                proof {
                    assert(done + Seq::<F::Value>::empty() =~= done);
                }
                return Ok(());
            },
            Some(Err(e)) => {
                return Err(e);
            },
            Some(Ok(sub)) => match T::deserialize(sub) {
                Err(e) => {
                    return Err(e);
                },
                Ok(value) => {
                    proof {
                        let rest = elems_decoded::<F>(
                            stack.skip(spec_field_width::<F>() as int),
                            heap,
                            (count - 1) as nat,
                        );
                        match rest {
                            Ok(values) => {
                                assert(done + (seq![value.deep_view()] + values) =~= done.push(
                                    value.deep_view(),
                                ) + values);
                            },
                            Err(e) => {},
                        }
                        done = done.push(value.deep_view());
                    }
                    deque.push_back(value);
                    proof {
                        assert(deque.deep_view() =~= held.push(value.deep_view()));
                        assert(held.push(value.deep_view()) =~= start + done);
                    }
                },
            },
        }
    }
}

/// Decodes a whole encoded buffer into a new value.
pub fn deserialize<'de, F: Formula + ?Sized, T: Deserialize<'de, F>>(input: &'de [u8]) -> (r:
    Result<T, DeserializeError>)
    ensures
        match root_decoded::<F>(input@) {
            Ok(value) => r is Ok && r->Ok_0.deep_view() == value,
            Err(e) => r is Err && r->Err_0 == e,
        },
{
    let width = field_width::<F>();
    if input.len() < width {
        return Err(DeserializeError::UnexpectedEnd);
    }
    let mut de = Deserializer::new(
        slice_subrange(input, 0, width),
        slice_subrange(input, width, input.len()),
    );
    de.read_value::<F, T>(false)
}

/// What overwriting a value in place with a whole encoded buffer leaves:
/// what the buffer decodes to, whatever the value was before.
pub open spec fn overwritten<F: Formula + ?Sized>(before: F::Value, input: Seq<u8>) -> Result<
    F::Value,
    DeserializeError,
> {
    root_decoded::<F>(input)
}

/// Overwriting any value in place with the encoding of another gives the
/// other.
pub proof fn lemma_in_place_round_trip<F: Formula + ?Sized>(
    before: F::Value,
    value: F::Value,
    trailing: Seq<u8>,
)
    requires
        field_addressable::<F>(value, 0),
    ensures
        overwritten::<F>(before, root_bytes::<F>(value) + trailing) == Ok::<
            F::Value,
            DeserializeError,
        >(value),
{
    lemma_root_round_trip::<F>(value, trailing);
}

/// Decodes a whole encoded buffer into an existing value. The outcome is
/// that of `deserialize`, whatever the value was before; after a failure
/// the value is what it was before.
pub fn deserialize_in_place<'de, F: Formula + ?Sized, T: Deserialize<'de, F>>(
    place: &mut T,
    input: &'de [u8],
) -> (r: Result<(), DeserializeError>)
    ensures
        match overwritten::<F>(old(place).deep_view(), input@) {
            Ok(value) => r is Ok && final(place).deep_view() == value,
            Err(e) => r is Err && r->Err_0 == e,
        },
        r is Err ==> *final(place) == *old(place),
{
    let width = field_width::<F>();
    if input.len() < width {
        return Err(DeserializeError::UnexpectedEnd);
    }
    let mut de = Deserializer::new(
        slice_subrange(input, 0, width),
        slice_subrange(input, width, input.len()),
    );
    de.read_in_place::<F, T>(place, false)
}

} // verus!
