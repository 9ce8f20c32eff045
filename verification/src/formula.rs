//! The formula contract: what every encodable shape declares about its
//! footprint, what bytes its values are written as, and how those bytes are
//! read back.
//!
//! A formula is never instantiated. It names a wire shape, and types that
//! can be written as, or read from, that shape implement the encode and
//! decode traits with the formula as their parameter.
//!
//! Inside an aggregate a value is a field. A field whose formula is heapless
//! and bounded sits inline on the stack, padded with zero bytes to the bound;
//! any other field lives in the heap behind a reference. Either way a field
//! has a width on the stack that its formula alone determines.

use crate::error::DeserializeError;
use crate::reference::{
    dereferenced, lemma_ref_round_trip, ref_addressable, ref_heap, ref_stack, REFERENCE_SIZE,
};
use vstd::prelude::*;

verus! {

/// A wire shape. Its three declarations say how large its values are on
/// the wire, its byte functions say what they are written as and what is
/// read back from bytes, and its two laws bind the declarations and the
/// byte functions together.
pub trait Formula {
    /// The mathematical values that this formula can carry.
    type Value;

    /// Upper bound on the stack bytes of any value, `None` when unbounded.
    spec fn spec_max_stack_size() -> Option<usize>;

    /// Whether every value occupies exactly the bound on the stack.
    spec fn spec_exact_size() -> bool;

    /// Whether no value ever places bytes in the heap.
    spec fn spec_heapless() -> bool;

    /// The bytes that `value` appends to the stack region when the heap
    /// region already holds `heap` bytes.
    spec fn stack_bytes(value: Self::Value, heap: nat) -> Seq<u8>;

    /// The bytes that `value` appends to the heap region when the heap
    /// region already holds `heap` bytes.
    spec fn heap_bytes(value: Self::Value, heap: nat) -> Seq<u8>;

    /// Whether every count and offset written for `value` on top of `heap`
    /// heap bytes fits the machine word.
    spec fn addressable(value: Self::Value, heap: nat) -> bool;

    /// What a cursor over `stack` that knows the heap region `heap` decodes.
    spec fn decoded(stack: Seq<u8>, heap: Seq<u8>) -> Result<Self::Value, DeserializeError>;

    /// The declared bound on stack bytes.
    fn max_stack_size() -> (r: Option<usize>)
        ensures
            r == Self::spec_max_stack_size(),
    ;

    /// Whether the bound is declared exact.
    fn exact_size() -> (r: bool)
        ensures
            r == Self::spec_exact_size(),
    ;

    /// Whether the formula is declared heapless.
    fn heapless() -> (r: bool)
        ensures
            r == Self::spec_heapless(),
    ;

    /// The declared footprint is honest: an exact formula is bounded, no
    /// value exceeds the bound, an exact formula always meets it, a heapless
    /// formula leaves the heap alone, and the lengths written do not depend
    /// on where in the heap the value is placed.
    proof fn law_footprint(value: Self::Value, heap: nat)
        ensures
            Self::spec_exact_size() ==> Self::spec_max_stack_size() is Some,
            Self::spec_max_stack_size() matches Some(max) ==> Self::stack_bytes(value, heap).len()
                <= max,
            Self::spec_max_stack_size() matches Some(max) ==> Self::spec_exact_size()
                ==> Self::stack_bytes(value, heap).len() == max,
            Self::spec_heapless() ==> Self::heap_bytes(value, heap).len() == 0,
            Self::stack_bytes(value, heap).len() == Self::stack_bytes(value, 0).len(),
            Self::heap_bytes(value, heap).len() == Self::heap_bytes(value, 0).len(),
    ;

    /// Decoding what was encoded gives the value back. The heap bytes of the
    /// value may be preceded by the heap that was there before and followed
    /// by anything; the stack bytes may be followed by other bytes when the
    /// formula is bounded.
    proof fn law_round_trip(
        value: Self::Value,
        prefix: Seq<u8>,
        suffix: Seq<u8>,
        trailing: Seq<u8>,
    )
        requires
            Self::addressable(value, prefix.len()),
            trailing.len() > 0 ==> Self::spec_max_stack_size() is Some,
        ensures
            Self::decoded(
                Self::stack_bytes(value, prefix.len()) + trailing,
                prefix + Self::heap_bytes(value, prefix.len()) + suffix,
            ) == Ok::<Self::Value, DeserializeError>(value),
    ;
}

/// Stack length of a value, which no heap position changes.
pub open spec fn stack_len<F: Formula + ?Sized>(value: F::Value) -> nat {
    F::stack_bytes(value, 0).len()
}

/// Heap length of a value, which no heap position changes.
pub open spec fn heap_len<F: Formula + ?Sized>(value: F::Value) -> nat {
    F::heap_bytes(value, 0).len()
}

/// How a field of this formula lies on the stack: `Some(width)` for an
/// inline field of that width, `None` for a field behind a reference.
pub open spec fn spec_field_layout<F: Formula + ?Sized>() -> Option<usize> {
    if F::spec_heapless() {
        F::spec_max_stack_size()
    } else {
        None
    }
}

/// Whether a field of this formula sits inline on the stack.
pub open spec fn spec_inline_field<F: Formula + ?Sized>() -> bool {
    spec_field_layout::<F>() is Some
}

/// Stack width of a field with the given layout.
pub open spec fn layout_width(layout: Option<usize>) -> nat {
    match layout {
        Some(width) => width as nat,
        None => REFERENCE_SIZE as nat,
    }
}

/// Stack width of a field of this formula.
pub open spec fn spec_field_width<F: Formula + ?Sized>() -> nat {
    layout_width(spec_field_layout::<F>())
}

/// `count` zero bytes.
pub open spec fn zeros(count: nat) -> Seq<u8> {
    Seq::new(count, |i: int| 0u8)
}

/// Stack bytes of a field.
pub open spec fn field_stack<F: Formula + ?Sized>(value: F::Value, heap: nat) -> Seq<u8> {
    if spec_inline_field::<F>() {
        F::stack_bytes(value, heap) + zeros(
            (spec_field_width::<F>() - F::stack_bytes(value, heap).len()) as nat,
        )
    } else {
        ref_stack::<F>(value, heap)
    }
}

/// Heap bytes of a field.
pub open spec fn field_heap<F: Formula + ?Sized>(value: F::Value, heap: nat) -> Seq<u8> {
    if spec_inline_field::<F>() {
        F::heap_bytes(value, heap)
    } else {
        ref_heap::<F>(value, heap)
    }
}

/// Whether every count and offset written for a field fits the machine word.
pub open spec fn field_addressable<F: Formula + ?Sized>(value: F::Value, heap: nat) -> bool {
    if spec_inline_field::<F>() {
        F::addressable(value, heap)
    } else {
        ref_addressable::<F>(value, heap)
    }
}

/// The stack and the heap of the cursor over the field at the start of
/// `stack`: the first bytes themselves for an inline field, the payload that
/// they refer to otherwise.
pub open spec fn field_cursor(layout: Option<usize>, stack: Seq<u8>, heap: Seq<u8>) -> Result<
    (Seq<u8>, Seq<u8>),
    DeserializeError,
> {
    if stack.len() < layout_width(layout) {
        Err(DeserializeError::UnexpectedEnd)
    } else if layout is Some {
        Ok((stack.take(layout_width(layout) as int), heap))
    } else {
        dereferenced(stack.take(layout_width(layout) as int), heap)
    }
}

/// What the field at the start of `stack` decodes to.
pub open spec fn field_decoded<F: Formula + ?Sized>(stack: Seq<u8>, heap: Seq<u8>) -> Result<
    F::Value,
    DeserializeError,
> {
    match field_cursor(spec_field_layout::<F>(), stack, heap) {
        Ok((own_stack, own_heap)) => F::decoded(own_stack, own_heap),
        Err(e) => Err(e),
    }
}

/// How a field of this formula lies on the stack.
pub fn field_layout<F: Formula + ?Sized>() -> (r: Option<usize>)
    ensures
        r == spec_field_layout::<F>(),
{
    if F::heapless() {
        F::max_stack_size()
    } else {
        None
    }
}

/// Stack width of a field of this formula.
pub fn field_width<F: Formula + ?Sized>() -> (r: usize)
    ensures
        r == spec_field_width::<F>(),
{
    match field_layout::<F>() {
        Some(width) => width,
        None => REFERENCE_SIZE,
    }
}

/// A field occupies exactly its width on the stack, and its lengths do not
/// depend on the heap position.
pub proof fn lemma_field_footprint<F: Formula + ?Sized>(value: F::Value, heap: nat)
    ensures
        field_stack::<F>(value, heap).len() == spec_field_width::<F>(),
        field_heap::<F>(value, heap).len() == field_heap::<F>(value, 0).len(),
        spec_inline_field::<F>() ==> field_heap::<F>(value, heap).len() == 0,
{
    F::law_footprint(value, heap);
    vstd::bytes::lemma_auto_spec_u64_to_from_le_bytes();
}

/// A field decodes to the value written, whatever follows it on the stack
/// and whatever surrounds its bytes in the heap.
pub proof fn lemma_field_round_trip<F: Formula + ?Sized>(
    value: F::Value,
    prefix: Seq<u8>,
    suffix: Seq<u8>,
    trailing: Seq<u8>,
)
    requires
        field_addressable::<F>(value, prefix.len()),
    ensures
        field_decoded::<F>(
            field_stack::<F>(value, prefix.len()) + trailing,
            prefix + field_heap::<F>(value, prefix.len()) + suffix,
        ) == Ok::<F::Value, DeserializeError>(value),
{
    let base = prefix.len();
    let width = spec_field_width::<F>() as int;
    let stack = field_stack::<F>(value, base);
    lemma_field_footprint::<F>(value, base);
    assert((stack + trailing).take(width) =~= stack);
    if spec_inline_field::<F>() {
        let padding = zeros((width - F::stack_bytes(value, base).len()) as nat);
        F::law_round_trip(value, prefix, suffix, padding);
    } else {
        lemma_ref_round_trip::<F>(value, prefix, suffix, Seq::empty());
        assert(stack + Seq::<u8>::empty() =~= stack);
    }
}

/// The bytes of a whole encoded value: the value as one field on the stack
/// region, followed by the heap region.
pub open spec fn root_bytes<F: Formula + ?Sized>(value: F::Value) -> Seq<u8> {
    field_stack::<F>(value, 0) + field_heap::<F>(value, 0)
}

/// What a whole encoded buffer decodes to: its first bytes, as wide as a
/// field of the formula, are the stack region, and the rest is the heap
/// region.
pub open spec fn root_decoded<F: Formula + ?Sized>(input: Seq<u8>) -> Result<
    F::Value,
    DeserializeError,
> {
    if input.len() < spec_field_width::<F>() {
        Err(DeserializeError::UnexpectedEnd)
    } else {
        field_decoded::<F>(
            input.take(spec_field_width::<F>() as int),
            input.skip(spec_field_width::<F>() as int),
        )
    }
}

/// Decoding an encoded value gives the value back, for every value of every
/// formula, whatever follows the encoded bytes.
pub proof fn lemma_root_round_trip<F: Formula + ?Sized>(value: F::Value, trailing: Seq<u8>)
    requires
        field_addressable::<F>(value, 0),
    ensures
        root_decoded::<F>(root_bytes::<F>(value) + trailing) == Ok::<F::Value, DeserializeError>(
            value,
        ),
{
    let width = spec_field_width::<F>() as int;
    let stack = field_stack::<F>(value, 0);
    let heap = field_heap::<F>(value, 0);
    let input = root_bytes::<F>(value) + trailing;
    lemma_field_footprint::<F>(value, 0);
    lemma_field_round_trip::<F>(value, Seq::empty(), trailing, Seq::empty());
    assert(input.take(width) =~= stack + Seq::<u8>::empty());
    assert(input.skip(width) =~= Seq::<u8>::empty() + heap + trailing);
}

} // verus!
