//! Sequences of elements of one formula.
//!
//! A sequence is written as its elements, each as a field, and nothing
//! else: the number of elements is the length of the stack range that holds
//! them divided by the width of a field. Only where a field has no width
//! does the element count, an unsigned 64-bit little-endian integer, stand
//! before the elements. What the elements place in the heap follows in the
//! same order.

use crate::buffer::{lemma_extends_transitive, Buffer, Sizes};
use crate::error::{DeserializeError, SerializeError};
use crate::formula::{
    field_addressable, field_decoded, field_heap, field_layout, field_stack, field_width,
    layout_width, lemma_field_footprint, lemma_field_round_trip, spec_field_layout,
    spec_field_width, spec_inline_field, Formula,
};
use crate::serialize::{spec_size_hint, Serialize};
use std::collections::VecDeque;
use vstd::bytes::{
    lemma_auto_spec_u64_to_from_le_bytes, spec_u64_from_le_bytes, spec_u64_to_le_bytes,
    u64_to_le_bytes,
};
use vstd::prelude::*;

verus! {

/// Number of stack bytes that an element count occupies.
pub const COUNT_SIZE: usize = 8;

/// The bytes that stand for an element count.
pub open spec fn count_bytes(count: nat) -> Seq<u8> {
    spec_u64_to_le_bytes(count as u64)
}

/// The element count at the start of `stack`.
pub open spec fn count_of(stack: Seq<u8>) -> nat {
    spec_u64_from_le_bytes(stack.subrange(0, COUNT_SIZE as int)) as nat
}

/// What stands before the elements of a sequence: their count where a
/// field of the given layout has no width, nothing otherwise.
pub open spec fn header_bytes(layout: Option<usize>, count: nat) -> Seq<u8> {
    if layout_width(layout) == 0 {
        count_bytes(count)
    } else {
        Seq::empty()
    }
}

/// Number of stack bytes that stand before the elements of a sequence.
pub open spec fn header_len(layout: Option<usize>) -> nat {
    if layout_width(layout) == 0 {
        COUNT_SIZE as nat
    } else {
        0
    }
}

/// Opening a sequence: the stack bytes of its elements and their number.
/// Where a field has a width, all of `stack` holds elements and their
/// number is its length divided by the width. Where it has none, the count
/// is read from the start of `stack`, which fails when `stack` is too short
/// for a count or the count does not fit the machine word.
pub open spec fn opened(layout: Option<usize>, stack: Seq<u8>) -> Result<
    (Seq<u8>, nat),
    DeserializeError,
> {
    if layout_width(layout) > 0 {
        Ok((stack, (stack.len() as int / layout_width(layout) as int) as nat))
    } else if stack.len() < COUNT_SIZE || count_of(stack) > usize::MAX {
        Err(DeserializeError::UnexpectedEnd)
    } else {
        Ok((stack.skip(COUNT_SIZE as int), count_of(stack)))
    }
}

/// Stack bytes of the elements, first element first.
pub open spec fn elems_stack<F: Formula>(values: Seq<F::Value>, heap: nat) -> Seq<u8>
    decreases values.len(),
{
    if values.len() == 0 {
        Seq::empty()
    } else {
        field_stack::<F>(values.first(), heap) + elems_stack::<F>(
            values.drop_first(),
            heap + field_heap::<F>(values.first(), heap).len(),
        )
    }
}

/// Heap bytes of the elements, first element first.
pub open spec fn elems_heap<F: Formula>(values: Seq<F::Value>, heap: nat) -> Seq<u8>
    decreases values.len(),
{
    if values.len() == 0 {
        Seq::empty()
    } else {
        field_heap::<F>(values.first(), heap) + elems_heap::<F>(
            values.drop_first(),
            heap + field_heap::<F>(values.first(), heap).len(),
        )
    }
}

/// Whether every element is addressable where it is written.
pub open spec fn elems_addressable<F: Formula>(values: Seq<F::Value>, heap: nat) -> bool
    decreases values.len(),
{
    if values.len() == 0 {
        true
    } else {
        &&& field_addressable::<F>(values.first(), heap)
        &&& elems_addressable::<F>(
            values.drop_first(),
            heap + field_heap::<F>(values.first(), heap).len(),
        )
    }
}

/// Puts `done` in front of a decoded rest, and keeps the error of a rest
/// that failed.
pub open spec fn prepended<V>(done: Seq<V>, rest: Result<Seq<V>, DeserializeError>) -> Result<
    Seq<V>,
    DeserializeError,
> {
    match rest {
        Ok(values) => Ok(done + values),
        Err(e) => Err(e),
    }
}

/// What `count` fields at the start of `stack` decode to: the elements in
/// order, or the error of the first field that fails.
pub open spec fn elems_decoded<F: Formula>(stack: Seq<u8>, heap: Seq<u8>, count: nat) -> Result<
    Seq<F::Value>,
    DeserializeError,
>
    decreases count,
{
    if count == 0 {
        Ok(Seq::empty())
    } else {
        match field_decoded::<F>(stack, heap) {
            Err(e) => Err(e),
            Ok(first) => prepended(
                seq![first],
                elems_decoded::<F>(
                    stack.skip(spec_field_width::<F>() as int),
                    heap,
                    (count - 1) as nat,
                ),
            ),
        }
    }
}

/// The elements occupy their count times the field width on the stack, and
/// their lengths do not depend on the heap position.
pub proof fn lemma_elems_footprint<F: Formula>(values: Seq<F::Value>, heap: nat, other: nat)
    ensures
        elems_stack::<F>(values, heap).len() == values.len() * spec_field_width::<F>(),
        elems_heap::<F>(values, heap).len() == elems_heap::<F>(values, other).len(),
        spec_inline_field::<F>() ==> elems_heap::<F>(values, heap).len() == 0,
    decreases values.len(),
{
    if values.len() > 0 {
        let first = values.first();
        let rest = values.drop_first();
        lemma_field_footprint::<F>(first, heap);
        lemma_field_footprint::<F>(first, other);
        lemma_elems_footprint::<F>(
            rest,
            heap + field_heap::<F>(first, heap).len(),
            other + field_heap::<F>(first, other).len(),
        );
        let width = spec_field_width::<F>() as int;
        let count = values.len() as int;
        assert(width + (count - 1) * width == count * width) by (nonlinear_arith);
    } else {
        let width = spec_field_width::<F>() as int;
        assert(0 * width == 0) by (nonlinear_arith);
    }
}

/// The elements decode to themselves, whatever follows them on the stack
/// and whatever surrounds their bytes in the heap.
pub proof fn lemma_elems_round_trip<F: Formula>(
    values: Seq<F::Value>,
    prefix: Seq<u8>,
    suffix: Seq<u8>,
    trailing: Seq<u8>,
)
    requires
        elems_addressable::<F>(values, prefix.len()),
    ensures
        elems_decoded::<F>(
            elems_stack::<F>(values, prefix.len()) + trailing,
            prefix + elems_heap::<F>(values, prefix.len()) + suffix,
            values.len(),
        ) == Ok::<Seq<F::Value>, DeserializeError>(values),
    decreases values.len(),
{
    let base = prefix.len();
    let stack = elems_stack::<F>(values, base) + trailing;
    let heap = prefix + elems_heap::<F>(values, base) + suffix;
    if values.len() > 0 {
        let first = values.first();
        let rest = values.drop_first();
        let first_stack = field_stack::<F>(first, base);
        let first_heap = field_heap::<F>(first, base);
        let next = base + first_heap.len();
        let rest_stack = elems_stack::<F>(rest, next);
        let rest_heap = elems_heap::<F>(rest, next);
        lemma_field_footprint::<F>(first, base);
        lemma_field_round_trip::<F>(first, prefix, rest_heap + suffix, rest_stack + trailing);
        assert(first_stack + (rest_stack + trailing) =~= stack);
        assert(prefix + first_heap + (rest_heap + suffix) =~= heap);
        lemma_elems_round_trip::<F>(rest, prefix + first_heap, suffix, trailing);
        assert(stack.skip(spec_field_width::<F>() as int) =~= rest_stack + trailing);
        assert((prefix + first_heap) + rest_heap + suffix =~= heap);
        assert(seq![first] + rest =~= values);
    } else {
        assert(values =~= Seq::<F::Value>::empty());
    }
}

impl<F: Formula> Formula for [F] {
    type Value = Seq<F::Value>;

    open spec fn spec_max_stack_size() -> Option<usize> {
        None
    }

    open spec fn spec_exact_size() -> bool {
        false
    }

    open spec fn spec_heapless() -> bool {
        spec_inline_field::<F>()
    }

    open spec fn stack_bytes(value: Seq<F::Value>, heap: nat) -> Seq<u8> {
        header_bytes(spec_field_layout::<F>(), value.len()) + elems_stack::<F>(value, heap)
    }

    open spec fn heap_bytes(value: Seq<F::Value>, heap: nat) -> Seq<u8> {
        elems_heap::<F>(value, heap)
    }

    open spec fn addressable(value: Seq<F::Value>, heap: nat) -> bool {
        &&& value.len() <= usize::MAX
        &&& elems_addressable::<F>(value, heap)
    }

    open spec fn decoded(stack: Seq<u8>, heap: Seq<u8>) -> Result<
        Seq<F::Value>,
        DeserializeError,
    > {
        match opened(spec_field_layout::<F>(), stack) {
            Ok((elements, count)) => elems_decoded::<F>(elements, heap, count),
            Err(e) => Err(e),
        }
    }

    fn max_stack_size() -> Option<usize> {
        None
    }

    fn exact_size() -> bool {
        false
    }

    fn heapless() -> bool {
        F::heapless() && F::max_stack_size().is_some()
    }

    proof fn law_footprint(value: Seq<F::Value>, heap: nat) {
        lemma_auto_spec_u64_to_from_le_bytes();
        lemma_elems_footprint::<F>(value, heap, 0);
        lemma_elems_footprint::<F>(value, 0, 0);
    }

    proof fn law_round_trip(
        value: Seq<F::Value>,
        prefix: Seq<u8>,
        suffix: Seq<u8>,
        trailing: Seq<u8>,
    ) {
        lemma_auto_spec_u64_to_from_le_bytes();
        let layout = spec_field_layout::<F>();
        let width = spec_field_width::<F>() as int;
        let header = header_bytes(layout, value.len());
        let elems = elems_stack::<F>(value, prefix.len());
        let stack = header + elems + trailing;
        lemma_elems_round_trip::<F>(value, prefix, suffix, trailing);
        lemma_elems_footprint::<F>(value, prefix.len(), 0);
        if width > 0 {
            vstd::arithmetic::div_mod::lemma_div_by_multiple(value.len() as int, width);
            assert(stack =~= elems + trailing);
            assert(stack.len() == value.len() * width);
        } else {
            assert(stack.subrange(0, COUNT_SIZE as int) =~= header);
            assert(stack.skip(COUNT_SIZE as int) =~= elems + trailing);
        }
    }
}

/// Stack and heap bytes of the elements together, counted at heap position
/// zero.
pub open spec fn elems_len<F: Formula>(values: Seq<F::Value>) -> nat {
    elems_stack::<F>(values, 0).len() + elems_heap::<F>(values, 0).len()
}

/// Writing the first of the elements that remain, at heap position `heap`,
/// leaves the rest to be written at the heap position that follows it.
pub proof fn lemma_elems_step<F: Formula>(values: Seq<F::Value>, heap: nat)
    requires
        values.len() > 0,
    ensures
        elems_stack::<F>(values, heap) == field_stack::<F>(values.first(), heap) + elems_stack::<
            F,
        >(values.drop_first(), heap + field_heap::<F>(values.first(), heap).len()),
        elems_heap::<F>(values, heap) == field_heap::<F>(values.first(), heap) + elems_heap::<F>(
            values.drop_first(),
            heap + field_heap::<F>(values.first(), heap).len(),
        ),
        elems_addressable::<F>(values, heap) == (field_addressable::<F>(values.first(), heap)
            && elems_addressable::<F>(
            values.drop_first(),
            heap + field_heap::<F>(values.first(), heap).len(),
        )),
        field_stack::<F>(values.first(), heap).len() == spec_field_width::<F>(),
        field_heap::<F>(values.first(), heap).len() == field_heap::<F>(values.first(), 0).len(),
        elems_len::<F>(values) == spec_field_width::<F>() + field_heap::<F>(
            values.first(),
            0,
        ).len() + elems_len::<F>(values.drop_first()),
        elems_heap::<F>(values, 0).len() == field_heap::<F>(values.first(), 0).len() + elems_heap::<
            F,
        >(values.drop_first(), 0).len(),
{
    let first = values.first();
    let rest = values.drop_first();
    lemma_field_footprint::<F>(first, heap);
    lemma_field_footprint::<F>(first, 0);
    lemma_elems_footprint::<F>(rest, field_heap::<F>(first, 0).len(), 0);
    lemma_elems_footprint::<F>(rest, 0, 0);
}

/// Writes a sequence in the shape of `[F]`: every element as a field, front
/// to back, after the element count where a field has no width. An element
/// that does not fit ends the write; the elements written before it stay
/// committed and counted.
pub fn write_slice<F: Formula, T: Serialize<F>>(
    values: VecDeque<T>,
    sizes: &mut Sizes,
    buffer: &mut Buffer,
) -> (r: Result<(), SerializeError>)
    requires
        old(buffer).tracks(*old(sizes)),
    ensures
        final(buffer).tracks(*final(sizes)),
        final(buffer).extends(old(buffer)),
        r is Ok <==> old(buffer).has_room(
            header_len(spec_field_layout::<F>()) + elems_len::<F>(values.deep_view()),
        ),
        r is Ok ==> final(buffer).stack() == old(buffer).stack() + (header_bytes(
            spec_field_layout::<F>(),
            values.deep_view().len(),
        ) + elems_stack::<F>(values.deep_view(), old(sizes).heap as nat)),
        r is Ok ==> final(buffer).heap() == old(buffer).heap() + elems_heap::<F>(
            values.deep_view(),
            old(sizes).heap as nat,
        ),
        r is Ok ==> values.deep_view().len() <= usize::MAX && elems_addressable::<F>(
            values.deep_view(),
            old(sizes).heap as nat,
        ),
{
    broadcast use vstd::std_specs::vecdeque::group_vec_dequeue_axioms;

    let mut queue = values;
    let ghost all = queue.deep_view();
    let ghost before = *buffer;
    let ghost base = sizes.heap as nat;
    proof {
        lemma_auto_spec_u64_to_from_le_bytes();
    }
    let count = queue.len();
    let header = if field_width::<F>() == 0 {
        u64_to_le_bytes(count as u64)
    } else {
        Vec::new()
    };
    buffer.write_bytes(sizes, header.as_slice())?;
    assert(header@ =~= header_bytes(spec_field_layout::<F>(), all.len()));
    assert(buffer.stack() + elems_stack::<F>(all, base) =~= before.stack() + (header_bytes(
        spec_field_layout::<F>(),
        all.len(),
    ) + elems_stack::<F>(all, base)));
    while queue.len() > 0
        invariant
            before == *old(buffer),
            base == old(sizes).heap,
            all == values.deep_view(),
            buffer.tracks(*sizes),
            buffer.extends(&before),
            before.stack() + (header_bytes(spec_field_layout::<F>(), all.len()) + elems_stack::<F>(
                all,
                base,
            )) == buffer.stack() + elems_stack::<F>(queue.deep_view(), sizes.heap as nat),
            before.heap() + elems_heap::<F>(all, base) == buffer.heap() + elems_heap::<F>(
                queue.deep_view(),
                sizes.heap as nat,
            ),
            elems_addressable::<F>(queue.deep_view(), sizes.heap as nat) ==> elems_addressable::<
                F,
            >(all, base),
            before.has_room(header_len(spec_field_layout::<F>()) + elems_len::<F>(all))
                <==> buffer.has_room(
                elems_len::<F>(queue.deep_view()),
            ),
            buffer.has_room(0),
        decreases queue.len(),
    {
        let ghost rest_before = queue.deep_view();
        let ghost heap = sizes.heap as nat;
        let ghost stack_before = buffer.stack();
        let ghost heap_before = buffer.heap();
        let front = queue.pop_front();
        match front {
            None => {},
            Some(value) => {
                proof {
                    assert(value.deep_view() == rest_before.first());
                    assert(queue.deep_view() =~= rest_before.drop_first());
                    lemma_elems_step::<F>(rest_before, heap);
                }
                let ghost previous = *buffer;
                let written = buffer.write_value::<F, T>(sizes, value);
                proof {
                    lemma_extends_transitive(&before, &previous, buffer);
                }
                if written.is_err() {
                    return written;
                }
                proof {
                    let first = rest_before.first();
                    let rest = rest_before.drop_first();
                    let next = heap + field_heap::<F>(first, heap).len();
                    assert(buffer.stack() + elems_stack::<F>(rest, next) =~= stack_before
                        + elems_stack::<F>(rest_before, heap));
                    assert(buffer.heap() + elems_heap::<F>(rest, next) =~= heap_before
                        + elems_heap::<F>(rest_before, heap));
                }
            },
        }
    }
    proof {
        assert(queue.deep_view() =~= Seq::<F::Value>::empty());
        assert(buffer.stack() + Seq::<u8>::empty() =~= buffer.stack());
        assert(buffer.heap() + Seq::<u8>::empty() =~= buffer.heap());
    }
    Ok(())
}

/// The sizes that writing a sequence in the shape of `[F]` will commit.
pub fn iter_sizes<F: Formula, T: Serialize<F>>(values: &VecDeque<T>) -> (r: Option<Sizes>)
    ensures
        r == spec_size_hint::<[F]>(values.deep_view()),
{
    broadcast use vstd::std_specs::vecdeque::group_vec_dequeue_axioms;

    let ghost all = values.deep_view();
    proof {
        lemma_auto_spec_u64_to_from_le_bytes();
        lemma_elems_footprint::<F>(all, 0, 0);
    }
    let count = values.len();
    let width = field_width::<F>();
    let stack = if width == 0 {
        proof {
            assert(count as int * 0 == 0) by (nonlinear_arith);
        }
        COUNT_SIZE
    } else {
        match count.checked_mul(width) {
            None => {
                return None;
            },
            Some(stack) => stack,
        }
    };
    if field_layout::<F>().is_some() {
        return Some(Sizes { heap: 0, stack });
    }
    let mut heap: usize = 0;
    let mut index: usize = 0;
    assert(all.skip(0) =~= all);
    while index < count
        invariant
            index <= count,
            count == values.len(),
            all == values.deep_view(),
            spec_field_layout::<F>() is None,
            elems_heap::<F>(all, 0).len() == heap + elems_heap::<F>(
                all.skip(index as int),
                0,
            ).len(),
        decreases count - index,
    {
        proof {
            let rest = all.skip(index as int);
            lemma_elems_step::<F>(rest, 0);
            assert(rest.first() == values@[index as int].deep_view());
            assert(rest.drop_first() =~= all.skip(index + 1));
        }
        let payload = match values[index].size_hint() {
            None => {
                return None;
            },
            Some(inner) => match inner.heap.checked_add(inner.stack) {
                None => {
                    return None;
                },
                Some(payload) => payload,
            },
        };
        heap = match heap.checked_add(payload) {
            None => {
                return None;
            },
            Some(heap) => heap,
        };
        index = index + 1;
    }
    proof {
        assert(all.skip(count as int) =~= Seq::<F::Value>::empty());
    }
    Some(Sizes { heap, stack })
}

/// Writes a borrowed sequence in the shape of `[F]`, element by element,
/// without consuming it.
pub fn write_slice_ref<'ser, F: Formula, T: DeepView<V = F::Value>>(
    values: &'ser VecDeque<T>,
    sizes: &mut Sizes,
    buffer: &mut Buffer,
) -> (r: Result<(), SerializeError>) where &'ser T: Serialize<F>
    requires
        old(buffer).tracks(*old(sizes)),
    ensures
        final(buffer).tracks(*final(sizes)),
        final(buffer).extends(old(buffer)),
        r is Ok <==> old(buffer).has_room(
            header_len(spec_field_layout::<F>()) + elems_len::<F>(values.deep_view()),
        ),
        r is Ok ==> final(buffer).stack() == old(buffer).stack() + (header_bytes(
            spec_field_layout::<F>(),
            values.deep_view().len(),
        ) + elems_stack::<F>(values.deep_view(), old(sizes).heap as nat)),
        r is Ok ==> final(buffer).heap() == old(buffer).heap() + elems_heap::<F>(
            values.deep_view(),
            old(sizes).heap as nat,
        ),
        r is Ok ==> values.deep_view().len() <= usize::MAX && elems_addressable::<F>(
            values.deep_view(),
            old(sizes).heap as nat,
        ),
{
    broadcast use vstd::std_specs::vecdeque::group_vec_dequeue_axioms;

    let ghost all = values.deep_view();
    let ghost before = *buffer;
    let ghost base = sizes.heap as nat;
    proof {
        lemma_auto_spec_u64_to_from_le_bytes();
    }
    let count = values.len();
    let header = if field_width::<F>() == 0 {
        u64_to_le_bytes(count as u64)
    } else {
        Vec::new()
    };
    buffer.write_bytes(sizes, header.as_slice())?;
    assert(header@ =~= header_bytes(spec_field_layout::<F>(), all.len()));
    assert(buffer.stack() + elems_stack::<F>(all, base) =~= before.stack() + (header_bytes(
        spec_field_layout::<F>(),
        all.len(),
    ) + elems_stack::<F>(all, base)));
    assert(all.skip(0) =~= all);
    let mut index: usize = 0;
    while index < count
        invariant
            index <= count,
            count == values.len(),
            before == *old(buffer),
            base == old(sizes).heap,
            all == values.deep_view(),
            buffer.tracks(*sizes),
            buffer.extends(&before),
            before.stack() + (header_bytes(spec_field_layout::<F>(), all.len()) + elems_stack::<F>(
                all,
                base,
            )) == buffer.stack() + elems_stack::<F>(all.skip(index as int), sizes.heap as nat),
            before.heap() + elems_heap::<F>(all, base) == buffer.heap() + elems_heap::<F>(
                all.skip(index as int),
                sizes.heap as nat,
            ),
            elems_addressable::<F>(all.skip(index as int), sizes.heap as nat)
                ==> elems_addressable::<F>(all, base),
            before.has_room(header_len(spec_field_layout::<F>()) + elems_len::<F>(all))
                <==> buffer.has_room(
                elems_len::<F>(all.skip(index as int)),
            ),
            buffer.has_room(0),
        decreases count - index,
    {
        let ghost rest_before = all.skip(index as int);
        let ghost heap = sizes.heap as nat;
        let ghost stack_before = buffer.stack();
        let ghost heap_before = buffer.heap();
        proof {
            assert(rest_before.first() == values@[index as int].deep_view());
            assert(rest_before.drop_first() =~= all.skip(index + 1));
            lemma_elems_step::<F>(rest_before, heap);
        }
        let ghost previous = *buffer;
        let written = buffer.write_value::<F, &'ser T>(sizes, &values[index]);
        proof {
            lemma_extends_transitive(&before, &previous, buffer);
        }
        if written.is_err() {
            return written;
        }
        proof {
            let first = rest_before.first();
            let rest = rest_before.drop_first();
            let next = heap + field_heap::<F>(first, heap).len();
            assert(buffer.stack() + elems_stack::<F>(rest, next) =~= stack_before + elems_stack::<
                F,
            >(rest_before, heap));
            assert(buffer.heap() + elems_heap::<F>(rest, next) =~= heap_before + elems_heap::<F>(
                rest_before,
                heap,
            ));
        }
        index = index + 1;
    }
    proof {
        assert(all.skip(count as int) =~= Seq::<F::Value>::empty());
        assert(buffer.stack() + Seq::<u8>::empty() =~= buffer.stack());
        assert(buffer.heap() + Seq::<u8>::empty() =~= buffer.heap());
    }
    Ok(())
}

/// The sizes that writing a borrowed sequence in the shape of `[F]` will
/// commit.
pub fn ref_iter_sizes<'ser, F: Formula, T: DeepView<V = F::Value>>(values: &'ser VecDeque<T>) -> (r:
    Option<Sizes>) where &'ser T: Serialize<F>
    ensures
        r == spec_size_hint::<[F]>(values.deep_view()),
{
    broadcast use vstd::std_specs::vecdeque::group_vec_dequeue_axioms;

    let ghost all = values.deep_view();
    proof {
        lemma_auto_spec_u64_to_from_le_bytes();
        lemma_elems_footprint::<F>(all, 0, 0);
    }
    let count = values.len();
    let width = field_width::<F>();
    let stack = if width == 0 {
        proof {
            assert(count as int * 0 == 0) by (nonlinear_arith);
        }
        COUNT_SIZE
    } else {
        match count.checked_mul(width) {
            None => {
                return None;
            },
            Some(stack) => stack,
        }
    };
    if field_layout::<F>().is_some() {
        return Some(Sizes { heap: 0, stack });
    }
    let mut heap: usize = 0;
    let mut index: usize = 0;
    assert(all.skip(0) =~= all);
    while index < count
        invariant
            index <= count,
            count == values.len(),
            all == values.deep_view(),
            spec_field_layout::<F>() is None,
            elems_heap::<F>(all, 0).len() == heap + elems_heap::<F>(
                all.skip(index as int),
                0,
            ).len(),
        decreases count - index,
    {
        proof {
            let rest = all.skip(index as int);
            lemma_elems_step::<F>(rest, 0);
            assert(rest.first() == values@[index as int].deep_view());
            assert(rest.drop_first() =~= all.skip(index + 1));
        }
        let element: &'ser T = &values[index];
        let payload = match <&'ser T as Serialize<F>>::size_hint(&element) {
            None => {
                return None;
            },
            Some(inner) => match inner.heap.checked_add(inner.stack) {
                None => {
                    return None;
                },
                Some(payload) => payload,
            },
        };
        heap = match heap.checked_add(payload) {
            None => {
                return None;
            },
            Some(heap) => heap,
        };
        index = index + 1;
    }
    proof {
        assert(all.skip(count as int) =~= Seq::<F::Value>::empty());
    }
    Some(Sizes { heap, stack })
}

} // verus!
