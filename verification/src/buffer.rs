//! The encode side: the size accumulator and the byte sink.
//!
//! A buffer keeps the stack region and the heap region apart while a value
//! is written and joins them, stack first, when the write is finished. The
//! accumulator of an encode call counts the bytes committed to each region;
//! every write takes both and leaves them in agreement.

use crate::error::SerializeError;
use crate::formula::{
    field_addressable, field_heap, field_layout, field_stack, heap_len, spec_field_width,
    stack_len, zeros, Formula,
};
use crate::serialize::{write_ref, write_reference, Serialize};
use vstd::prelude::*;

verus! {

/// Bytes committed so far to each region by one encode call.
#[derive(Clone, Copy, Debug, PartialEq, Eq, Structural)]
pub struct Sizes {
    pub heap: usize,
    pub stack: usize,
}

impl Sizes {
    /// Nothing committed.
    pub fn zero() -> (sizes: Sizes)
        ensures
            sizes == (Sizes { heap: 0, stack: 0 }),
    {
        Sizes { heap: 0, stack: 0 }
    }

    /// `stack` bytes on the stack and none in the heap.
    pub fn with_stack(stack: usize) -> (sizes: Sizes)
        ensures
            sizes == (Sizes { heap: 0, stack }),
    {
        Sizes { heap: 0, stack }
    }

    /// Counts `stack` more bytes on the stack.
    pub fn add_stack(&mut self, stack: usize)
        requires
            old(self).stack + stack <= usize::MAX,
        ensures
            final(self).stack == old(self).stack + stack,
            final(self).heap == old(self).heap,
    {
        self.stack = self.stack + stack;
    }

    /// Counts the stack bytes above `until` as heap bytes instead, and
    /// returns how many they are.
    pub fn to_heap(&mut self, until: usize) -> (len: usize)
        requires
            until <= old(self).stack,
            old(self).heap + (old(self).stack - until) <= usize::MAX,
        ensures
            len == old(self).stack - until,
            final(self).heap == old(self).heap + len,
            final(self).stack == until,
    {
        let len = self.stack - until;
        self.heap = self.heap + len;
        self.stack = until;
        len
    }
}

/// A byte sink with a stack region and a heap region, growable without end
/// or up to a fixed number of bytes.
pub struct Buffer {
    stack: Vec<u8>,
    heap: Vec<u8>,
    limit: Option<usize>,
}

impl Buffer {
    /// The bytes of the stack region.
    pub closed spec fn stack(&self) -> Seq<u8> {
        self.stack@
    }

    /// The bytes of the heap region.
    pub closed spec fn heap(&self) -> Seq<u8> {
        self.heap@
    }

    /// The most bytes both regions may hold together, `None` when the buffer
    /// grows as needed.
    pub closed spec fn limit(&self) -> Option<usize> {
        self.limit
    }

    /// Whether the accumulator counts exactly the bytes in the two regions.
    pub open spec fn tracks(&self, sizes: Sizes) -> bool {
        &&& sizes.stack == self.stack().len()
        &&& sizes.heap == self.heap().len()
    }

    /// Whether `len` more bytes fit.
    pub open spec fn has_room(&self, len: nat) -> bool {
        self.limit() matches Some(limit) ==> self.stack().len() + self.heap().len() + len <= limit
    }

    /// Whether both regions hold the same bytes as those of `other`, under
    /// the same limit.
    pub open spec fn same_contents(&self, other: &Buffer) -> bool {
        &&& self.limit() == other.limit()
        &&& self.stack() == other.stack()
        &&& self.heap() == other.heap()
    }

    /// Whether this buffer is `before` after some writes: the same limit,
    /// and both regions of `before` still at the front of its regions.
    pub open spec fn extends(&self, before: &Buffer) -> bool {
        &&& self.limit() == before.limit()
        &&& before.stack().is_prefix_of(self.stack())
        &&& before.heap().is_prefix_of(self.heap())
    }

    /// An empty buffer that grows as needed.
    pub fn new() -> (buffer: Buffer)
        ensures
            buffer.stack() == Seq::<u8>::empty(),
            buffer.heap() == Seq::<u8>::empty(),
            buffer.limit() == None::<usize>,
    {
        Buffer { stack: Vec::new(), heap: Vec::new(), limit: None }
    }

    /// An empty buffer that holds at most `limit` bytes.
    pub fn with_limit(limit: usize) -> (buffer: Buffer)
        ensures
            buffer.stack() == Seq::<u8>::empty(),
            buffer.heap() == Seq::<u8>::empty(),
            buffer.limit() == Some(limit),
    {
        Buffer { stack: Vec::new(), heap: Vec::new(), limit: Some(limit) }
    }

    /// The accumulator that counts what the buffer holds.
    pub fn sizes(&self) -> (sizes: Sizes)
        ensures
            self.tracks(sizes),
    {
        Sizes { heap: self.heap.len(), stack: self.stack.len() }
    }

    /// The stack region as written so far.
    pub fn stack_region(&self) -> (bytes: &[u8])
        ensures
            bytes@ == self.stack(),
    {
        self.stack.as_slice()
    }

    /// The heap region as written so far.
    pub fn heap_region(&self) -> (bytes: &[u8])
        ensures
            bytes@ == self.heap(),
    {
        self.heap.as_slice()
    }

    fn fits(&self, len: usize) -> (r: bool)
        ensures
            r == self.has_room(len as nat),
    {
        match self.limit {
            None => true,
            Some(limit) => match self.stack.len().checked_add(self.heap.len()) {
                None => false,
                Some(used) => match used.checked_add(len) {
                    None => false,
                    Some(total) => total <= limit,
                },
            },
        }
    }

    /// Appends `bytes` to the stack region, or fails and changes nothing
    /// when they do not fit.
    pub fn write_bytes(&mut self, sizes: &mut Sizes, bytes: &[u8]) -> (r: Result<
        (),
        SerializeError,
    >)
        requires
            old(self).tracks(*old(sizes)),
        ensures
            final(self).tracks(*final(sizes)),
            final(self).extends(old(self)),
            r is Ok <==> old(self).has_room(bytes@.len()),
            r is Ok ==> final(self).stack() == old(self).stack() + bytes@,
            r is Ok ==> final(self).heap() == old(self).heap(),
            r is Err ==> final(self).same_contents(old(self)),
    {
        if !self.fits(bytes.len()) {
            return Err(SerializeError::OutOfSpace);
        }
        self.stack.extend_from_slice(bytes);
        sizes.stack = self.stack.len();
        Ok(())
    }

    /// Appends `len` zero bytes to the stack region, or fails and changes
    /// nothing when they do not fit.
    pub fn pad_stack(&mut self, sizes: &mut Sizes, len: usize) -> (r: Result<(), SerializeError>)
        requires
            old(self).tracks(*old(sizes)),
        ensures
            final(self).tracks(*final(sizes)),
            final(self).extends(old(self)),
            r is Ok <==> old(self).has_room(len as nat),
            r is Ok ==> final(self).stack() == old(self).stack() + zeros(len as nat),
            r is Ok ==> final(self).heap() == old(self).heap(),
            r is Err ==> final(self).same_contents(old(self)),
    {
        if !self.fits(len) {
            return Err(SerializeError::OutOfSpace);
        }
        let mut done: usize = 0;
        while done < len
            invariant
                done <= len,
                self.stack@ == old(self).stack@ + zeros(done as nat),
                self.heap@ == old(self).heap@,
                self.limit == old(self).limit,
                old(self).has_room(len as nat),
            decreases len - done,
        {
            self.stack.push(0u8);
            done = done + 1;
            assert(self.stack@ =~= old(self).stack@ + zeros(done as nat));
        }
        sizes.stack = self.stack.len();
        Ok(())
    }

    /// Moves the last `len` bytes of the stack region to the end of the heap
    /// region.
    pub fn move_to_heap(&mut self, sizes: &mut Sizes, len: usize)
        requires
            old(self).tracks(*old(sizes)),
            len <= old(sizes).stack,
        ensures
            final(self).tracks(*final(sizes)),
            final(self).limit() == old(self).limit(),
            final(self).stack() == old(self).stack().take(old(self).stack().len() - len),
            final(self).heap() == old(self).heap() + old(self).stack().skip(
                old(self).stack().len() - len,
            ),
    {
        let at = self.stack.len() - len;
        let mut moved = self.stack.split_off(at);
        self.heap.append(&mut moved);
        sizes.stack = self.stack.len();
        sizes.heap = self.heap.len();
    }

    /// Writes `value` as a field that other fields follow: inline and padded
    /// to the bound where the formula is heapless and bounded, behind a
    /// reference otherwise. Fails exactly when the field does not fit; what
    /// was committed before the failure stays committed and counted.
    pub fn write_value<F: Formula + ?Sized, T: Serialize<F>>(
        &mut self,
        sizes: &mut Sizes,
        value: T,
    ) -> (r: Result<(), SerializeError>)
        requires
            old(self).tracks(*old(sizes)),
        ensures
            final(self).tracks(*final(sizes)),
            final(self).extends(old(self)),
            r is Ok <==> old(self).has_room(
                spec_field_width::<F>() + field_heap::<F>(value.deep_view(), 0).len(),
            ),
            r is Ok ==> final(self).stack() == old(self).stack() + field_stack::<F>(
                value.deep_view(),
                old(sizes).heap as nat,
            ),
            r is Ok ==> final(self).heap() == old(self).heap() + field_heap::<F>(
                value.deep_view(),
                old(sizes).heap as nat,
            ),
            r is Ok ==> field_addressable::<F>(value.deep_view(), old(sizes).heap as nat),
    {
        proof {
            F::law_footprint(value.deep_view(), sizes.heap as nat);
            vstd::bytes::lemma_auto_spec_u64_to_from_le_bytes();
        }
        let ghost before = *self;
        match field_layout::<F>() {
            Some(width) => {
                let start = sizes.stack;
                value.serialize(sizes, self)?;
                let ghost between = *self;
                let padded = self.pad_stack(sizes, width - (sizes.stack - start));
                proof {
                    lemma_extends_transitive(&before, &between, self);
                }
                padded
            },
            None => {
                let length = write_ref::<F, T>(value, sizes, self)?;
                let ghost between = *self;
                let written = write_reference(length, sizes.heap, sizes, self);
                proof {
                    lemma_extends_transitive(&before, &between, self);
                }
                written
            },
        }
    }

    /// Writes `value` as the last field of its aggregate: directly, with
    /// neither padding nor a reference, since nothing follows it.
    pub fn write_last_value<F: Formula + ?Sized, T: Serialize<F>>(
        &mut self,
        sizes: &mut Sizes,
        value: T,
    ) -> (r: Result<(), SerializeError>)
        requires
            old(self).tracks(*old(sizes)),
        ensures
            final(self).tracks(*final(sizes)),
            final(self).extends(old(self)),
            r is Ok <==> old(self).has_room(
                stack_len::<F>(value.deep_view()) + heap_len::<F>(value.deep_view()),
            ),
            r is Ok ==> final(self).stack() == old(self).stack() + F::stack_bytes(
                value.deep_view(),
                old(sizes).heap as nat,
            ),
            r is Ok ==> final(self).heap() == old(self).heap() + F::heap_bytes(
                value.deep_view(),
                old(sizes).heap as nat,
            ),
            r is Ok ==> F::addressable(value.deep_view(), old(sizes).heap as nat),
    {
        value.serialize(sizes, self)
    }

    /// A second handle on the same sink, for a write made of several writes.
    pub fn reborrow(&mut self) -> (handle: &mut Buffer)
        ensures
            *handle == *old(self),
            *final(self) == *final(handle),
    {
        self
    }

    /// Ends the write: when the accumulator agrees with the two regions,
    /// returns the stack region followed by the heap region.
    pub fn finish(self, sizes: &Sizes) -> (r: Option<Vec<u8>>)
        ensures
            r is Some <==> self.tracks(*sizes),
            r matches Some(bytes) ==> bytes@ == self.stack() + self.heap(),
    {
        if sizes.stack != self.stack.len() || sizes.heap != self.heap.len() {
            return None;
        }
        let mut bytes = self.stack;
        let mut heap = self.heap;
        bytes.append(&mut heap);
        Some(bytes)
    }
}

/// A buffer that extends one that extends a third extends the third.
pub proof fn lemma_extends_transitive(first: &Buffer, second: &Buffer, third: &Buffer)
    requires
        second.extends(first),
        third.extends(second),
    ensures
        third.extends(first),
{
    assert(first.stack() =~= third.stack().subrange(0, first.stack().len() as int));
    assert(first.heap() =~= third.heap().subrange(0, first.heap().len() as int));
}

} // verus!
