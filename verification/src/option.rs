//! Optional values: one tag byte, then the value when there is one.
//!
//! The tag is 0 for an absent value and 1 for a present one. A reader takes
//! any tag other than 0 as "present". The value, being the last thing
//! written, follows the tag directly.

use crate::buffer::{lemma_extends_transitive, Buffer, Sizes};
use crate::deserialize::{Deserialize, Deserializer};
use crate::error::{DeserializeError, SerializeError};
use crate::formula::Formula;
use crate::serialize::Serialize;
use crate::size::{spec_sum_size, sum_size};
use vstd::prelude::*;

verus! {

impl<F: Formula> Formula for Option<F> {
    type Value = Option<F::Value>;

    open spec fn spec_max_stack_size() -> Option<usize> {
        spec_sum_size(Some(1), F::spec_max_stack_size())
    }

    open spec fn spec_exact_size() -> bool {
        false
    }

    open spec fn spec_heapless() -> bool {
        F::spec_heapless()
    }

    open spec fn stack_bytes(value: Option<F::Value>, heap: nat) -> Seq<u8> {
        match value {
            None => seq![0u8],
            Some(inner) => seq![1u8] + F::stack_bytes(inner, heap),
        }
    }

    open spec fn heap_bytes(value: Option<F::Value>, heap: nat) -> Seq<u8> {
        match value {
            None => Seq::empty(),
            Some(inner) => F::heap_bytes(inner, heap),
        }
    }

    open spec fn addressable(value: Option<F::Value>, heap: nat) -> bool {
        match value {
            None => true,
            Some(inner) => F::addressable(inner, heap),
        }
    }

    open spec fn decoded(stack: Seq<u8>, heap: Seq<u8>) -> Result<
        Option<F::Value>,
        DeserializeError,
    > {
        if stack.len() < 1 {
            Err(DeserializeError::UnexpectedEnd)
        } else if stack[0] == 0 {
            Ok(None)
        } else {
            match F::decoded(stack.skip(1), heap) {
                Ok(inner) => Ok(Some(inner)),
                Err(e) => Err(e),
            }
        }
    }

    fn max_stack_size() -> Option<usize> {
        sum_size(Some(1), F::max_stack_size())
    }

    fn exact_size() -> bool {
        false
    }

    fn heapless() -> bool {
        F::heapless()
    }

    proof fn law_footprint(value: Option<F::Value>, heap: nat) {
        match value {
            None => {},
            Some(inner) => {
                F::law_footprint(inner, heap);
            },
        }
    }

    proof fn law_round_trip(
        value: Option<F::Value>,
        prefix: Seq<u8>,
        suffix: Seq<u8>,
        trailing: Seq<u8>,
    ) {
        match value {
            None => {
                assert(prefix + Seq::<u8>::empty() + suffix =~= prefix + suffix);
            },
            Some(inner) => {
                let own = F::stack_bytes(inner, prefix.len());
                F::law_round_trip(inner, prefix, suffix, trailing);
                assert((seq![1u8] + own + trailing).skip(1) =~= own + trailing);
            },
        }
    }
}

/// An absent value is exactly one byte, the tag 0, and nothing in the heap.
pub proof fn lemma_none_is_one_byte<F: Formula>(heap: nat)
    ensures
        <Option<F> as Formula>::stack_bytes(None, heap) == seq![0u8],
        <Option<F> as Formula>::stack_bytes(None, heap).len() == 1,
        <Option<F> as Formula>::heap_bytes(None, heap).len() == 0,
{
}

/// A present value is the tag 1 followed by the value: one byte more than
/// the value alone.
pub proof fn lemma_some_is_tag_and_value<F: Formula>(inner: F::Value, heap: nat)
    ensures
        <Option<F> as Formula>::stack_bytes(Some(inner), heap) == seq![1u8] + F::stack_bytes(
            inner,
            heap,
        ),
        <Option<F> as Formula>::heap_bytes(Some(inner), heap) == F::heap_bytes(inner, heap),
        <Option<F> as Formula>::stack_bytes(Some(inner), heap).len() + <Option<
            F,
        > as Formula>::heap_bytes(Some(inner), heap).len() == 1 + F::stack_bytes(inner, heap).len()
            + F::heap_bytes(inner, heap).len(),
{
}

/// Any tag other than 0 is read as "present": what follows it is decoded as
/// the value.
pub proof fn lemma_nonzero_tag_is_present<F: Formula>(stack: Seq<u8>, heap: Seq<u8>)
    requires
        stack.len() >= 1,
        stack[0] != 0,
    ensures
        <Option<F> as Formula>::decoded(stack, heap) == match F::decoded(stack.skip(1), heap) {
            Ok(inner) => Ok::<Option<F::Value>, DeserializeError>(Some(inner)),
            Err(e) => Err(e),
        },
{
}

impl<F: Formula, T: Serialize<F>> Serialize<Option<F>> for Option<T> {
    fn serialize(self, sizes: &mut Sizes, buffer: &mut Buffer) -> (r: Result<(), SerializeError>) {
        match self {
            None => {
                let tag = [0u8];
                assert(tag@ =~= seq![0u8]);
                buffer.write_bytes(sizes, tag.as_slice())
            },
            Some(value) => {
                let tag = [1u8];
                assert(tag@ =~= seq![1u8]);
                proof {
                    F::law_footprint(value.deep_view(), sizes.heap as nat);
                }
                let ghost before = *buffer;
                buffer.write_bytes(sizes, tag.as_slice())?;
                let ghost between = *buffer;
                let written = buffer.write_last_value::<F, T>(sizes, value);
                proof {
                    lemma_extends_transitive(&before, &between, buffer);
                }
                written
            },
        }
    }

    fn size_hint(&self) -> (r: Option<Sizes>) {
        match self {
            None => Some(Sizes::with_stack(1)),
            Some(value) => match value.size_hint() {
                None => None,
                Some(inner) => {
                    let mut sizes = inner;
                    if sizes.stack == usize::MAX {
                        None
                    } else {
                        sizes.add_stack(1);
                        Some(sizes)
                    }
                },
            },
        }
    }
}

impl<'ser, F: Formula, T: DeepView<V = F::Value>> Serialize<Option<F>> for &'ser Option<T> where
    &'ser T: Serialize<F>,
 {
    fn serialize(self, sizes: &mut Sizes, buffer: &mut Buffer) -> (r: Result<(), SerializeError>) {
        match self {
            None => {
                let tag = [0u8];
                assert(tag@ =~= seq![0u8]);
                buffer.write_bytes(sizes, tag.as_slice())
            },
            Some(value) => {
                let tag = [1u8];
                assert(tag@ =~= seq![1u8]);
                proof {
                    F::law_footprint(value.deep_view(), sizes.heap as nat);
                }
                let ghost before = *buffer;
                buffer.write_bytes(sizes, tag.as_slice())?;
                let ghost between = *buffer;
                let written = buffer.write_last_value::<F, &'ser T>(sizes, value);
                proof {
                    lemma_extends_transitive(&before, &between, buffer);
                }
                written
            },
        }
    }

    fn size_hint(&self) -> (r: Option<Sizes>) {
        match self {
            None => Some(Sizes::with_stack(1)),
            Some(value) => match (&value).size_hint() {
                None => None,
                Some(inner) => {
                    let mut sizes = inner;
                    if sizes.stack == usize::MAX {
                        None
                    } else {
                        sizes.add_stack(1);
                        Some(sizes)
                    }
                },
            },
        }
    }
}

impl<'de, F: Formula, T: Deserialize<'de, F>> Deserialize<'de, Option<F>> for Option<T> {
    fn deserialize(de: Deserializer<'de>) -> (r: Result<Option<T>, DeserializeError>) {
        let mut de = de;
        let tag = de.read_bytes(1)?;
        if tag[0] != 0 {
            Ok(Some(de.read_value::<F, T>(true)?))
        } else {
            Ok(None)
        }
    }

    fn deserialize_in_place(&mut self, de: Deserializer<'de>) -> (r: Result<(), DeserializeError>) {
        let mut de = de;
        let tag = de.read_bytes(1)?;
        if tag[0] != 0 {
            match self {
                Some(value) => {
                    de.read_in_place::<F, T>(value, true)?;
                },
                None => {
                    *self = Some(de.read_value::<F, T>(true)?);
                },
            }
        } else {
            *self = None;
        }
        Ok(())
    }
}

} // verus!
