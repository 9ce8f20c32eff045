//! Leaf formulas: nothing at all, a single byte, and a truth value.

use crate::buffer::{Buffer, Sizes};
use crate::deserialize::{Deserialize, Deserializer};
use crate::error::{DeserializeError, SerializeError};
use crate::formula::Formula;
use crate::serialize::Serialize;
use vstd::prelude::*;

verus! {

/// A byte is written as itself.
impl Formula for u8 {
    type Value = u8;

    open spec fn spec_max_stack_size() -> Option<usize> {
        Some(1)
    }

    open spec fn spec_exact_size() -> bool {
        true
    }

    open spec fn spec_heapless() -> bool {
        true
    }

    open spec fn stack_bytes(value: u8, heap: nat) -> Seq<u8> {
        seq![value]
    }

    open spec fn heap_bytes(value: u8, heap: nat) -> Seq<u8> {
        Seq::empty()
    }

    open spec fn addressable(value: u8, heap: nat) -> bool {
        true
    }

    open spec fn decoded(stack: Seq<u8>, heap: Seq<u8>) -> Result<u8, DeserializeError> {
        if stack.len() < 1 {
            Err(DeserializeError::UnexpectedEnd)
        } else {
            Ok(stack[0])
        }
    }

    fn max_stack_size() -> Option<usize> {
        Some(1)
    }

    fn exact_size() -> bool {
        true
    }

    fn heapless() -> bool {
        true
    }

    proof fn law_footprint(value: u8, heap: nat) {
    }

    proof fn law_round_trip(value: u8, prefix: Seq<u8>, suffix: Seq<u8>, trailing: Seq<u8>) {
    }
}

impl Serialize<u8> for u8 {
    fn serialize(self, sizes: &mut Sizes, buffer: &mut Buffer) -> (r: Result<(), SerializeError>) {
        let bytes = [self];
        assert(bytes@ =~= seq![self]);
        buffer.write_bytes(sizes, bytes.as_slice())
    }

    fn size_hint(&self) -> (r: Option<Sizes>) {
        Some(Sizes::with_stack(1))
    }
}

impl<'ser> Serialize<u8> for &'ser u8 {
    fn serialize(self, sizes: &mut Sizes, buffer: &mut Buffer) -> (r: Result<(), SerializeError>) {
        let bytes = [*self];
        assert(bytes@ =~= seq![*self]);
        buffer.write_bytes(sizes, bytes.as_slice())
    }

    fn size_hint(&self) -> (r: Option<Sizes>) {
        Some(Sizes::with_stack(1))
    }
}

impl<'de> Deserialize<'de, u8> for u8 {
    fn deserialize(de: Deserializer<'de>) -> (r: Result<u8, DeserializeError>) {
        let mut de = de;
        let bytes = de.read_bytes(1)?;
        Ok(bytes[0])
    }

    fn deserialize_in_place(&mut self, de: Deserializer<'de>) -> (r: Result<(), DeserializeError>) {
        let mut de = de;
        let bytes = de.read_bytes(1)?;
        *self = bytes[0];
        Ok(())
    }
}

/// The byte that stands for a truth value.
pub open spec fn bool_tag(value: bool) -> u8 {
    if value {
        1
    } else {
        0
    }
}

/// A truth value is written as one tag byte, 0 or 1; any other tag is
/// rejected when read.
impl Formula for bool {
    type Value = bool;

    open spec fn spec_max_stack_size() -> Option<usize> {
        Some(1)
    }

    open spec fn spec_exact_size() -> bool {
        true
    }

    open spec fn spec_heapless() -> bool {
        true
    }

    open spec fn stack_bytes(value: bool, heap: nat) -> Seq<u8> {
        seq![bool_tag(value)]
    }

    open spec fn heap_bytes(value: bool, heap: nat) -> Seq<u8> {
        Seq::empty()
    }

    open spec fn addressable(value: bool, heap: nat) -> bool {
        true
    }

    open spec fn decoded(stack: Seq<u8>, heap: Seq<u8>) -> Result<bool, DeserializeError> {
        if stack.len() < 1 {
            Err(DeserializeError::UnexpectedEnd)
        } else if stack[0] == 0 {
            Ok(false)
        } else if stack[0] == 1 {
            Ok(true)
        } else {
            Err(DeserializeError::UnexpectedDiscriminant)
        }
    }

    fn max_stack_size() -> Option<usize> {
        Some(1)
    }

    fn exact_size() -> bool {
        true
    }

    fn heapless() -> bool {
        true
    }

    proof fn law_footprint(value: bool, heap: nat) {
    }

    proof fn law_round_trip(value: bool, prefix: Seq<u8>, suffix: Seq<u8>, trailing: Seq<u8>) {
    }
}

impl Serialize<bool> for bool {
    fn serialize(self, sizes: &mut Sizes, buffer: &mut Buffer) -> (r: Result<(), SerializeError>) {
        let tag: u8 = if self {
            1
        } else {
            0
        };
        let bytes = [tag];
        assert(bytes@ =~= seq![bool_tag(self)]);
        buffer.write_bytes(sizes, bytes.as_slice())
    }

    fn size_hint(&self) -> (r: Option<Sizes>) {
        Some(Sizes::with_stack(1))
    }
}

impl<'de> Deserialize<'de, bool> for bool {
    fn deserialize(de: Deserializer<'de>) -> (r: Result<bool, DeserializeError>) {
        let mut de = de;
        let bytes = de.read_bytes(1)?;
        let tag = bytes[0];
        if tag == 0 {
            Ok(false)
        } else if tag == 1 {
            Ok(true)
        } else {
            Err(DeserializeError::UnexpectedDiscriminant)
        }
    }

    fn deserialize_in_place(&mut self, de: Deserializer<'de>) -> (r: Result<(), DeserializeError>) {
        let value = <bool as Deserialize<'de, bool>>::deserialize(de)?;
        *self = value;
        Ok(())
    }
}

/// The unit value is written as no bytes at all.
impl Formula for () {
    type Value = ();

    open spec fn spec_max_stack_size() -> Option<usize> {
        Some(0)
    }

    open spec fn spec_exact_size() -> bool {
        true
    }

    open spec fn spec_heapless() -> bool {
        true
    }

    open spec fn stack_bytes(value: (), heap: nat) -> Seq<u8> {
        Seq::empty()
    }

    open spec fn heap_bytes(value: (), heap: nat) -> Seq<u8> {
        Seq::empty()
    }

    open spec fn addressable(value: (), heap: nat) -> bool {
        true
    }

    open spec fn decoded(stack: Seq<u8>, heap: Seq<u8>) -> Result<(), DeserializeError> {
        Ok(())
    }

    fn max_stack_size() -> Option<usize> {
        Some(0)
    }

    fn exact_size() -> bool {
        true
    }

    fn heapless() -> bool {
        true
    }

    proof fn law_footprint(value: (), heap: nat) {
    }

    proof fn law_round_trip(value: (), prefix: Seq<u8>, suffix: Seq<u8>, trailing: Seq<u8>) {
    }
}

impl Serialize<()> for () {
    fn serialize(self, sizes: &mut Sizes, buffer: &mut Buffer) -> (r: Result<(), SerializeError>) {
        let nothing: [u8; 0] = [];
        assert(nothing@ =~= Seq::<u8>::empty());
        let written = buffer.write_bytes(sizes, nothing.as_slice());
        proof {
            assert(old(buffer).stack() + Seq::<u8>::empty() =~= old(buffer).stack());
            assert(old(buffer).heap() + Seq::<u8>::empty() =~= old(buffer).heap());
        }
        written
    }

    fn size_hint(&self) -> (r: Option<Sizes>) {
        Some(Sizes::zero())
    }
}

impl<'de> Deserialize<'de, ()> for () {
    fn deserialize(de: Deserializer<'de>) -> (r: Result<(), DeserializeError>) {
        Ok(())
    }

    fn deserialize_in_place(&mut self, de: Deserializer<'de>) -> (r: Result<(), DeserializeError>) {
        Ok(())
    }
}

} // verus!
