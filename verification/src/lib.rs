//! Zero-copy binary serialization: formulas describe the wire shape of
//! values, and independent encode and decode paths write into and read from
//! a stack region and a heap region linked by references.
//!
//! # Wire format
//!
//! An encoded buffer is its stack region followed by its heap region. The
//! stack region of a whole buffer holds one field, that of the encoded
//! value, so its width is known from the formula alone.
//!
//! A field of a heapless, bounded formula is the value's own stack bytes,
//! padded with zero bytes to the bound. A field of any other formula is a
//! reference, and the value lies in the heap: first what the value itself
//! places in the heap, then what it would have placed on the stack.
//!
//! A reference is sixteen bytes, two unsigned 64-bit little-endian
//! integers: the heap offset at which its payload ends, and the length of
//! the payload. A payload only refers to heap bytes that precede it.
//!
//! An optional value is one tag byte, followed by the value when the tag is
//! not zero. A sequence is one field per element and nothing else: its
//! element count is the length of its stack range divided by the width of
//! a field. Only where a field has no width does the count, an unsigned
//! 64-bit little-endian integer, stand before the elements. Raw bytes are
//! written as they are and take all of the stack range they are given. A
//! queue is a reference to a sequence.

pub mod array;
pub mod buffer;
pub mod bytes;
pub mod deserialize;
pub mod error;
pub mod formula;
pub mod option;
pub mod primitive;
pub mod reference;
pub mod schema;
pub mod serialize;
pub mod size;
pub mod slice;
pub mod vec_deque;

pub use crate::buffer::{Buffer, Sizes};
pub use crate::bytes::Bytes;
pub use crate::deserialize::{deserialize, deserialize_in_place, DeIter, Deserialize, Deserializer};
pub use crate::error::{DeserializeError, SerializeError};
pub use crate::formula::Formula;
pub use crate::reference::{Ref, Reference};
pub use crate::serialize::{serialize, serialize_to_vec, Serialize};
pub use crate::size::{max_size, sum_size};
