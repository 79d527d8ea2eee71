//! A schema-less codec for the Protocol Buffers wire format.
//!
//! The crate works directly on wire records: base-128 varints, fixed-width
//! little-endian carriers, length-delimited payloads, groups delimited by
//! matching start and end tags, and messages that concatenate tagged fields.
//! Parsing reads from a copy-on-write byte buffer without copying; mutation
//! promotes the buffer to exclusive ownership first.

use vstd::prelude::*;

pub mod field;
pub mod fixed32;
pub mod fixed64;
pub mod group;
pub mod len;
pub mod message;
pub mod message_object;
pub mod model;
pub mod packed_repeated;
pub mod varint;
pub mod wire_data;

pub use field::Field;
pub use fixed32::I32;
pub use fixed64::I64;
pub use group::Group;
pub use len::Len;
pub use message::{Message, MessageIter};
pub use message_object::MessageObject;
pub use packed_repeated::{
    PackedRepeatedI32, PackedRepeatedI32Iter, PackedRepeatedI64, PackedRepeatedI64Iter,
    PackedRepeatedVarint, PackedRepeatedVarintIter,
};
pub use varint::Varint;
pub use wire_data::WireData;

verus! {

/// A parse failure, attributed to the wire construct that raised it.
#[derive(Clone, Copy, Debug, PartialEq, Eq, Structural)]
pub enum FieldFault {
    /// A varint ended without a byte whose continuation bit is clear.
    MissingTerminator,
    /// A varint ran past ten bytes without terminating.
    VarintTooLong,
    /// A fixed-width value had fewer bytes than its width requires.
    InsufficientBytes,
    /// A length-delimited record declared more bytes than remain.
    LengthOverrun,
    /// A tag carried wire type 6 or 7.
    InvalidWireType,
    /// Groups were nested deeper than the parser permits.
    DepthLimitExceeded,
}

/// An error surfaced at a parse boundary.
#[derive(Clone, Copy, Debug, PartialEq, Eq, Structural)]
pub enum ParseError {
    /// A varint ended without a byte whose continuation bit is clear.
    MissingTerminator,
    /// A varint ran past ten bytes without terminating.
    VarintTooLong,
    /// A fixed-width value had fewer bytes than its width requires.
    InsufficientBytes,
    /// A length-delimited record declared more bytes than remain.
    LengthOverrun,
    /// A tag carried wire type 6 or 7.
    InvalidWireType,
    /// Groups were nested deeper than the parser permits.
    DepthLimitExceeded,
    /// A string view was requested of bytes that are not UTF-8.
    InvalidUtf8,
    /// A field's payload could not be parsed: the wire type that was being
    /// attempted, with the underlying fault.
    FieldParseFailure { wire_type: u64, cause: FieldFault },
}

} // verus!
