//! The length-delimited record (wire type 2).
//!
//! A `Len` owns a varint length prefix and an opaque payload buffer of
//! exactly that many bytes. Interpretation of the payload — UTF-8 string,
//! embedded message, packed repeated scalars — is a view the caller chooses.

use vstd::prelude::*;
use vstd::utf8::{decode_utf8, valid_utf8};
use vstd::string::StringSliceAdditionalSpecFns;

use crate::message::Message;
use crate::model::{decode_u64, encode_u64, parse_varint};
use crate::packed_repeated::{PackedRepeatedI32, PackedRepeatedI64, PackedRepeatedVarint};
use crate::varint::Varint;
use crate::wire_data::WireData;
use crate::ParseError;

verus! {

/// Relies on `std::str::from_utf8`: it succeeds exactly on valid UTF-8 and
/// returns a string slice over those same bytes.
#[verifier::external_body]
fn utf8_view(s: &[u8]) -> (r: Option<&str>)
    ensures
        match r {
            Some(t) => {
                &&& valid_utf8(s@)
                &&& t@ == decode_utf8(s@)
                &&& t.spec_bytes() == s@
            },
            None => !valid_utf8(s@),
        },
{
    std::str::from_utf8(s).ok()
}

/// A varint length prefix and the payload it counts.
#[derive(Debug)]
pub struct Len {
    pub length: Varint,
    pub inner: WireData,
}

impl Len {
    /// The length prefix is a varint counting exactly the payload bytes.
    pub open spec fn wf(&self) -> bool {
        self.length.wf() && self.length.value() == self.inner@.len()
    }

    /// An empty record: length zero, no payload.
    pub fn new() -> (r: Self)
        ensures
            r.inner@.len() == 0,
            r.length@ == encode_u64(0),
            r.wf(),
    {
        Len { length: Varint::new(0), inner: WireData::new_mut(Vec::new()) }
    }

    /// A record holding the UTF-8 bytes of `s`.
    pub fn new_string(s: &str) -> (r: Self)
        ensures
            r.inner@ == s.spec_bytes(),
            r.length@ == encode_u64(s.spec_bytes().len() as u64),
            r.wf(),
    {
        let bytes = s.as_bytes();
        Len {
            length: Varint::new(bytes.len() as u64),
            inner: WireData::new(vstd::slice::slice_to_vec(bytes)),
        }
    }

    /// A record wrapping a serialized message as its payload.
    pub fn new_message(m: Message) -> (r: Self)
        ensures
            r.inner@ == m@,
            r.length@ == encode_u64(m@.len() as u64),
            r.wf(),
    {
        let len = m.0.len();
        Len { length: Varint::new(len as u64), inner: m.0 }
    }

    /// An empty record with room reserved for its payload.
    pub fn with_capacity(capacity: usize) -> (r: Self)
        ensures
            r.inner@.len() == 0,
            r.length@ == encode_u64(0),
            r.wf(),
    {
        let _ = capacity;
        Self::new()
    }

    /// Splits a record off `data`: a varint length, then that many payload
    /// bytes. Fails as the varint parse fails, or with `LengthOverrun`
    /// exactly when the declared length exceeds what remains.
    pub fn from(data: WireData) -> (r: Result<(Self, WireData), ParseError>)
        ensures
            match r {
                Ok(p) => {
                    &&& parse_varint(data@) matches Ok(q)
                    &&& p.0.length@ == q.0
                    &&& decode_u64(q.0) <= q.1.len()
                    &&& p.0.inner@ == q.1.take(decode_u64(q.0) as int)
                    &&& p.1@ == q.1.skip(decode_u64(q.0) as int)
                    &&& p.0.wf()
                },
                Err(e) => {
                    ||| (parse_varint(data@) matches Err(e0) && e == e0)
                    ||| (parse_varint(data@) matches Ok(q) && decode_u64(q.0) > q.1.len() && e
                        == ParseError::LengthOverrun)
                },
            },
    {
        let (length, rest) = match Varint::from(data) {
            Ok(p) => p,
            Err(e) => {
                return Err(e);
            },
        };
        let declared = length.get();
        let available = rest.len();
        if declared > available as u64 {
            return Err(ParseError::LengthOverrun);
        }
        let mut inner = rest;
        let remainder = inner.split_off(declared as usize);
        Ok((Len { length, inner }, remainder))
    }

    /// A buffer over the payload bytes; shared storage, no copy, when the
    /// payload is shared.
    pub fn get_data(&self) -> (r: WireData)
        ensures
            r@ == self.inner@,
    {
        self.inner.clone()
    }

    /// The payload viewed as UTF-8: succeeds exactly when the bytes are
    /// valid UTF-8, and then decodes them.
    pub fn as_str(&self) -> (r: Result<&str, ParseError>)
        ensures
            match r {
                Ok(t) => {
                    &&& valid_utf8(self.inner@)
                    &&& t@ == decode_utf8(self.inner@)
                    &&& t.spec_bytes() == self.inner@
                },
                Err(e) => !valid_utf8(self.inner@) && e == ParseError::InvalidUtf8,
            },
    {
        match utf8_view(self.inner.as_slice()) {
            Some(t) => Ok(t),
            None => Err(ParseError::InvalidUtf8),
        }
    }

    /// The payload viewed as an embedded message; the length prefix is
    /// dropped.
    pub fn into_message(self) -> (r: Message)
        ensures
            r@ == self.inner@,
    {
        Message(self.inner)
    }

    /// The payload viewed as packed repeated varints.
    pub fn into_packed_repeated_varint(self) -> (r: PackedRepeatedVarint)
        ensures
            r@ == self.inner@,
    {
        PackedRepeatedVarint(self.inner)
    }

    /// The payload viewed as packed repeated eight-byte values.
    pub fn into_packed_repeated_i64(self) -> (r: PackedRepeatedI64)
        ensures
            r@ == self.inner@,
    {
        PackedRepeatedI64(self.inner)
    }

    /// The payload viewed as packed repeated four-byte values.
    pub fn into_packed_repeated_i32(self) -> (r: PackedRepeatedI32)
        ensures
            r@ == self.inner@,
    {
        PackedRepeatedI32(self.inner)
    }

    /// Replaces the payload with the UTF-8 bytes of `s` and re-counts the
    /// length prefix.
    pub fn set_str(&mut self, s: &str)
        ensures
            final(self).inner@ == s.spec_bytes(),
            final(self).length@ == encode_u64(s.spec_bytes().len() as u64),
            final(self).wf(),
    {
        self.set_bytes(s.as_bytes());
    }

    /// Replaces the payload with the given bytes and re-counts the length
    /// prefix.
    pub fn set_bytes(&mut self, data: &[u8])
        ensures
            final(self).inner@ == data@,
            final(self).length@ == encode_u64(data@.len() as u64),
            final(self).wf(),
    {
        self.inner.get_mut_or_default();
        self.inner.clear();
        self.inner.extend_from_slice(data);
        self.length.set(data.len() as u64);
    }

    /// Replaces the payload with a serialized message and re-counts the
    /// length prefix.
    pub fn set_message(&mut self, m: Message)
        ensures
            final(self).inner@ == m@,
            final(self).length@ == encode_u64(m@.len() as u64),
            final(self).wf(),
    {
        let len = m.0.len();
        self.length.set(len as u64);
        self.inner = m.0;
    }

    /// Replaces the payload with a packed repeated varint buffer and
    /// re-counts the length prefix.
    pub fn set_packed_repeated_varint(&mut self, r: PackedRepeatedVarint)
        ensures
            final(self).inner@ == r@,
            final(self).length@ == encode_u64(r@.len() as u64),
            final(self).wf(),
    {
        let len = r.0.len();
        self.length.set(len as u64);
        self.inner = r.0;
    }

    /// Replaces the payload with a packed repeated eight-byte buffer and
    /// re-counts the length prefix.
    pub fn set_packed_repeated_i64(&mut self, r: PackedRepeatedI64)
        ensures
            final(self).inner@ == r@,
            final(self).length@ == encode_u64(r@.len() as u64),
            final(self).wf(),
    {
        let len = r.0.len();
        self.length.set(len as u64);
        self.inner = r.0;
    }

    /// Replaces the payload with a packed repeated four-byte buffer and
    /// re-counts the length prefix.
    pub fn set_packed_repeated_i32(&mut self, r: PackedRepeatedI32)
        ensures
            final(self).inner@ == r@,
            final(self).length@ == encode_u64(r@.len() as u64),
            final(self).wf(),
    {
        let len = r.0.len();
        self.length.set(len as u64);
        self.inner = r.0;
    }
}

impl Default for Len {
    /// The empty record.
    fn default() -> (r: Self)
        ensures
            r.inner@.len() == 0,
            r.wf(),
    {
        Self::new()
    }
}

} // verus!
