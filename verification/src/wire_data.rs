//! The copy-on-write byte buffer that every wire value reads from.
//!
//! A `WireData` is either a shared immutable view (`Const`, backed by
//! `bytes::Bytes`) or an exclusively owned growable buffer (`Mut`, backed by
//! `bytes::BytesMut`). Parsing splits shared buffers without copying; any
//! mutation first promotes the buffer to the owned state.

use vstd::prelude::*;

verus! {

#[verifier::external_type_specification]
#[verifier::external_body]
pub struct ExBytes(bytes::Bytes);

#[verifier::external_type_specification]
#[verifier::external_body]
pub struct ExBytesMut(bytes::BytesMut);

/// The bytes that a `bytes::Bytes` buffer holds, in order.
pub uninterp spec fn bytes_seq(b: bytes::Bytes) -> Seq<u8>;

/// The bytes that a `bytes::BytesMut` buffer holds, in order.
pub uninterp spec fn bytes_mut_seq(b: bytes::BytesMut) -> Seq<u8>;

/// Relies on `Bytes::from(Vec<u8>)`: the buffer takes over the vector's
/// contents unchanged.
#[verifier::external_body]
fn bytes_from_vec(data: Vec<u8>) -> (b: bytes::Bytes)
    ensures
        bytes_seq(b) == data@,
{
    bytes::Bytes::from(data)
}

/// Relies on `BytesMut::from(&[u8])`: the new buffer holds a copy of the
/// slice.
#[verifier::external_body]
fn bytes_mut_from_slice(data: &[u8]) -> (b: bytes::BytesMut)
    ensures
        bytes_mut_seq(b) == data@,
{
    bytes::BytesMut::from(data)
}

/// Relies on `BytesMut::new`: the new buffer is empty.
#[verifier::external_body]
fn bytes_mut_new() -> (b: bytes::BytesMut)
    ensures
        bytes_mut_seq(b) == Seq::<u8>::empty(),
{
    bytes::BytesMut::new()
}

/// Relies on `BytesMut::with_capacity`: the new buffer is empty (capacity is
/// not part of the model).
#[verifier::external_body]
fn bytes_mut_with_capacity(capacity: usize) -> (b: bytes::BytesMut)
    ensures
        bytes_mut_seq(b) == Seq::<u8>::empty(),
{
    bytes::BytesMut::with_capacity(capacity)
}

/// Relies on `<Bytes as AsRef<[u8]>>::as_ref`: the slice of all bytes held.
#[verifier::external_body]
fn bytes_as_slice(b: &bytes::Bytes) -> (s: &[u8])
    ensures
        s@ == bytes_seq(*b),
{
    b.as_ref()
}

/// Relies on `<BytesMut as AsRef<[u8]>>::as_ref`: the slice of all bytes held.
#[verifier::external_body]
fn bytes_mut_as_slice(b: &bytes::BytesMut) -> (s: &[u8])
    ensures
        s@ == bytes_mut_seq(*b),
{
    b.as_ref()
}

/// Relies on `Bytes::split_off`: afterwards `b` holds the bytes before `at`
/// and the result holds the bytes from `at` on; it panics if `at` exceeds the
/// length, which the precondition rules out.
#[verifier::external_body]
fn bytes_split_off(b: &mut bytes::Bytes, at: usize) -> (tail: bytes::Bytes)
    requires
        at <= bytes_seq(*old(b)).len(),
    ensures
        bytes_seq(*final(b)) == bytes_seq(*old(b)).take(at as int),
        bytes_seq(tail) == bytes_seq(*old(b)).skip(at as int),
{
    b.split_off(at)
}

/// Relies on `BytesMut::split_off`: for `at` within the length, afterwards
/// `b` holds the bytes before `at` and the result holds the bytes from `at`
/// on; it panics only past the capacity, which the precondition rules out.
#[verifier::external_body]
fn bytes_mut_split_off(b: &mut bytes::BytesMut, at: usize) -> (tail: bytes::BytesMut)
    requires
        at <= bytes_mut_seq(*old(b)).len(),
    ensures
        bytes_mut_seq(*final(b)) == bytes_mut_seq(*old(b)).take(at as int),
        bytes_mut_seq(tail) == bytes_mut_seq(*old(b)).skip(at as int),
{
    b.split_off(at)
}

/// Relies on `Bytes::try_into_mut`: either way the contents are unchanged;
/// `Ok` reuses the storage when it is uniquely owned.
#[verifier::external_body]
fn bytes_try_into_mut(b: bytes::Bytes) -> (r: Result<bytes::BytesMut, bytes::Bytes>)
    ensures
        match r {
            Ok(m) => bytes_mut_seq(m) == bytes_seq(b),
            Err(e) => bytes_seq(e) == bytes_seq(b),
        },
{
    b.try_into_mut()
}

/// Relies on `<Bytes as Clone>::clone`: a shared handle to the same bytes.
#[verifier::external_body]
fn bytes_clone(b: &bytes::Bytes) -> (r: bytes::Bytes)
    ensures
        bytes_seq(r) == bytes_seq(*b),
{
    b.clone()
}

/// Relies on `BytesMut::clear`: afterwards the buffer is empty.
#[verifier::external_body]
fn bytes_mut_clear(b: &mut bytes::BytesMut)
    ensures
        bytes_mut_seq(*final(b)) == Seq::<u8>::empty(),
{
    b.clear()
}

/// Relies on `BytesMut::extend_from_slice`: the slice's bytes are appended.
#[verifier::external_body]
fn bytes_mut_extend(b: &mut bytes::BytesMut, data: &[u8])
    ensures
        bytes_mut_seq(*final(b)) == bytes_mut_seq(*old(b)) + data@,
{
    b.extend_from_slice(data)
}

/// A byte buffer that is either a shared immutable view or an exclusively
/// owned mutable buffer.
#[derive(Debug)]
pub enum WireData {
    Const(bytes::Bytes),
    Mut(bytes::BytesMut),
}

impl View for WireData {
    type V = Seq<u8>;

    open spec fn view(&self) -> Seq<u8> {
        match self {
            WireData::Const(b) => bytes_seq(*b),
            WireData::Mut(b) => bytes_mut_seq(*b),
        }
    }
}

impl WireData {
    /// True of the owned, mutable state; writes require it.
    pub open spec fn is_owned(&self) -> bool {
        self is Mut
    }

    /// A shared immutable buffer over the given bytes.
    pub fn new(data: Vec<u8>) -> (r: Self)
        ensures
            r@ == data@,
            !r.is_owned(),
    {
        WireData::Const(bytes_from_vec(data))
    }

    /// An owned mutable buffer holding a copy of the given bytes.
    pub fn new_mut(data: Vec<u8>) -> (r: Self)
        ensures
            r@ == data@,
            r.is_owned(),
    {
        WireData::Mut(bytes_mut_from_slice(data.as_slice()))
    }

    pub fn len(&self) -> (n: usize)
        ensures
            n == self@.len(),
    {
        self.as_slice().len()
    }

    pub fn is_empty(&self) -> (r: bool)
        ensures
            r == (self@.len() == 0),
    {
        self.len() == 0
    }

    /// All bytes held, in order.
    pub fn as_slice(&self) -> (s: &[u8])
        ensures
            s@ == self@,
    {
        match self {
            WireData::Const(b) => bytes_as_slice(b),
            WireData::Mut(b) => bytes_mut_as_slice(b),
        }
    }

    /// Splits at `at`: afterwards `self` holds the bytes before `at` and the
    /// result holds the rest. The buffer mode is kept, so splitting a shared
    /// buffer copies nothing.
    pub fn split_off(&mut self, at: usize) -> (tail: Self)
        requires
            at <= old(self)@.len(),
        ensures
            final(self)@ == old(self)@.take(at as int),
            tail@ == old(self)@.skip(at as int),
            final(self).is_owned() == old(self).is_owned(),
            tail.is_owned() == old(self).is_owned(),
    {
        let mut tmp = WireData::Mut(bytes_mut_new());
        core::mem::swap(self, &mut tmp);
        match tmp {
            WireData::Const(mut b) => {
                let tail = bytes_split_off(&mut b, at);
                *self = WireData::Const(b);
                WireData::Const(tail)
            },
            WireData::Mut(mut b) => {
                let tail = bytes_mut_split_off(&mut b, at);
                *self = WireData::Mut(b);
                WireData::Mut(tail)
            },
        }
    }

    /// Promotes to the owned state for overwriting: a shared buffer is
    /// replaced by a fresh empty owned one (nothing is copied), while an
    /// already owned buffer keeps its contents.
    pub fn get_mut_or_default(&mut self)
        ensures
            final(self).is_owned(),
            final(self)@ == if old(self).is_owned() {
                old(self)@
            } else {
                Seq::<u8>::empty()
            },
    {
        if !self.is_owned_probe() {
            *self = WireData::Mut(bytes_mut_new());
        }
    }

    /// Promotes to the owned state, preserving the contents: unique storage
    /// is reused, shared storage is copied.
    pub fn get_mut(&mut self)
        ensures
            final(self).is_owned(),
            final(self)@ == old(self)@,
    {
        let mut tmp = WireData::Mut(bytes_mut_new());
        core::mem::swap(self, &mut tmp);
        match tmp {
            WireData::Const(b) => {
                match bytes_try_into_mut(b) {
                    Ok(m) => {
                        *self = WireData::Mut(m);
                    },
                    Err(still_shared) => {
                        let s = bytes_as_slice(&still_shared);
                        let mut m = bytes_mut_with_capacity(s.len());
                        bytes_mut_extend(&mut m, s);
                        *self = WireData::Mut(m);
                    },
                }
            },
            WireData::Mut(m) => {
                *self = WireData::Mut(m);
            },
        }
    }

    /// `get_mut`, consuming the buffer.
    pub fn into_mut(self) -> (r: Self)
        ensures
            r.is_owned(),
            r@ == self@,
    {
        let mut data = self;
        data.get_mut();
        data
    }

    /// Empties the buffer; it must already be owned.
    pub fn clear(&mut self)
        requires
            old(self).is_owned(),
        ensures
            final(self).is_owned(),
            final(self)@ == Seq::<u8>::empty(),
    {
        match self {
            WireData::Mut(b) => bytes_mut_clear(b),
            WireData::Const(_) => {
            },
        }
    }

    /// Appends the slice's bytes; the buffer must already be owned.
    pub fn extend_from_slice(&mut self, data: &[u8])
        requires
            old(self).is_owned(),
        ensures
            final(self).is_owned(),
            final(self)@ == old(self)@ + data@,
    {
        match self {
            WireData::Mut(b) => bytes_mut_extend(b, data),
            WireData::Const(_) => {
            },
        }
    }

    fn is_owned_probe(&self) -> (r: bool)
        ensures
            r == self.is_owned(),
    {
        match self {
            WireData::Mut(_) => true,
            WireData::Const(_) => false,
        }
    }
}

impl Clone for WireData {
    /// The clone holds the same bytes in the same mode; cloning a shared
    /// buffer shares its storage.
    fn clone(&self) -> (r: Self)
        ensures
            r@ == self@,
            r.is_owned() == self.is_owned(),
    {
        match self {
            WireData::Const(b) => WireData::Const(bytes_clone(b)),
            WireData::Mut(b) => WireData::Mut(bytes_mut_from_slice(bytes_mut_as_slice(b))),
        }
    }
}

} // verus!
