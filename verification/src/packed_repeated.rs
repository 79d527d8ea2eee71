//! Packed repeated scalars: a buffer of back-to-back elements with no tags.
//!
//! Three homogeneous carriers — varints, eight-byte values, four-byte
//! values — each a buffer that `push` appends to and an iterator splits one
//! element at a time. No element count is stored; the elements are exactly
//! what the bytes hold.

use vstd::prelude::*;

use crate::fixed32::I32;
use crate::fixed64::I64;
use crate::model::parse_varint;
use crate::varint::Varint;
use crate::wire_data::WireData;

verus! {

/// A packed buffer of varints.
pub struct PackedRepeatedVarint(pub WireData);

impl View for PackedRepeatedVarint {
    type V = Seq<u8>;

    open spec fn view(&self) -> Seq<u8> {
        self.0@
    }
}

impl PackedRepeatedVarint {
    /// An empty packed buffer.
    pub fn new() -> (r: Self)
        ensures
            r@.len() == 0,
    {
        PackedRepeatedVarint(WireData::new_mut(Vec::new()))
    }

    /// An empty packed buffer with room reserved.
    pub fn with_capacity(capacity: usize) -> (r: Self)
        ensures
            r@.len() == 0,
    {
        let _ = capacity;
        Self::new()
    }

    /// Appends the element's wire bytes.
    pub fn push(&mut self, value: Varint)
        ensures
            final(self)@ == old(self)@ + value@,
    {
        self.0.get_mut();
        self.0.extend_from_slice(value.0.as_slice());
    }

    /// An iterator over the packed elements, in buffer order.
    pub fn into_iter(self) -> (r: PackedRepeatedVarintIter)
        ensures
            r@ == self@,
    {
        PackedRepeatedVarintIter(self)
    }
}

impl Default for PackedRepeatedVarint {
    /// The empty packed buffer.
    fn default() -> (r: Self)
        ensures
            r@.len() == 0,
    {
        Self::new()
    }
}

/// An iterator over a packed varint buffer.
pub struct PackedRepeatedVarintIter(pub PackedRepeatedVarint);

impl View for PackedRepeatedVarintIter {
    type V = Seq<u8>;

    open spec fn view(&self) -> Seq<u8> {
        self.0@
    }
}

impl PackedRepeatedVarintIter {
    /// The next varint, split off the front. Ends at the end of the buffer;
    /// a parse failure also ends iteration, dropping the remainder.
    pub fn next(&mut self) -> (r: Option<Varint>)
        ensures
            match r {
                Some(v) => {
                    &&& parse_varint(old(self)@) matches Ok(p)
                    &&& v@ == p.0
                    &&& final(self)@ == p.1
                    &&& v.wf()
                },
                None => {
                    ||| (old(self)@.len() == 0 && final(self)@ == old(self)@)
                    ||| (old(self)@.len() > 0 && parse_varint(old(self)@) is Err
                        && final(self)@.len() == 0)
                },
            },
    {
        if self.0 .0.is_empty() {
            return None;
        }
        let mut data = WireData::new(Vec::new());
        core::mem::swap(&mut self.0 .0, &mut data);
        match Varint::from(data) {
            Ok((value, remainder)) => {
                self.0 .0 = remainder;
                Some(value)
            },
            Err(_) => None,
        }
    }
}

/// A packed buffer of eight-byte little-endian values.
pub struct PackedRepeatedI64(pub WireData);

impl View for PackedRepeatedI64 {
    type V = Seq<u8>;

    open spec fn view(&self) -> Seq<u8> {
        self.0@
    }
}

impl PackedRepeatedI64 {
    /// An empty packed buffer.
    pub fn new() -> (r: Self)
        ensures
            r@.len() == 0,
    {
        PackedRepeatedI64(WireData::new_mut(Vec::new()))
    }

    /// An empty packed buffer with room reserved.
    pub fn with_capacity(capacity: usize) -> (r: Self)
        ensures
            r@.len() == 0,
    {
        let _ = capacity;
        Self::new()
    }

    /// Appends the element's eight wire bytes.
    pub fn push(&mut self, value: I64)
        ensures
            final(self)@ == old(self)@ + value@,
    {
        self.0.get_mut();
        self.0.extend_from_slice(value.0.as_slice());
    }

    /// An iterator over the packed elements, in buffer order.
    pub fn into_iter(self) -> (r: PackedRepeatedI64Iter)
        ensures
            r@ == self@,
    {
        PackedRepeatedI64Iter(self)
    }
}

impl Default for PackedRepeatedI64 {
    /// The empty packed buffer.
    fn default() -> (r: Self)
        ensures
            r@.len() == 0,
    {
        Self::new()
    }
}

/// An iterator over a packed buffer of eight-byte values.
pub struct PackedRepeatedI64Iter(pub PackedRepeatedI64);

impl View for PackedRepeatedI64Iter {
    type V = Seq<u8>;

    open spec fn view(&self) -> Seq<u8> {
        self.0@
    }
}

impl PackedRepeatedI64Iter {
    /// The next eight-byte value, split off the front. Ends at the end of
    /// the buffer; fewer than eight remaining bytes also end iteration,
    /// dropping them.
    pub fn next(&mut self) -> (r: Option<I64>)
        ensures
            match r {
                Some(v) => {
                    &&& old(self)@.len() >= 8
                    &&& v@ == old(self)@.take(8)
                    &&& final(self)@ == old(self)@.skip(8)
                    &&& v.wf()
                },
                None => {
                    ||| (old(self)@.len() == 0 && final(self)@ == old(self)@)
                    ||| (0 < old(self)@.len() < 8 && final(self)@.len() == 0)
                },
            },
    {
        if self.0 .0.is_empty() {
            return None;
        }
        let mut data = WireData::new(Vec::new());
        core::mem::swap(&mut self.0 .0, &mut data);
        match I64::from(data) {
            Ok((value, remainder)) => {
                self.0 .0 = remainder;
                Some(value)
            },
            Err(_) => None,
        }
    }
}

/// A packed buffer of four-byte little-endian values.
pub struct PackedRepeatedI32(pub WireData);

impl View for PackedRepeatedI32 {
    type V = Seq<u8>;

    open spec fn view(&self) -> Seq<u8> {
        self.0@
    }
}

impl PackedRepeatedI32 {
    /// An empty packed buffer.
    pub fn new() -> (r: Self)
        ensures
            r@.len() == 0,
    {
        PackedRepeatedI32(WireData::new_mut(Vec::new()))
    }

    /// An empty packed buffer with room reserved.
    pub fn with_capacity(capacity: usize) -> (r: Self)
        ensures
            r@.len() == 0,
    {
        let _ = capacity;
        Self::new()
    }

    /// Appends the element's four wire bytes.
    pub fn push(&mut self, value: I32)
        ensures
            final(self)@ == old(self)@ + value@,
    {
        self.0.get_mut();
        self.0.extend_from_slice(value.0.as_slice());
    }

    /// An iterator over the packed elements, in buffer order.
    pub fn into_iter(self) -> (r: PackedRepeatedI32Iter)
        ensures
            r@ == self@,
    {
        PackedRepeatedI32Iter(self)
    }
}

impl Default for PackedRepeatedI32 {
    /// The empty packed buffer.
    fn default() -> (r: Self)
        ensures
            r@.len() == 0,
    {
        Self::new()
    }
}

/// An iterator over a packed buffer of four-byte values.
pub struct PackedRepeatedI32Iter(pub PackedRepeatedI32);

impl View for PackedRepeatedI32Iter {
    type V = Seq<u8>;

    open spec fn view(&self) -> Seq<u8> {
        self.0@
    }
}

impl PackedRepeatedI32Iter {
    /// The next four-byte value, split off the front. Ends at the end of
    /// the buffer; fewer than four remaining bytes also end iteration,
    /// dropping them.
    pub fn next(&mut self) -> (r: Option<I32>)
        ensures
            match r {
                Some(v) => {
                    &&& old(self)@.len() >= 4
                    &&& v@ == old(self)@.take(4)
                    &&& final(self)@ == old(self)@.skip(4)
                    &&& v.wf()
                },
                None => {
                    ||| (old(self)@.len() == 0 && final(self)@ == old(self)@)
                    ||| (0 < old(self)@.len() < 4 && final(self)@.len() == 0)
                },
            },
    {
        if self.0 .0.is_empty() {
            return None;
        }
        let mut data = WireData::new(Vec::new());
        core::mem::swap(&mut self.0 .0, &mut data);
        match I32::from(data) {
            Ok((value, remainder)) => {
                self.0 .0 = remainder;
                Some(value)
            },
            Err(_) => None,
        }
    }
}


/// The concatenation of the byte sequences from index `i` on.
pub open spec fn concat_seqs(es: Seq<Seq<u8>>, i: int) -> Seq<u8>
    decreases es.len() - i,
{
    if i < 0 || i >= es.len() {
        Seq::empty()
    } else {
        es[i] + concat_seqs(es, i + 1)
    }
}

/// The elements that iteration yields from a packed varint buffer: one
/// varint at a time, stopping at the end or at a parse failure. The guard
/// on the remainder is never false, since a parsed varint consumes at least
/// one byte.
pub open spec fn packed_varint_items(s: Seq<u8>) -> Seq<Seq<u8>>
    decreases s.len(),
{
    if s.len() == 0 {
        Seq::empty()
    } else {
        match parse_varint(s) {
            Ok((v, rem)) => if rem.len() < s.len() {
                seq![v] + packed_varint_items(rem)
            } else {
                Seq::empty()
            },
            Err(_) => Seq::empty(),
        }
    }
}

/// The packed varint round trip: a buffer holding well-formed varints back
/// to back yields exactly those varints, in order and in number.
pub proof fn lemma_packed_varint_round_trip(es: Seq<Seq<u8>>, i: int)
    requires
        0 <= i <= es.len(),
        forall|j: int| 0 <= j < es.len() ==> crate::model::wf_varint(#[trigger] es[j]),
    ensures
        packed_varint_items(concat_seqs(es, i)) == es.skip(i),
    decreases es.len() - i,
{
    if i == es.len() {
        assert(concat_seqs(es, i) =~= Seq::<u8>::empty());
        assert(es.skip(i) =~= Seq::<Seq<u8>>::empty());
    } else {
        let s = concat_seqs(es, i);
        assert(s =~= es[i] + concat_seqs(es, i + 1));
        crate::model::lemma_parse_varint_prefix(es[i], concat_seqs(es, i + 1));
        lemma_packed_varint_round_trip(es, i + 1);
        assert(seq![es[i]] + es.skip(i + 1) =~= es.skip(i));
    }
}

/// The elements that iteration yields from a packed buffer of fixed-width
/// values: `width` bytes at a time, stopping at the end or when fewer than
/// `width` bytes remain.
pub open spec fn packed_fixed_items(s: Seq<u8>, width: int) -> Seq<Seq<u8>>
    decreases s.len(),
{
    if width < 1 || s.len() < width {
        Seq::empty()
    } else {
        seq![s.take(width)] + packed_fixed_items(s.skip(width), width)
    }
}

/// The packed fixed-width round trip: a buffer holding `width`-byte values
/// back to back yields exactly those values, in order and in number.
pub proof fn lemma_packed_fixed_round_trip(es: Seq<Seq<u8>>, width: int, i: int)
    requires
        0 <= i <= es.len(),
        width >= 1,
        forall|j: int| 0 <= j < es.len() ==> (#[trigger] es[j]).len() == width,
    ensures
        packed_fixed_items(concat_seqs(es, i), width) == es.skip(i),
    decreases es.len() - i,
{
    if i == es.len() {
        assert(concat_seqs(es, i) =~= Seq::<u8>::empty());
        assert(es.skip(i) =~= Seq::<Seq<u8>>::empty());
    } else {
        let s = concat_seqs(es, i);
        assert(s =~= es[i] + concat_seqs(es, i + 1));
        assert(s.take(width) =~= es[i]);
        assert(s.skip(width) =~= concat_seqs(es, i + 1));
        lemma_packed_fixed_round_trip(es, width, i + 1);
        assert(seq![es[i]] + es.skip(i + 1) =~= es.skip(i));
    }
}

} // verus!
