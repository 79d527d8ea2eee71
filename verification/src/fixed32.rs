//! The four-byte little-endian carrier (wire type 5).

use vstd::prelude::*;

use crate::model::{le_bytes, le_nat, lemma_le_round_trip, pow256};
use crate::wire_data::WireData;
use crate::ParseError;

verus! {

/// Four little-endian bytes, readable as a signed 32-bit integer or, by the
/// caller, as an IEEE-754 single-precision float over the same bits.
#[derive(Debug)]
pub struct I32(pub WireData);

impl View for I32 {
    type V = Seq<u8>;

    open spec fn view(&self) -> Seq<u8> {
        self.0@
    }
}

impl I32 {
    /// The carrier holds exactly four bytes.
    pub open spec fn wf(&self) -> bool {
        self@.len() == 4
    }

    /// The 32 bits the bytes carry, little-endian.
    pub open spec fn bits(&self) -> u32 {
        le_nat(self@) as u32
    }

    /// The bits reinterpreted as two's-complement signed.
    pub open spec fn value(&self) -> i32 {
        self.bits() as i32
    }

    /// A carrier holding the four little-endian bytes of `value`.
    pub fn new(value: i32) -> (r: Self)
        ensures
            r@ == le_bytes((value as u32) as nat, 4),
            r.wf(),
            r.value() == value,
    {
        let mut result = I32(WireData::new_mut(Vec::new()));
        result.set(value);
        result
    }

    /// Splits the first four bytes off `data` as the carrier; fails with
    /// `InsufficientBytes` exactly when fewer than four remain.
    pub fn from(data: WireData) -> (r: Result<(Self, WireData), ParseError>)
        ensures
            match r {
                Ok(p) => {
                    &&& data@.len() >= 4
                    &&& p.0@ == data@.take(4)
                    &&& p.1@ == data@.skip(4)
                    &&& p.0.wf()
                },
                Err(e) => data@.len() < 4 && e == ParseError::InsufficientBytes,
            },
    {
        if data.len() < 4 {
            Err(ParseError::InsufficientBytes)
        } else {
            let mut data = data;
            let remainder = data.split_off(4);
            Ok((I32(data), remainder))
        }
    }

    /// The signed 32-bit view of the bytes.
    pub fn get(&self) -> (r: i32)
        requires
            self.wf(),
        ensures
            r == self.value(),
    {
        let s = self.0.as_slice();
        let b0 = s[0] as u32;
        let b1 = s[1] as u32;
        let b2 = s[2] as u32;
        let b3 = s[3] as u32;
        let u = b0 + 256 * (b1 + 256 * (b2 + 256 * b3));
        proof {
            reveal_with_fuel(le_nat, 5);
            assert(self@.skip(1).skip(1) =~= self@.skip(2));
            assert(self@.skip(2).skip(1) =~= self@.skip(3));
            assert(self@.skip(3).skip(1) =~= self@.skip(4));
            assert(self@.skip(4) =~= Seq::<u8>::empty());
        }
        #[verifier::truncate] (u as i32)
    }

    /// Stores the four little-endian bytes of `value`.
    pub fn set(&mut self, value: i32)
        ensures
            final(self)@ == le_bytes((value as u32) as nat, 4),
            final(self).wf(),
            final(self).value() == value,
    {
        let u = #[verifier::truncate] (value as u32);
        let b0 = (u % 256) as u8;
        let u1 = u / 256;
        let b1 = (u1 % 256) as u8;
        let u2 = u1 / 256;
        let b2 = (u2 % 256) as u8;
        let u3 = u2 / 256;
        let b3 = (u3 % 256) as u8;
        let arr = [b0, b1, b2, b3];
        self.0.get_mut_or_default();
        self.0.clear();
        self.0.extend_from_slice(arr.as_slice());
        proof {
            reveal_with_fuel(le_bytes, 5);
            assert(self@ =~= le_bytes((value as u32) as nat, 4));
            assert((u as nat) < pow256(4)) by {
                reveal_with_fuel(pow256, 5);
            }
            lemma_le_round_trip(u as nat, 4);
            assert((value as u32) as i32 == value) by (bit_vector);
        }
    }
}

impl Default for I32 {
    /// The zero carrier: four zero bytes.
    fn default() -> (r: Self)
        ensures
            r.wf(),
            r.value() == 0,
    {
        Self::new(0)
    }
}

} // verus!
