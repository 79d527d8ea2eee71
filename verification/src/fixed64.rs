//! The eight-byte little-endian carrier (wire type 1).

use vstd::prelude::*;

use crate::model::{le_bytes, le_nat, lemma_le_round_trip, pow256};
use crate::wire_data::WireData;
use crate::ParseError;

verus! {

/// Eight little-endian bytes, readable as a signed 64-bit integer or, by the
/// caller, as an IEEE-754 double-precision float over the same bits.
#[derive(Debug)]
pub struct I64(pub WireData);

impl View for I64 {
    type V = Seq<u8>;

    open spec fn view(&self) -> Seq<u8> {
        self.0@
    }
}

impl I64 {
    /// The carrier holds exactly eight bytes.
    pub open spec fn wf(&self) -> bool {
        self@.len() == 8
    }

    /// The 64 bits the bytes carry, little-endian.
    pub open spec fn bits(&self) -> u64 {
        le_nat(self@) as u64
    }

    /// The bits reinterpreted as two's-complement signed.
    pub open spec fn value(&self) -> i64 {
        self.bits() as i64
    }

    /// A carrier holding the eight little-endian bytes of `value`.
    pub fn new(value: i64) -> (r: Self)
        ensures
            r@ == le_bytes((value as u64) as nat, 8),
            r.wf(),
            r.value() == value,
    {
        let mut result = I64(WireData::new_mut(Vec::new()));
        result.set(value);
        result
    }

    /// Splits the first eight bytes off `data` as the carrier; fails with
    /// `InsufficientBytes` exactly when fewer than eight remain.
    pub fn from(data: WireData) -> (r: Result<(Self, WireData), ParseError>)
        ensures
            match r {
                Ok(p) => {
                    &&& data@.len() >= 8
                    &&& p.0@ == data@.take(8)
                    &&& p.1@ == data@.skip(8)
                    &&& p.0.wf()
                },
                Err(e) => data@.len() < 8 && e == ParseError::InsufficientBytes,
            },
    {
        if data.len() < 8 {
            Err(ParseError::InsufficientBytes)
        } else {
            let mut data = data;
            let remainder = data.split_off(8);
            Ok((I64(data), remainder))
        }
    }

    /// The signed 64-bit view of the bytes.
    pub fn get(&self) -> (r: i64)
        requires
            self.wf(),
        ensures
            r == self.value(),
    {
        let s = self.0.as_slice();
        let b0 = s[0] as u64;
        let b1 = s[1] as u64;
        let b2 = s[2] as u64;
        let b3 = s[3] as u64;
        let b4 = s[4] as u64;
        let b5 = s[5] as u64;
        let b6 = s[6] as u64;
        let b7 = s[7] as u64;
        let u = b0 + 256 * (b1 + 256 * (b2 + 256 * (b3 + 256 * (b4 + 256 * (b5 + 256 * (b6
            + 256 * b7))))));
        proof {
            reveal_with_fuel(le_nat, 9);
            assert(self@.skip(1).skip(1) =~= self@.skip(2));
            assert(self@.skip(2).skip(1) =~= self@.skip(3));
            assert(self@.skip(3).skip(1) =~= self@.skip(4));
            assert(self@.skip(4).skip(1) =~= self@.skip(5));
            assert(self@.skip(5).skip(1) =~= self@.skip(6));
            assert(self@.skip(6).skip(1) =~= self@.skip(7));
            assert(self@.skip(7).skip(1) =~= self@.skip(8));
            assert(self@.skip(8) =~= Seq::<u8>::empty());
        }
        #[verifier::truncate] (u as i64)
    }

    /// Stores the eight little-endian bytes of `value`.
    pub fn set(&mut self, value: i64)
        ensures
            final(self)@ == le_bytes((value as u64) as nat, 8),
            final(self).wf(),
            final(self).value() == value,
    {
        let u = #[verifier::truncate] (value as u64);
        let b0 = (u % 256) as u8;
        let u1 = u / 256;
        let b1 = (u1 % 256) as u8;
        let u2 = u1 / 256;
        let b2 = (u2 % 256) as u8;
        let u3 = u2 / 256;
        let b3 = (u3 % 256) as u8;
        let u4 = u3 / 256;
        let b4 = (u4 % 256) as u8;
        let u5 = u4 / 256;
        let b5 = (u5 % 256) as u8;
        let u6 = u5 / 256;
        let b6 = (u6 % 256) as u8;
        let u7 = u6 / 256;
        let b7 = (u7 % 256) as u8;
        let arr = [b0, b1, b2, b3, b4, b5, b6, b7];
        self.0.get_mut_or_default();
        self.0.clear();
        self.0.extend_from_slice(arr.as_slice());
        proof {
            reveal_with_fuel(le_bytes, 9);
            assert(self@ =~= le_bytes((value as u64) as nat, 8));
            assert((u as nat) < pow256(8)) by {
                reveal_with_fuel(pow256, 9);
            }
            lemma_le_round_trip(u as nat, 8);
            assert((value as u64) as i64 == value) by (bit_vector);
        }
    }
}

impl Default for I64 {
    /// The zero carrier: eight zero bytes.
    fn default() -> (r: Self)
        ensures
            r.wf(),
            r.value() == 0,
    {
        Self::new(0)
    }
}

} // verus!
