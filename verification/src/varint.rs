//! The base-128 variable-length integer.
//!
//! A `Varint` owns the one to ten wire bytes of one varint. Every byte but
//! the last carries seven payload bits and a set continuation bit; the last
//! byte's continuation bit is clear. Signed views (two's complement and
//! zigzag) reinterpret the same 64 payload bits.

use vstd::prelude::*;
use vstd::arithmetic::div_mod::{
    lemma_add_mod_noop, lemma_mul_mod_noop_right, lemma_small_mod,
    lemma_fundamental_div_mod_converse,
};
use vstd::slice::slice_subrange;

use crate::model::{
    cont, decode_nat, decode_u64, encode_padded, encode_u64, first_clear, last_nonzero,
    lemma_encode_wf, lemma_first_clear, lemma_last_nonzero_located, lemma_parse_varint_ok,
    lemma_trim_encode, parse_varint,
    trim_raw, u64_bound, wf_varint, zigzag_dec32, zigzag_dec64, zigzag_enc32, zigzag_enc64,
};
use crate::wire_data::WireData;
use crate::ParseError;

verus! {

/// A varint and the buffer holding its wire bytes.
#[derive(Debug)]
pub struct Varint(pub WireData);

impl View for Varint {
    type V = Seq<u8>;

    open spec fn view(&self) -> Seq<u8> {
        self.0@
    }
}

impl Varint {
    /// The wire bytes form one well-formed varint.
    pub open spec fn wf(&self) -> bool {
        wf_varint(self@)
    }

    /// The unsigned 64-bit value the wire bytes carry.
    pub open spec fn value(&self) -> u64 {
        decode_u64(self@)
    }

    /// A varint holding the minimal encoding of `value`.
    pub fn new(value: u64) -> (r: Self)
        ensures
            r@ == encode_u64(value),
            r.wf(),
            r.value() == value,
    {
        let mut result = Varint(WireData::new_mut(Vec::new()));
        result.set(value);
        result
    }

    /// A varint carrying `value` sign-extended to 64 bits, as the wire format
    /// asks of `int64`.
    pub fn new_proto_int64(value: i64) -> (r: Self)
        ensures
            r@ == encode_u64(value as u64),
            r.wf(),
    {
        Self::new(#[verifier::truncate] (value as u64))
    }

    /// A varint carrying `value`'s 32 bits zero-extended, as the wire format
    /// asks of `int32` in this carrier.
    pub fn new_proto_int32(value: i32) -> (r: Self)
        ensures
            r@ == encode_u64((value as u32) as u64),
            r.wf(),
    {
        Self::new((#[verifier::truncate] (value as u32)) as u64)
    }

    /// A varint carrying the zigzag image of `value`.
    pub fn new_proto_sint64(value: i64) -> (r: Self)
        ensures
            r@ == encode_u64(zigzag_enc64(value)),
            r.wf(),
    {
        let mut result = Varint(WireData::new_mut(Vec::new()));
        result.set_proto_sint64(value);
        result
    }

    /// A varint carrying the 32-bit zigzag image of `value`.
    pub fn new_proto_sint32(value: i32) -> (r: Self)
        ensures
            r@ == encode_u64(zigzag_enc32(value) as u64),
            r.wf(),
    {
        let mut result = Varint(WireData::new_mut(Vec::new()));
        result.set_proto_sint32(value);
        result
    }

    /// Splits the leading varint off `data`: the bytes up to and including
    /// the first one without a continuation bit, capped at ten. Fails with
    /// `MissingTerminator` when no byte terminates and with `VarintTooLong`
    /// when the terminator sits past the tenth byte.
    pub fn from(data: WireData) -> (r: Result<(Self, WireData), ParseError>)
        ensures
            match r {
                Ok(p) => {
                    &&& parse_varint(data@) == Ok::<_, ParseError>((p.0@, p.1@))
                    &&& p.0.wf()
                    &&& data@ == p.0@ + p.1@
                },
                Err(e) => parse_varint(data@) is Err && e == parse_varint(data@)->Err_0,
            },
    {
        proof {
            lemma_parse_varint_ok(data@);
            lemma_first_clear(data@);
        }
        let idx = match find_terminator(data.as_slice()) {
            Some(i) => i,
            None => {
                return Err(ParseError::MissingTerminator);
            },
        };
        if idx >= 10 {
            return Err(ParseError::VarintTooLong);
        }
        let mut data = data;
        let remainder = data.split_off(idx + 1);
        Ok((Varint(data), remainder))
    }

    /// The unsigned value of the payload bits, low groups first; bits past
    /// the sixty-fourth are discarded. Continuation bits are ignored, so this
    /// reads garbage harmlessly, but it is meaningful only on well-formed
    /// varint bytes.
    pub fn get(&self) -> (r: u64)
        ensures
            r == self.value(),
    {
        let s = self.0.as_slice();
        proof {
            assert(s@.skip(0) =~= self@);
        }
        decode_from(s, 0)
    }

    /// Re-encodes the varint to hold `value`, minimally.
    pub fn set(&mut self, value: u64)
        ensures
            final(self)@ == encode_u64(value),
            final(self).wf(),
            final(self).value() == value,
    {
        let raw = Self::encode(value);
        proof {
            lemma_trim_encode(value);
            lemma_encode_wf(value);
        }
        self.set_raw(raw);
    }

    /// The low 32 payload bits reinterpreted as two's-complement signed.
    pub fn as_proto_int32(&self) -> (r: i32)
        ensures
            r == (self.value() as u32) as i32,
    {
        let value = self.get();
        #[verifier::truncate] ((#[verifier::truncate] (value as u32)) as i32)
    }

    /// Stores `value` as `new_proto_int32` does.
    pub fn set_proto_int32(&mut self, value: i32)
        ensures
            final(self)@ == encode_u64((value as u32) as u64),
            final(self).wf(),
    {
        self.set((#[verifier::truncate] (value as u32)) as u64)
    }

    /// All 64 payload bits reinterpreted as two's-complement signed.
    pub fn as_proto_int64(&self) -> (r: i64)
        ensures
            r == self.value() as i64,
    {
        #[verifier::truncate] (self.get() as i64)
    }

    /// Stores `value` as `new_proto_int64` does.
    pub fn set_proto_int64(&mut self, value: i64)
        ensures
            final(self)@ == encode_u64(value as u64),
            final(self).wf(),
    {
        self.set(#[verifier::truncate] (value as u64))
    }

    /// The zigzag-signed view of the low 32 payload bits.
    pub fn as_proto_sint32(&self) -> (r: i32)
        ensures
            r == zigzag_dec32(self.value() as u32),
    {
        let w = #[verifier::truncate] (self.get() as u32);
        let half = w / 2;
        let vhalf: i32 = if w < 0x8000_0000 {
            half as i32
        } else {
            (half as i32) - 0x4000_0000 - 0x4000_0000
        };
        if w % 2 == 0 {
            vhalf
        } else {
            -vhalf - 1
        }
    }

    /// Stores the zigzag image of `value`.
    pub fn set_proto_sint32(&mut self, value: i32)
        ensures
            final(self)@ == encode_u64(zigzag_enc32(value) as u64),
            final(self).wf(),
    {
        let z: u32 = if value >= 0 {
            (value as u32) * 2
        } else {
            ((-(value + 1)) as u32) * 2 + 1
        };
        self.set(z as u64)
    }

    /// The zigzag-signed view of all 64 payload bits.
    pub fn as_proto_sint64(&self) -> (r: i64)
        ensures
            r == zigzag_dec64(self.value()),
    {
        let u = self.get();
        let half = u / 2;
        let vhalf: i64 = if u < 0x8000_0000_0000_0000 {
            half as i64
        } else {
            (half as i64) - 0x4000_0000_0000_0000 - 0x4000_0000_0000_0000
        };
        if u % 2 == 0 {
            vhalf
        } else {
            -vhalf - 1
        }
    }

    /// Stores the zigzag image of `value`.
    pub fn set_proto_sint64(&mut self, value: i64)
        ensures
            final(self)@ == encode_u64(zigzag_enc64(value)),
            final(self).wf(),
    {
        let z: u64 = if value >= 0 {
            (value as u64) * 2
        } else {
            ((-(value + 1)) as u64) * 2 + 1
        };
        self.set(z)
    }

    /// Replaces the wire bytes with `varint_bytes` trimmed at its last
    /// nonzero byte, forcing the continuation bit on every byte before it.
    /// The byte kept last must have its continuation bit clear, or the
    /// result would not be a varint.
    pub fn set_raw(&mut self, varint_bytes: [u8; 10])
        requires
            !cont(varint_bytes@[last_nonzero(varint_bytes@)]),
        ensures
            final(self)@ == trim_raw(varint_bytes@),
            final(self).wf(),
    {
        let mut raw = varint_bytes;
        let mut last_index: usize = 9;
        while last_index > 0 && raw[last_index] == 0
            invariant
                last_index <= 9,
                raw == varint_bytes,
                forall|j: int| last_index < j < 10 ==> varint_bytes@[j] == 0,
            decreases last_index,
        {
            last_index -= 1;
        }
        proof {
            lemma_last_nonzero_located(varint_bytes@, last_index as int);
        }
        let mut j: usize = 0;
        while j < last_index
            invariant
                j <= last_index <= 9,
                raw@.len() == 10,
                forall|i: int| 0 <= i < j ==> raw@[i] == (128 + varint_bytes@[i] % 128) as u8,
                forall|i: int| j <= i < 10 ==> raw@[i] == varint_bytes@[i],
            decreases last_index - j,
        {
            raw[j] = raw[j] % 128 + 128;
            j += 1;
        }
        self.0.get_mut_or_default();
        self.0.clear();
        let len = last_index + 1;
        self.0.extend_from_slice(slice_subrange(raw.as_slice(), 0, len));
        proof {
            assert(self@ =~= trim_raw(varint_bytes@));
        }
    }

    /// The minimal encoding of `value` followed by zero bytes, ten in all.
    pub fn encode(value: u64) -> (r: [u8; 10])
        ensures
            r@ == encode_padded(value),
    {
        proof {
            lemma_encode_wf(value);
        }
        let mut buf = [0u8; 10];
        let mut v = value;
        let mut i: usize = 0;
        while v >= 128
            invariant
                i + encode_u64(v).len() == encode_u64(value).len() <= 10,
                encode_u64(value) == buf@.take(i as int) + encode_u64(v),
                buf@.len() == 10,
                forall|j: int| i <= j < 10 ==> buf@[j] == 0,
            decreases v,
        {
            proof {
                vstd::arithmetic::div_mod::lemma_div_is_strictly_smaller(v as int, 128);
                assert(encode_u64(v) == seq![(128 + v % 128) as u8] + encode_u64((v / 128) as u64));
            }
            let ghost old_buf = buf@;
            let ghost old_v = v;
            let ghost old_i = i as int;
            buf[i] = (v % 128 + 128) as u8;
            v = v / 128;
            i += 1;
            proof {
                assert(buf@.take(i as int) =~= old_buf.take(old_i) + seq![
                    (128 + old_v % 128) as u8,
                ]);
                assert(encode_u64(value) == buf@.take(i as int) + encode_u64(v));
            }
        }
        buf[i] = v as u8;
        proof {
            assert(encode_u64(v) =~= seq![v as u8]);
            assert(buf@.take(i as int + 1) =~= encode_u64(value));
            assert(buf@ =~= encode_padded(value));
        }
        buf
    }

    /// `encode` of the 32 bits of `value`, zero-extended.
    pub fn encode_int32(value: i32) -> (r: [u8; 10])
        ensures
            r@ == encode_padded((value as u32) as u64),
    {
        Self::encode((#[verifier::truncate] (value as u32)) as u64)
    }

    /// `encode` of the 64 bits of `value`.
    pub fn encode_int64(value: i64) -> (r: [u8; 10])
        ensures
            r@ == encode_padded(value as u64),
    {
        Self::encode(#[verifier::truncate] (value as u64))
    }

    /// `encode` of the 32-bit zigzag image of `value`.
    pub fn encode_sint32(value: i32) -> (r: [u8; 10])
        ensures
            r@ == encode_padded(zigzag_enc32(value) as u64),
    {
        let z: u32 = if value >= 0 {
            (value as u32) * 2
        } else {
            ((-(value + 1)) as u32) * 2 + 1
        };
        Self::encode(z as u64)
    }

    /// `encode` of the zigzag image of `value`.
    pub fn encode_sint64(value: i64) -> (r: [u8; 10])
        ensures
            r@ == encode_padded(zigzag_enc64(value)),
    {
        let z: u64 = if value >= 0 {
            (value as u64) * 2
        } else {
            ((-(value + 1)) as u64) * 2 + 1
        };
        Self::encode(z)
    }
}

impl Default for Varint {
    /// The varint holding zero: one zero byte.
    fn default() -> (r: Self)
        ensures
            r@ == encode_u64(0),
            r.wf(),
            r.value() == 0,
    {
        Self::new(0)
    }
}

/// The index of the first byte without a continuation bit, if any.
fn find_terminator(s: &[u8]) -> (r: Option<usize>)
    ensures
        match r {
            Some(i) => i == first_clear(s@) && i < s@.len(),
            None => first_clear(s@) >= s@.len(),
        },
{
    proof {
        lemma_first_clear(s@);
    }
    let n = s.len();
    let mut i: usize = 0;
    while i < n
        invariant
            i <= n == s@.len(),
            forall|j: int| 0 <= j < i ==> cont(#[trigger] s@[j]),
        decreases n - i,
    {
        if s[i] < 128 {
            proof {
                crate::model::lemma_first_clear_is(s@, i as int);
            }
            return Some(i);
        }
        i += 1;
    }
    None
}

/// The value of the payload bits of `s` from index `i` on, low groups first,
/// truncated to 64 bits.
fn decode_from(s: &[u8], i: usize) -> (r: u64)
    requires
        i <= s@.len(),
    ensures
        r == decode_u64(s@.skip(i as int)),
    decreases s@.len() - i,
{
    if i == s.len() {
        proof {
            assert(s@.skip(i as int) =~= Seq::<u8>::empty());
            lemma_small_mod(0, u64_bound());
        }
        0
    } else {
        let rest = decode_from(s, i + 1);
        let p = s[i] % 128;
        let shifted = rest.wrapping_mul(128);
        let r = shifted.wrapping_add(p as u64);
        proof {
            let t = s@.skip(i as int);
            assert(t.skip(1) =~= s@.skip(i as int + 1));
            let dn = decode_nat(t.skip(1)) as int;
            let m = u64_bound() as int;
            assert(decode_nat(t) == (p as int) + 128 * dn);
            // rest == dn % m; shifted == (128 * dn) % m.
            lemma_mul_mod_noop_right(128, dn, m);
            // r == (shifted + p) % m == (128 * dn + p) % m == decode_nat(t) % m.
            assert(r == (shifted as int + p as int) % m) by {
                if shifted as int + p as int >= m {
                    lemma_fundamental_div_mod_converse(
                        shifted as int + p as int,
                        m,
                        1,
                        shifted as int + p as int - m,
                    );
                } else {
                    lemma_small_mod((shifted + p) as nat, u64_bound());
                }
            }
            lemma_add_mod_noop(128 * dn, p as int, m);
            lemma_small_mod(p as nat, u64_bound());
        }
        r
    }
}


/// Decoding inverts encoding over the whole unsigned 64-bit range, and the
/// encoding is minimal: no shorter well-formed varint decodes to the same
/// value.
pub proof fn lemma_varint_round_trip(u: u64)
    ensures
        decode_u64(encode_u64(u)) == u,
        wf_varint(encode_u64(u)),
        forall|s: Seq<u8>|
            wf_varint(s) && decode_u64(s) == u ==> s.len() >= encode_u64(u).len(),
{
    lemma_encode_wf(u);
    assert forall|s: Seq<u8>|
        wf_varint(s) && decode_u64(s) == u implies s.len() >= encode_u64(u).len() by {
        if s.len() < encode_u64(u).len() {
            crate::model::lemma_encode_minimal(u, s);
        }
    }
}

/// The zigzag views invert the zigzag setters through the varint codec, for
/// every signed value whose zigzag image stays below 2^63. On larger images
/// the view halves with an arithmetic shift that keeps the sign bit, so the
/// round trip does not extend past that bound.
pub proof fn lemma_sint64_round_trip(s: i64)
    requires
        -0x4000_0000_0000_0000 <= s < 0x4000_0000_0000_0000,
    ensures
        zigzag_dec64(decode_u64(encode_u64(zigzag_enc64(s)))) == s,
{
    lemma_encode_wf(zigzag_enc64(s));
}

/// The 32-bit zigzag round trip, for every value whose zigzag image stays
/// below 2^31.
pub proof fn lemma_sint32_round_trip(s: i32)
    requires
        -0x4000_0000 <= s < 0x4000_0000,
    ensures
        zigzag_dec32(decode_u64(encode_u64(zigzag_enc32(s) as u64)) as u32) == s,
{
    lemma_encode_wf(zigzag_enc32(s) as u64);
}

} // verus!
