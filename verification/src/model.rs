//! The mathematical model of the wire format.
//!
//! Everything the executable types promise is stated over these spec
//! functions: base-128 varints, little-endian fixed-width values, and (further
//! down) the field grammar with its serializer and parser.

use vstd::prelude::*;
use vstd::arithmetic::div_mod::{
    lemma_add_mod_noop, lemma_mul_mod_noop_right, lemma_small_mod, lemma_div_is_strictly_smaller,
};
use vstd::arithmetic::mul::lemma_mul_inequality;

use crate::ParseError;
use crate::FieldFault;

verus! {

/// One past the largest value a `u64` holds.
pub open spec fn u64_bound() -> nat {
    0x1_0000_0000_0000_0000
}

/// True of a byte whose continuation bit is set: another varint byte follows.
pub open spec fn cont(b: u8) -> bool {
    b >= 128
}

/// A well-formed varint: one to ten bytes, every byte but the last with its
/// continuation bit set, the last with it clear.
pub open spec fn wf_varint(s: Seq<u8>) -> bool {
    &&& 1 <= s.len() <= 10
    &&& forall|i: int| 0 <= i < s.len() - 1 ==> cont(#[trigger] s[i])
    &&& !cont(s[s.len() - 1])
}

/// The number carried by a varint's payload bits: base-128, least significant
/// group first. Continuation bits are ignored, so this is total on all byte
/// sequences.
pub open spec fn decode_nat(s: Seq<u8>) -> nat
    decreases s.len(),
{
    if s.len() == 0 {
        0
    } else {
        (s[0] % 128) as nat + 128 * decode_nat(s.skip(1))
    }
}

/// The decoded value as a `u64`: payload bits beyond the sixty-fourth are
/// discarded.
pub open spec fn decode_u64(s: Seq<u8>) -> u64 {
    (decode_nat(s) % u64_bound()) as u64
}

/// The minimal varint encoding of a value.
pub open spec fn encode_u64(v: u64) -> Seq<u8>
    decreases v,
{
    if v < 128 {
        seq![v as u8]
    } else {
        seq![(128 + v % 128) as u8] + encode_u64((v / 128) as u64)
    }
}

/// 128 to the `n`th power.
pub open spec fn pow128(n: nat) -> nat
    decreases n,
{
    if n == 0 {
        1
    } else {
        128 * pow128((n - 1) as nat)
    }
}

/// The payload of a varint is bounded by 128 to its length.
pub proof fn lemma_decode_nat_bound(s: Seq<u8>)
    ensures
        decode_nat(s) < pow128(s.len()),
    decreases s.len(),
{
    if s.len() == 0 {
    } else {
        lemma_decode_nat_bound(s.skip(1));
        assert(s.skip(1).len() == s.len() - 1);
        lemma_mul_inequality(decode_nat(s.skip(1)) as int + 1, pow128((s.len() - 1) as nat) as int, 128);
    }
}

/// Decoding inverts encoding, with nothing lost: the encoded payload is the
/// value itself.
pub proof fn lemma_decode_of_encode(v: u64)
    ensures
        decode_nat(encode_u64(v)) == v,
    decreases v,
{
    if v < 128 {
        reveal_with_fuel(decode_nat, 2);
        assert(encode_u64(v) == seq![v as u8]);
        assert(encode_u64(v).skip(1) =~= Seq::<u8>::empty());
    } else {
        let rest = (v / 128) as u64;
        lemma_div_is_strictly_smaller(v as int, 128);
        lemma_decode_of_encode(rest);
        assert(encode_u64(v).skip(1) =~= encode_u64(rest));
        assert((128 + v % 128) % 128 == v % 128) by {
            lemma_add_mod_noop(128, v as int % 128, 128);
            vstd::arithmetic::div_mod::lemma_mod_twice(v as int, 128);
        }
        vstd::arithmetic::div_mod::lemma_fundamental_div_mod(v as int, 128);
    }
}

/// Values below 128 to the `n`th encode in at most `n` bytes.
pub proof fn lemma_encode_len_le(v: u64, n: nat)
    requires
        n >= 1,
        (v as nat) < pow128(n),
    ensures
        encode_u64(v).len() <= n,
    decreases v,
{
    if v < 128 {
    } else {
        let rest = (v / 128) as u64;
        lemma_div_is_strictly_smaller(v as int, 128);
        assert(n >= 2) by {
            if n == 1 {
                reveal_with_fuel(pow128, 2);
                assert(pow128(1) == 128);
            }
        }
        assert((rest as nat) < pow128((n - 1) as nat)) by {
            assert((v as nat) < 128 * pow128((n - 1) as nat));
            assert(v as int / 128 < pow128((n - 1) as nat)) by {
                if v as int / 128 >= pow128((n - 1) as nat) {
                    lemma_mul_inequality(pow128((n - 1) as nat) as int, v as int / 128, 128);
                    vstd::arithmetic::div_mod::lemma_fundamental_div_mod(v as int, 128);
                }
            }
        }
        lemma_encode_len_le(rest, (n - 1) as nat);
    }
}

/// An encoding is well formed: bounded length, continuation bits on every
/// byte but the last, terminator on the last.
pub proof fn lemma_encode_wf(v: u64)
    ensures
        wf_varint(encode_u64(v)),
        decode_u64(encode_u64(v)) == v,
    decreases v,
{
    assert((v as nat) < pow128(10)) by {
        reveal_with_fuel(pow128, 11);
        assert(pow128(10) == 0x40_0000_0000_0000_0000);
    }
    lemma_encode_len_le(v, 10);
    lemma_decode_of_encode(v);
    lemma_small_mod(v as nat, u64_bound());
    if v < 128 {
    } else {
        let rest = (v / 128) as u64;
        lemma_div_is_strictly_smaller(v as int, 128);
        lemma_encode_wf(rest);
        let e = encode_u64(v);
        let er = encode_u64(rest);
        assert(e == seq![(128 + v % 128) as u8] + er);
        assert(forall|i: int| 0 <= i < e.len() - 1 ==> cont(#[trigger] e[i])) by {
            assert(forall|i: int| 1 <= i < e.len() - 1 ==> e[i] == er[i - 1]);
        }
        assert(!cont(e[e.len() - 1])) by {
            assert(e[e.len() - 1] == er[er.len() - 1]);
        }
    }
}

/// A longer-than-necessary value cannot hide in a shorter sequence: any
/// sequence shorter than the minimal encoding decodes to something else. This
/// is the sense in which `encode_u64` is minimal.
pub proof fn lemma_encode_minimal(v: u64, s: Seq<u8>)
    requires
        1 <= s.len() < encode_u64(v).len(),
    ensures
        decode_u64(s) != v,
    decreases v,
{
    lemma_encode_wf(v);
    lemma_decode_nat_bound(s);
    assert(pow128(s.len()) <= pow128(9)) by {
        lemma_pow128_ordered(s.len(), 9);
    }
    assert(pow128(9) < u64_bound()) by {
        reveal_with_fuel(pow128, 10);
    }
    lemma_small_mod(decode_nat(s), u64_bound());
    // decode_u64(s) == decode_nat(s) < pow128(s.len()); show v >= pow128(s.len()).
    lemma_encode_value_lower(v);
    lemma_pow128_ordered(s.len(), (encode_u64(v).len() - 1) as nat);
}

/// A value's minimal encoding length is tight from below: with two or more
/// bytes in the encoding, the value is at least 128 to the `n - 1`st.
pub proof fn lemma_encode_value_lower(v: u64)
    ensures
        encode_u64(v).len() >= 2 ==> (v as nat) >= pow128((encode_u64(v).len() - 1) as nat),
    decreases v,
{
    if v < 128 {
    } else {
        let rest = (v / 128) as u64;
        lemma_div_is_strictly_smaller(v as int, 128);
        lemma_encode_value_lower(rest);
        reveal_with_fuel(encode_u64, 2);
        let m = (encode_u64(rest).len() - 1) as nat;
        assert(encode_u64(rest).len() >= 1);
        assert(encode_u64(v).len() - 1 == m + 1);
        assert(pow128((m + 1) as nat) == 128 * pow128(m));
        assert((v as nat) >= 128 * pow128(m)) by {
            assert(rest as nat >= pow128(m));
            lemma_mul_inequality(pow128(m) as int, rest as int, 128);
            vstd::arithmetic::div_mod::lemma_fundamental_div_mod(v as int, 128);
        }
    }
}

/// `pow128` is monotone.
pub proof fn lemma_pow128_ordered(a: nat, b: nat)
    requires
        a <= b,
    ensures
        pow128(a) <= pow128(b),
    decreases b,
{
    if a < b && b > 0 {
        lemma_pow128_ordered(a, (b - 1) as nat);
        lemma_mul_inequality(1, 128, pow128((b - 1) as nat) as int);
    }
}

/// The index of the first byte whose continuation bit is clear, or the length
/// when every byte has it set.
pub open spec fn first_clear(s: Seq<u8>) -> int
    decreases s.len(),
{
    if s.len() == 0 {
        0
    } else if !cont(s[0]) {
        0
    } else {
        1 + first_clear(s.skip(1))
    }
}

/// Splitting a byte sequence into its leading varint and the remainder:
/// `MissingTerminator` when no byte terminates, `VarintTooLong` when the
/// terminator sits past the tenth byte.
pub open spec fn parse_varint(s: Seq<u8>) -> Result<(Seq<u8>, Seq<u8>), ParseError> {
    let i = first_clear(s);
    if i >= s.len() {
        Err(ParseError::MissingTerminator)
    } else if i >= 10 {
        Err(ParseError::VarintTooLong)
    } else {
        Ok((s.take(i + 1), s.skip(i + 1)))
    }
}

/// The minimal encoding padded with zero bytes to exactly ten.
pub open spec fn encode_padded(v: u64) -> Seq<u8> {
    encode_u64(v) + Seq::new((10 - encode_u64(v).len()) as nat, |i: int| 0u8)
}

/// The largest index holding a nonzero byte, or zero when every byte is zero.
pub open spec fn last_nonzero(s: Seq<u8>) -> int
    decreases s.len(),
{
    if s.len() <= 1 {
        0
    } else if s[s.len() - 1] != 0 {
        s.len() - 1
    } else {
        last_nonzero(s.drop_last())
    }
}

/// Raw varint bytes trimmed at the last nonzero byte, with the continuation
/// bit forced on every byte before it.
pub open spec fn trim_raw(s: Seq<u8>) -> Seq<u8> {
    let k = last_nonzero(s);
    Seq::new((k + 1) as nat, |j: int| if j < k { (128 + s[j] % 128) as u8 } else { s[j] })
}

/// A nonzero value's minimal encoding ends in a nonzero byte.
pub proof fn lemma_encode_last_nonzero(v: u64)
    requires
        v > 0,
    ensures
        encode_u64(v).last() != 0,
    decreases v,
{
    if v < 128 {
    } else {
        let rest = (v / 128) as u64;
        lemma_div_is_strictly_smaller(v as int, 128);
        vstd::arithmetic::div_mod::lemma_fundamental_div_mod(v as int, 128);
        lemma_encode_last_nonzero(rest);
        assert(encode_u64(v).last() == encode_u64(rest).last());
    }
}

/// Zero padding on the right does not move the last nonzero byte.
pub proof fn lemma_last_nonzero_pad(s: Seq<u8>, n: nat)
    requires
        s.len() >= 1,
        s[s.len() - 1] != 0,
    ensures
        last_nonzero(s + Seq::new(n, |i: int| 0u8)) == s.len() - 1,
    decreases n,
{
    let p = s + Seq::new(n, |i: int| 0u8);
    if n == 0 {
        assert(p =~= s);
    } else {
        assert(p.drop_last() =~= s + Seq::new((n - 1) as nat, |i: int| 0u8));
        lemma_last_nonzero_pad(s, (n - 1) as nat);
    }
}

/// Trimming the padded encoding of a value recovers the minimal encoding.
pub proof fn lemma_trim_encode(v: u64)
    ensures
        !cont(encode_padded(v)[last_nonzero(encode_padded(v))]),
        trim_raw(encode_padded(v)) == encode_u64(v),
{
    let e = encode_u64(v);
    let p = encode_padded(v);
    lemma_encode_wf(v);
    if v == 0 {
        assert(e =~= seq![0u8]);
        lemma_last_nonzero_all_zero(p);
        assert(trim_raw(p) =~= e);
    } else {
        lemma_encode_last_nonzero(v);
        lemma_last_nonzero_pad(e, (10 - e.len()) as nat);
        assert(trim_raw(p) =~= e) by {
            let k = last_nonzero(p);
            assert(forall|j: int|
                0 <= j < k ==> cont(#[trigger] e[j]) && p[j] == e[j] && (128 + e[j] % 128) == e[j]);
        }
    }
}

/// The scan for the last nonzero byte lands on `k` when everything after `k`
/// is zero and `k` is either nonzero or the very first index.
pub proof fn lemma_last_nonzero_located(s: Seq<u8>, k: int)
    requires
        0 <= k < s.len(),
        forall|j: int| k < j < s.len() ==> s[j] == 0,
        k > 0 ==> s[k] != 0,
    ensures
        last_nonzero(s) == k,
    decreases s.len(),
{
    if k == s.len() - 1 {
    } else {
        lemma_last_nonzero_located(s.drop_last(), k);
    }
}

/// On an all-zero sequence the scan for a nonzero byte lands on index zero.
pub proof fn lemma_last_nonzero_all_zero(s: Seq<u8>)
    requires
        forall|i: int| 0 <= i < s.len() ==> s[i] == 0,
    ensures
        last_nonzero(s) == 0,
    decreases s.len(),
{
    if s.len() > 1 {
        lemma_last_nonzero_all_zero(s.drop_last());
    }
}

/// The number carried by bytes in little-endian order, base 256.
pub open spec fn le_nat(s: Seq<u8>) -> nat
    decreases s.len(),
{
    if s.len() == 0 {
        0
    } else {
        (s[0] as nat) + 256 * le_nat(s.skip(1))
    }
}

/// The `n` little-endian bytes of a value.
pub open spec fn le_bytes(v: nat, n: nat) -> Seq<u8>
    decreases n,
{
    if n == 0 {
        Seq::empty()
    } else {
        seq![(v % 256) as u8] + le_bytes(v / 256, (n - 1) as nat)
    }
}

/// 256 to the `n`th power.
pub open spec fn pow256(n: nat) -> nat
    decreases n,
{
    if n == 0 {
        1
    } else {
        256 * pow256((n - 1) as nat)
    }
}

/// Little-endian bytes carry their value back: `n` bytes hold any value
/// below 256 to the `n`th, exactly.
pub proof fn lemma_le_round_trip(v: nat, n: nat)
    requires
        v < pow256(n),
    ensures
        le_bytes(v, n).len() == n,
        le_nat(le_bytes(v, n)) == v,
    decreases n,
{
    if n == 0 {
    } else {
        let rest = v / 256;
        assert(rest < pow256((n - 1) as nat)) by {
            if rest >= pow256((n - 1) as nat) {
                lemma_mul_inequality(pow256((n - 1) as nat) as int, rest as int, 256);
                vstd::arithmetic::div_mod::lemma_fundamental_div_mod(v as int, 256);
            }
        }
        lemma_le_round_trip(rest, (n - 1) as nat);
        assert(le_bytes(v, n).skip(1) =~= le_bytes(rest, (n - 1) as nat));
        vstd::arithmetic::div_mod::lemma_fundamental_div_mod(v as int, 256);
    }
}

/// The zigzag image of a signed value: non-negative values map to the even
/// numbers in order, negative values to the odd ones.
pub open spec fn zigzag_enc64(s: i64) -> u64 {
    if s >= 0 {
        (2 * s) as u64
    } else {
        (-2 * s - 1) as u64
    }
}

/// The 32-bit zigzag image.
pub open spec fn zigzag_enc32(s: i32) -> u32 {
    if s >= 0 {
        (2 * s) as u32
    } else {
        (-2 * s - 1) as u32
    }
}

/// The signed view that undoes `zigzag_enc64` on values below 2^63. The
/// decoder halves with an arithmetic shift of the bits reinterpreted as
/// signed, so on values with the highest bit set the sign bit is kept, not
/// shifted down.
pub open spec fn zigzag_dec64(u: u64) -> i64 {
    let vhalf: int = if u < 0x8000_0000_0000_0000 {
        (u / 2) as int
    } else {
        (u / 2) as int - 0x8000_0000_0000_0000
    };
    if u % 2 == 0 {
        vhalf as i64
    } else {
        (-vhalf - 1) as i64
    }
}

/// The 32-bit signed view that undoes `zigzag_enc32` on values below 2^31.
pub open spec fn zigzag_dec32(w: u32) -> i32 {
    let vhalf: int = if w < 0x8000_0000 {
        (w / 2) as int
    } else {
        (w / 2) as int - 0x8000_0000
    };
    if w % 2 == 0 {
        vhalf as i32
    } else {
        (-vhalf - 1) as i32
    }
}

/// Where the first clear continuation bit sits: within the sequence, behind
/// set bits only, and on a clear byte when it is within bounds.
pub proof fn lemma_first_clear(s: Seq<u8>)
    ensures
        0 <= first_clear(s) <= s.len(),
        forall|j: int| 0 <= j < first_clear(s) ==> cont(#[trigger] s[j]),
        first_clear(s) < s.len() ==> !cont(s[first_clear(s)]),
    decreases s.len(),
{
    if s.len() == 0 {
    } else if !cont(s[0]) {
    } else {
        lemma_first_clear(s.skip(1));
        assert forall|j: int| 0 <= j < first_clear(s) implies cont(#[trigger] s[j]) by {
            if j >= 1 {
                assert(cont(s.skip(1)[j - 1]));
                assert(s.skip(1)[j - 1] == s[j]);
            }
        }
    }
}

/// The scan finds a clear byte exactly where one first stands.
pub proof fn lemma_first_clear_is(s: Seq<u8>, k: int)
    requires
        0 <= k < s.len(),
        forall|j: int| 0 <= j < k ==> cont(#[trigger] s[j]),
        !cont(s[k]),
    ensures
        first_clear(s) == k,
    decreases s.len(),
{
    if k == 0 {
    } else {
        assert(forall|j: int| 0 <= j < k - 1 ==> cont(#[trigger] s.skip(1)[j]));
        lemma_first_clear_is(s.skip(1), k - 1);
    }
}

/// A successful varint parse yields a well-formed varint and the exact
/// remainder of the input.
pub proof fn lemma_parse_varint_ok(s: Seq<u8>)
    ensures
        parse_varint(s) matches Ok(r) ==> {
            &&& wf_varint(r.0)
            &&& s == r.0 + r.1
            &&& r.0.len() >= 1
            &&& r.1.len() < s.len()
        },
{
    lemma_first_clear(s);
    if parse_varint(s) is Ok {
        let i = first_clear(s);
        assert(s =~= s.take(i + 1) + s.skip(i + 1));
        assert(s.take(i + 1)[i] == s[i]);
    }
}

/// Parsing picks a well-formed varint prefix off unchanged, whatever follows.
pub proof fn lemma_parse_varint_prefix(p: Seq<u8>, rest: Seq<u8>)
    requires
        wf_varint(p),
    ensures
        parse_varint(p + rest) == Ok::<_, ParseError>((p, rest)),
{
    let s = p + rest;
    let k = p.len() - 1;
    assert(forall|j: int| 0 <= j < k ==> cont(#[trigger] s[j]));
    assert(!cont(s[k]));
    lemma_first_clear_is(s, k);
    assert(s.take(k + 1) =~= p);
    assert(s.skip(k + 1) =~= rest);
}


/// How many levels of group nesting the parser will enter.
pub const GROUP_DEPTH_LIMIT: u64 = 100;

/// The shape of a parsed field: its tag bytes and its payload.
pub struct FieldView {
    pub tag: Seq<u8>,
    pub obj: ObjView,
}

/// The shape of a payload, one arm per wire form. `EGroup` is the parse-time
/// sentinel for an end-group tag; it carries no bytes of its own.
pub enum ObjView {
    Varint(Seq<u8>),
    I64(Seq<u8>),
    Len { length: Seq<u8>, inner: Seq<u8> },
    Group { fields: Seq<FieldView>, end_tag: Seq<u8> },
    EGroup,
    I32(Seq<u8>),
}

/// The wire-type code of a tag value: its low three bits.
pub open spec fn wire_type_of(tag: u64) -> u64 {
    tag % 8
}

/// The field id of a tag value: everything above the low three bits.
pub open spec fn field_id_of(tag: u64) -> u64 {
    tag / 8
}

/// The wire-type code a payload arm serializes under.
pub open spec fn obj_wire_type(o: ObjView) -> u64 {
    match o {
        ObjView::Varint(_) => 0,
        ObjView::I64(_) => 1,
        ObjView::Len { .. } => 2,
        ObjView::Group { .. } => 3,
        ObjView::EGroup => 4,
        ObjView::I32(_) => 5,
    }
}

/// Each component of the field is well formed: varints are varints, fixed
/// carriers have their width, a length prefix counts its payload, and groups
/// are well formed throughout. The tag's wire type is not constrained here:
/// a caller may set a tag at odds with the payload, and serialization still
/// writes both.
pub open spec fn wf_field(f: FieldView) -> bool
    decreases f, 0int,
{
    wf_varint(f.tag) && wf_obj(f.obj)
}

/// Component well-formedness of one payload.
pub open spec fn wf_obj(o: ObjView) -> bool
    decreases o, 0int,
{
    match o {
        ObjView::Varint(s) => wf_varint(s),
        ObjView::I64(s) => s.len() == 8,
        ObjView::Len { length, inner } => wf_varint(length) && decode_u64(length) == inner.len(),
        ObjView::Group { fields, end_tag } => wf_fields(fields, 0) && wf_varint(end_tag),
        ObjView::EGroup => true,
        ObjView::I32(s) => s.len() == 4,
    }
}

/// Component well-formedness of the fields from index `i` on.
pub open spec fn wf_fields(fs: Seq<FieldView>, i: int) -> bool
    decreases fs, fs.len() - i,
{
    if i < 0 || i >= fs.len() {
        true
    } else {
        wf_field(fs[i]) && wf_fields(fs, i + 1)
    }
}

/// The wire bytes of a field: its tag varint followed by its payload.
pub open spec fn ser_field(f: FieldView) -> Seq<u8>
    decreases f, 0int,
{
    f.tag + ser_obj(f.obj)
}

/// The wire bytes of a payload. A group writes its fields in order and then
/// its end tag; an end-group sentinel writes nothing beyond its tag.
pub open spec fn ser_obj(o: ObjView) -> Seq<u8>
    decreases o, 0int,
{
    match o {
        ObjView::Varint(s) => s,
        ObjView::I64(s) => s,
        ObjView::Len { length, inner } => length + inner,
        ObjView::Group { fields, end_tag } => ser_fields(fields, 0) + end_tag,
        ObjView::EGroup => Seq::empty(),
        ObjView::I32(s) => s,
    }
}

/// The concatenated wire bytes of the fields from index `i` on.
pub open spec fn ser_fields(fs: Seq<FieldView>, i: int) -> Seq<u8>
    decreases fs, fs.len() - i,
{
    if i < 0 || i >= fs.len() {
        Seq::empty()
    } else {
        ser_field(fs[i]) + ser_fields(fs, i + 1)
    }
}

/// The fault a parse error reports once a field wraps it: the error's own
/// kind, or the cause already attributed if it is a field failure. UTF-8
/// errors never arise while parsing, so that arm is never reached.
pub open spec fn fault_of(e: ParseError) -> FieldFault {
    match e {
        ParseError::MissingTerminator => FieldFault::MissingTerminator,
        ParseError::VarintTooLong => FieldFault::VarintTooLong,
        ParseError::InsufficientBytes => FieldFault::InsufficientBytes,
        ParseError::LengthOverrun => FieldFault::LengthOverrun,
        ParseError::InvalidWireType => FieldFault::InvalidWireType,
        ParseError::DepthLimitExceeded => FieldFault::DepthLimitExceeded,
        ParseError::InvalidUtf8 => FieldFault::InvalidWireType,
        ParseError::FieldParseFailure { cause, .. } => cause,
    }
}

/// A payload failure as the enclosing field reports it: attributed to the
/// wire type being attempted, with the underlying fault.
pub open spec fn wrap_fault(wt: u64, e: ParseError) -> ParseError {
    ParseError::FieldParseFailure { wire_type: wt, cause: fault_of(e) }
}

/// One field parsed off the front of `s`, with `depth` levels of group
/// nesting still allowed: the tag varint, then the payload the tag's wire
/// type dictates. The two branches that return `MissingTerminator` behind a
/// length guard are unreachable, since a parsed varint or field consumes at
/// least one byte; the guard keeps the recursion visibly bounded.
pub open spec fn parse_field(s: Seq<u8>, depth: nat) -> Result<(FieldView, Seq<u8>), ParseError>
    decreases s.len(), 0int,
{
    match parse_varint(s) {
        Err(e) => Err(e),
        Ok((tag, rest)) => {
            let tagv = decode_u64(tag);
            let wt = wire_type_of(tagv);
            if wt == 0 {
                match parse_varint(rest) {
                    Err(e) => Err(wrap_fault(0, e)),
                    Ok((v, rem)) => Ok((FieldView { tag, obj: ObjView::Varint(v) }, rem)),
                }
            } else if wt == 1 {
                if rest.len() < 8 {
                    Err(wrap_fault(1, ParseError::InsufficientBytes))
                } else {
                    Ok((FieldView { tag, obj: ObjView::I64(rest.take(8)) }, rest.skip(8)))
                }
            } else if wt == 2 {
                match parse_varint(rest) {
                    Err(e) => Err(wrap_fault(2, e)),
                    Ok((length, rest2)) => {
                        let n = decode_u64(length) as int;
                        if n > rest2.len() {
                            Err(wrap_fault(2, ParseError::LengthOverrun))
                        } else {
                            Ok(
                                (
                                    FieldView {
                                        tag,
                                        obj: ObjView::Len { length, inner: rest2.take(n) },
                                    },
                                    rest2.skip(n),
                                ),
                            )
                        }
                    },
                }
            } else if wt == 3 {
                if depth == 0 {
                    Err(wrap_fault(3, ParseError::DepthLimitExceeded))
                } else if rest.len() < s.len() {
                    match parse_group(field_id_of(tagv), rest, (depth - 1) as nat) {
                        Err(e) => Err(wrap_fault(3, e)),
                        Ok((fields, end_tag, rem)) => Ok(
                            (FieldView { tag, obj: ObjView::Group { fields, end_tag } }, rem),
                        ),
                    }
                } else {
                    Err(ParseError::MissingTerminator)
                }
            } else if wt == 4 {
                Ok((FieldView { tag, obj: ObjView::EGroup }, rest))
            } else if wt == 5 {
                if rest.len() < 4 {
                    Err(wrap_fault(5, ParseError::InsufficientBytes))
                } else {
                    Ok((FieldView { tag, obj: ObjView::I32(rest.take(4)) }, rest.skip(4)))
                }
            } else {
                Err(ParseError::InvalidWireType)
            }
        },
    }
}

/// The body of a group with field id `fid` parsed off the front of `s`:
/// fields accumulate until an end-group sentinel with the matching field id
/// closes the group and is consumed as its end tag. An end-group tag with
/// another field id is stored as an ordinary field, for the caller to
/// surface.
pub open spec fn parse_group(fid: u64, s: Seq<u8>, depth: nat) -> Result<
    (Seq<FieldView>, Seq<u8>, Seq<u8>),
    ParseError,
>
    decreases s.len(), 1int,
{
    match parse_field(s, depth) {
        Err(e) => Err(e),
        Ok((f, rem)) => {
            if f.obj is EGroup && field_id_of(decode_u64(f.tag)) == fid {
                Ok((Seq::empty(), f.tag, rem))
            } else if rem.len() < s.len() {
                match parse_group(fid, rem, depth) {
                    Err(e) => Err(e),
                    Ok((fs, end_tag, rem2)) => Ok((seq![f] + fs, end_tag, rem2)),
                }
            } else {
                Err(ParseError::MissingTerminator)
            }
        },
    }
}

/// A group-body parse with fields grafted on the front of what it found.
pub open spec fn graft(pre: Seq<FieldView>, r: Result<(Seq<FieldView>, Seq<u8>, Seq<u8>), ParseError>)
    -> Result<(Seq<FieldView>, Seq<u8>, Seq<u8>), ParseError> {
    match r {
        Err(e) => Err(e),
        Ok((fs, end_tag, rem)) => Ok((pre + fs, end_tag, rem)),
    }
}

/// A successful field parse consumes at least one byte and at most all of
/// them, and what it consumed serializes back to exactly those bytes.
pub proof fn lemma_parse_field_consumes(s: Seq<u8>, depth: nat)
    ensures
        parse_field(s, depth) matches Ok(p) ==> {
            &&& p.1.len() < s.len()
            &&& wf_field(p.0)
            &&& s == ser_field(p.0) + p.1
        },
    decreases s.len(), 0int,
{
    lemma_parse_varint_ok(s);
    if parse_field(s, depth) is Ok {
        let (tag, rest) = parse_varint(s)->Ok_0;
        let tagv = decode_u64(tag);
        let wt = wire_type_of(tagv);
        let (f, rem) = parse_field(s, depth)->Ok_0;
        if wt == 0 {
            lemma_parse_varint_ok(rest);
            assert(s =~= ser_field(f) + rem);
        } else if wt == 1 {
            assert(rest =~= rest.take(8) + rest.skip(8));
            assert(s =~= ser_field(f) + rem);
        } else if wt == 2 {
            lemma_parse_varint_ok(rest);
            let (length, rest2) = parse_varint(rest)->Ok_0;
            let n = decode_u64(length) as int;
            assert(rest2 =~= rest2.take(n) + rest2.skip(n));
            assert(s =~= ser_field(f) + rem);
        } else if wt == 3 {
            lemma_parse_group_consumes(field_id_of(tagv), rest, (depth - 1) as nat);
            let (fields, end_tag, rem2) = parse_group(field_id_of(tagv), rest, (depth - 1) as nat)->Ok_0;
            assert(s =~= ser_field(f) + rem);
        } else if wt == 4 {
            assert(ser_obj(f.obj) =~= Seq::<u8>::empty());
            assert(s =~= ser_field(f) + rem);
        } else {
            assert(rest =~= rest.take(4) + rest.skip(4));
            assert(s =~= ser_field(f) + rem);
        }
    }
}

/// A successful group-body parse consumes at least one byte, yields well-
/// formed fields and end tag, and serializes back to exactly the bytes it
/// consumed.
pub proof fn lemma_parse_group_consumes(fid: u64, s: Seq<u8>, depth: nat)
    ensures
        parse_group(fid, s, depth) matches Ok(g) ==> {
            &&& g.2.len() < s.len()
            &&& wf_fields(g.0, 0)
            &&& wf_varint(g.1)
            &&& s == ser_fields(g.0, 0) + g.1 + g.2
        },
    decreases s.len(), 1int,
{
    lemma_parse_field_consumes(s, depth);
    if parse_group(fid, s, depth) is Ok {
        let (f, rem) = parse_field(s, depth)->Ok_0;
        let (fs, end_tag, rem2) = parse_group(fid, s, depth)->Ok_0;
        if f.obj is EGroup && field_id_of(decode_u64(f.tag)) == fid {
            assert(ser_fields(fs, 0) =~= Seq::<u8>::empty());
            assert(ser_obj(f.obj) =~= Seq::<u8>::empty());
            assert(s =~= ser_fields(fs, 0) + end_tag + rem2);
        } else {
            lemma_parse_group_consumes(fid, rem, depth);
            let (fs1, _, _) = parse_group(fid, rem, depth)->Ok_0;
            assert(fs =~= seq![f] + fs1);
            lemma_ser_fields_cons(f, fs1);
            lemma_wf_fields_cons(f, fs1);
            assert(s =~= ser_fields(fs, 0) + end_tag + rem2);
        }
    }
}

/// Serializing a field list starts with its head's bytes.
pub proof fn lemma_ser_fields_cons(f: FieldView, fs: Seq<FieldView>)
    ensures
        ser_fields(seq![f] + fs, 0) == ser_field(f) + ser_fields(fs, 0),
{
    let a = seq![f] + fs;
    lemma_ser_fields_skip(a, 1);
    assert(a.skip(1) =~= fs);
}

/// Serializing from index `k` equals serializing the list with its first
/// `k` elements dropped.
pub proof fn lemma_ser_fields_skip(a: Seq<FieldView>, k: int)
    requires
        0 <= k <= a.len(),
    ensures
        ser_fields(a, k) == ser_fields(a.skip(k), 0),
    decreases a.len() - k,
{
    let b = a.skip(k);
    if k == a.len() {
        assert(ser_fields(a, k) =~= Seq::<u8>::empty());
        assert(ser_fields(b, 0) =~= Seq::<u8>::empty());
    } else {
        lemma_ser_fields_skip(a, k + 1);
        lemma_ser_fields_skip(b, 1);
        assert(b.skip(1) =~= a.skip(k + 1));
        assert(b[0] == a[k]);
    }
}

/// Well-formedness of a field list distributes over its head.
pub proof fn lemma_wf_fields_cons(f: FieldView, fs: Seq<FieldView>)
    ensures
        wf_fields(seq![f] + fs, 0) == (wf_field(f) && wf_fields(fs, 0)),
{
    let a = seq![f] + fs;
    lemma_wf_fields_skip(a, 1);
    assert(a.skip(1) =~= fs);
}

/// Well-formedness from index `k` equals well-formedness of the list with
/// its first `k` elements dropped.
pub proof fn lemma_wf_fields_skip(a: Seq<FieldView>, k: int)
    requires
        0 <= k <= a.len(),
    ensures
        wf_fields(a, k) == wf_fields(a.skip(k), 0),
    decreases a.len() - k,
{
    let b = a.skip(k);
    if k < a.len() {
        lemma_wf_fields_skip(a, k + 1);
        lemma_wf_fields_skip(b, 1);
        assert(b.skip(1) =~= a.skip(k + 1));
        assert(b[0] == a[k]);
    }
}


/// True when every tag announces its own payload: the tag's wire type is the
/// payload's code and, inside a group, the end tag carries the end-group
/// code with the group's field id, while no stored field is an end-group
/// sentinel for that same id — such a sentinel would close the group early.
/// Parsing yields only such fields, and serializing them parses back.
pub open spec fn tags_consistent(f: FieldView) -> bool
    decreases f, 0int,
{
    &&& wire_type_of(decode_u64(f.tag)) == obj_wire_type(f.obj)
    &&& tags_consistent_obj(f.obj, field_id_of(decode_u64(f.tag)))
}

/// Tag consistency of one payload, under the field id of its own tag.
pub open spec fn tags_consistent_obj(o: ObjView, fid: u64) -> bool
    decreases o, 0int,
{
    match o {
        ObjView::Group { fields, end_tag } => {
            &&& wire_type_of(decode_u64(end_tag)) == 4
            &&& field_id_of(decode_u64(end_tag)) == fid
            &&& tags_consistent_fields(fields, 0, fid)
        },
        _ => true,
    }
}

/// Tag consistency of the fields from index `i` on, inside a group with
/// field id `fid`.
pub open spec fn tags_consistent_fields(fs: Seq<FieldView>, i: int, fid: u64) -> bool
    decreases fs, fs.len() - i,
{
    if i < 0 || i >= fs.len() {
        true
    } else {
        &&& tags_consistent(fs[i])
        &&& !(fs[i].obj is EGroup && field_id_of(decode_u64(fs[i].tag)) == fid)
        &&& tags_consistent_fields(fs, i + 1, fid)
    }
}

/// True when the field's groups nest within `depth` levels.
pub open spec fn fits_depth(f: FieldView, depth: nat) -> bool
    decreases f, 0int,
{
    fits_depth_obj(f.obj, depth)
}

/// Depth bound of one payload.
pub open spec fn fits_depth_obj(o: ObjView, depth: nat) -> bool
    decreases o, 0int,
{
    match o {
        ObjView::Group { fields, .. } => depth > 0 && fits_depth_fields(
            fields,
            0,
            (depth - 1) as nat,
        ),
        _ => true,
    }
}

/// Depth bound of the fields from index `i` on.
pub open spec fn fits_depth_fields(fs: Seq<FieldView>, i: int, depth: nat) -> bool
    decreases fs, fs.len() - i,
{
    if i < 0 || i >= fs.len() {
        true
    } else {
        fits_depth(fs[i], depth) && fits_depth_fields(fs, i + 1, depth)
    }
}

/// Parsing inverts serializing, bitwise and fieldwise: a well-formed field
/// whose tags are consistent and whose groups fit the depth budget parses
/// back from its own wire bytes, exactly, leaving exactly what followed.
pub proof fn lemma_parse_of_ser_field(f: FieldView, rest: Seq<u8>, depth: nat)
    requires
        wf_field(f),
        tags_consistent(f),
        fits_depth(f, depth),
    ensures
        parse_field(ser_field(f) + rest, depth) == Ok::<_, ParseError>((f, rest)),
    decreases f, 0int,
{
    let s = ser_field(f) + rest;
    let body = ser_obj(f.obj) + rest;
    assert(s =~= f.tag + body);
    lemma_parse_varint_prefix(f.tag, body);
    let tagv = decode_u64(f.tag);
    let wt = wire_type_of(tagv);
    match f.obj {
        ObjView::Varint(v) => {
            lemma_parse_varint_prefix(v, rest);
            assert(body =~= v + rest);
        },
        ObjView::I64(v) => {
            assert(body =~= v + rest);
            assert(body.take(8) =~= v);
            assert(body.skip(8) =~= rest);
        },
        ObjView::Len { length, inner } => {
            assert(body =~= length + (inner + rest));
            lemma_parse_varint_prefix(length, inner + rest);
            let n = decode_u64(length) as int;
            assert((inner + rest).take(n) =~= inner);
            assert((inner + rest).skip(n) =~= rest);
        },
        ObjView::Group { fields, end_tag } => {
            assert(body =~= ser_fields(fields, 0) + end_tag + rest);
            lemma_parse_of_ser_group(field_id_of(tagv), fields, end_tag, rest, (depth - 1) as nat, 0);
            assert(fields.skip(0) =~= fields);
            assert(f.tag.len() >= 1);
        },
        ObjView::EGroup => {
            assert(body =~= rest);
        },
        ObjView::I32(v) => {
            assert(body =~= v + rest);
            assert(body.take(4) =~= v);
            assert(body.skip(4) =~= rest);
        },
    }
}

/// Parsing inverts serializing for a group body: the serialized fields from
/// index `i` on, then the end tag, parse back to exactly those fields in
/// order, consuming the end tag, leaving exactly what followed.
pub proof fn lemma_parse_of_ser_group(
    fid: u64,
    fs: Seq<FieldView>,
    end_tag: Seq<u8>,
    rest: Seq<u8>,
    depth: nat,
    i: int,
)
    requires
        0 <= i <= fs.len(),
        wf_fields(fs, i),
        tags_consistent_fields(fs, i, fid),
        fits_depth_fields(fs, i, depth),
        wf_varint(end_tag),
        wire_type_of(decode_u64(end_tag)) == 4,
        field_id_of(decode_u64(end_tag)) == fid,
    ensures
        parse_group(fid, ser_fields(fs, i) + end_tag + rest, depth) == Ok::<_, ParseError>(
            (fs.skip(i), end_tag, rest),
        ),
    decreases fs, fs.len() - i,
{
    let s = ser_fields(fs, i) + end_tag + rest;
    if i == fs.len() {
        assert(s =~= end_tag + rest);
        lemma_parse_varint_prefix(end_tag, rest);
        let ef = FieldView { tag: end_tag, obj: ObjView::EGroup };
        assert(parse_field(s, depth) == Ok::<_, ParseError>((ef, rest)));
        assert(fs.skip(i) =~= Seq::<FieldView>::empty());
    } else {
        let tail = ser_fields(fs, i + 1) + end_tag + rest;
        assert(s =~= ser_field(fs[i]) + tail);
        assert(wf_field(fs[i]) && tags_consistent(fs[i]) && fits_depth(fs[i], depth));
        lemma_parse_of_ser_field(fs[i], tail, depth);
        assert(wf_varint(fs[i].tag));
        assert(ser_field(fs[i]).len() >= 1) by {
            assert(fs[i].tag.len() >= 1);
            assert(ser_field(fs[i]) == fs[i].tag + ser_obj(fs[i].obj));
        }
        lemma_parse_of_ser_group(fid, fs, end_tag, rest, depth, i + 1);
        assert(seq![fs[i]] + fs.skip(i + 1) =~= fs.skip(i));
    }
}


/// The field round trip: a well-formed field with consistent tags and
/// groups within the nesting budget parses back, bitwise and fieldwise,
/// from exactly its own serialized bytes.
pub proof fn lemma_field_round_trip(f: FieldView)
    requires
        wf_field(f),
        tags_consistent(f),
        fits_depth(f, GROUP_DEPTH_LIMIT as nat),
    ensures
        parse_field(ser_field(f), GROUP_DEPTH_LIMIT as nat) == Ok::<_, ParseError>(
            (f, Seq::<u8>::empty()),
        ),
{
    lemma_parse_of_ser_field(f, Seq::empty(), GROUP_DEPTH_LIMIT as nat);
    assert(ser_field(f) + Seq::<u8>::empty() =~= ser_field(f));
}

} // verus!
