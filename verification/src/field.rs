//! A tagged field: the unit a message is made of.
//!
//! A field owns its tag varint — which packs a field id and a wire-type
//! code — and its payload. Parsing reads the tag, dispatches on its wire
//! type, and parses the payload; serializing writes the tag bytes and then
//! the payload bytes.

use vstd::prelude::*;

use crate::fixed32::I32;
use crate::fixed64::I64;
use crate::group::Group;
use crate::len::Len;
use crate::message_object::MessageObject;
use crate::model::{
    encode_u64, field_id_of, lemma_encode_wf, lemma_parse_field_consumes, lemma_parse_varint_ok,
    obj_wire_type, parse_field, ser_field, wire_type_of, wrap_fault, FieldView,
    GROUP_DEPTH_LIMIT,
};
use crate::varint::Varint;
use crate::wire_data::WireData;
use crate::{FieldFault, ParseError};

verus! {

broadcast use vstd::std_specs::vec::group_vec_axioms;

/// A tag varint and the payload it announces.
#[derive(Debug)]
pub struct Field {
    pub tag: Varint,
    pub data: MessageObject,
}

/// The shapes of the fields from index `i` on, in order.
pub open spec fn fields_view(fs: Seq<Field>, i: int) -> Seq<FieldView>
    decreases fs, fs.len() - i,
{
    if i < 0 || i >= fs.len() {
        Seq::empty()
    } else {
        seq![fs[i].view()] + fields_view(fs, i + 1)
    }
}

/// `fields_view` maps the list elementwise: one shape per field, in place.
pub proof fn lemma_fields_view_props(fs: Seq<Field>, i: int)
    requires
        0 <= i <= fs.len(),
    ensures
        fields_view(fs, i).len() == fs.len() - i,
        forall|j: int| i <= j < fs.len() ==> fields_view(fs, i)[j - i] == fs[j].view(),
    decreases fs.len() - i,
{
    if i < fs.len() {
        lemma_fields_view_props(fs, i + 1);
    }
}

/// Appending a field appends its shape.
pub proof fn lemma_fields_view_push(fs: Seq<Field>, f: Field, i: int)
    requires
        0 <= i <= fs.len(),
    ensures
        fields_view(fs.push(f), i) == fields_view(fs, i) + seq![f.view()],
    decreases fs.len() - i,
{
    if i == fs.len() {
        assert(fields_view(fs.push(f), i + 1) =~= Seq::<FieldView>::empty());
        assert(fields_view(fs, i) =~= Seq::<FieldView>::empty());
        assert(fs.push(f)[i] == f);
        assert(fields_view(fs.push(f), i) =~= fields_view(fs, i) + seq![f.view()]);
    } else {
        lemma_fields_view_push(fs, f, i + 1);
        assert(fs.push(f)[i] == fs[i]);
        assert(fields_view(fs.push(f), i) =~= fields_view(fs, i) + seq![f.view()]);
    }
}

/// The tag value that packs a field id with a wire-type code, and the law
/// that unpacking inverts it: for every tag value `t`,
/// `field_id_of(t) * 8 + wire_type_of(t) == t`.
pub proof fn lemma_tag_round_trip(t: u64)
    ensures
        field_id_of(t) * 8 + wire_type_of(t) == t,
        wire_type_of(t) < 8,
{
    vstd::arithmetic::div_mod::lemma_fundamental_div_mod(t as int, 8);
}

impl Field {
    /// The field's shape: its tag bytes and its payload's shape.
    pub open spec fn view(&self) -> FieldView
        decreases self, 0int,
    {
        FieldView { tag: self.tag@, obj: self.data.view() }
    }

    /// Every component is well formed.
    pub open spec fn wf(&self) -> bool {
        crate::model::wf_field(self.view())
    }

    /// A field over the given payload, with a tag packing `id` and the
    /// payload's wire-type code. Ids above 2^61 - 1 would not fit the tag.
    pub fn new(id: u64, object: MessageObject) -> (r: Self)
        requires
            id <= 0x1fff_ffff_ffff_ffff,
        ensures
            r.data == object,
            r.tag@ == encode_u64((8 * id + obj_wire_type(object.view())) as u64),
            r.tag.wf(),
            r.tag.value() == 8 * id + obj_wire_type(object.view()),
    {
        let wt = object.wire_type();
        let tag = id * 8 + wt % 8;
        proof {
            vstd::arithmetic::div_mod::lemma_small_mod(wt as nat, 8);
        }
        Field { tag: Varint::new(tag), data: object }
    }

    /// Parses one field off the front of `data`, with the full group
    /// nesting budget.
    pub fn from(data: WireData) -> (r: Result<(Self, WireData), ParseError>)
        ensures
            match r {
                Ok(p) => {
                    &&& parse_field(data@, GROUP_DEPTH_LIMIT as nat) == Ok::<_, ParseError>(
                        (p.0.view(), p.1@),
                    )
                    &&& p.0.wf()
                    &&& data@ == ser_field(p.0.view()) + p.1@
                },
                Err(e) => parse_field(data@, GROUP_DEPTH_LIMIT as nat) == Err::<
                    (FieldView, Seq<u8>),
                    _,
                >(e),
            },
    {
        parse_field_at(data, GROUP_DEPTH_LIMIT)
    }

    /// The payload, if it is a varint.
    pub fn into_varint(self) -> (r: Option<Varint>)
        ensures
            match self.data {
                MessageObject::Varint(v) => r == Some(v),
                _ => r is None,
            },
    {
        match self.data {
            MessageObject::Varint(value) => Some(value),
            _ => None,
        }
    }

    /// The payload, if it is a varint.
    pub fn as_varint(&self) -> (r: Option<&Varint>)
        ensures
            match self.data {
                MessageObject::Varint(v) => r matches Some(rv) && *rv == v,
                _ => r is None,
            },
    {
        match &self.data {
            MessageObject::Varint(value) => Some(value),
            _ => None,
        }
    }

    /// The payload, if it is an eight-byte carrier.
    pub fn into_i64(self) -> (r: Option<I64>)
        ensures
            match self.data {
                MessageObject::I64(v) => r == Some(v),
                _ => r is None,
            },
    {
        match self.data {
            MessageObject::I64(value) => Some(value),
            _ => None,
        }
    }

    /// The payload, if it is an eight-byte carrier.
    pub fn as_i64(&self) -> (r: Option<&I64>)
        ensures
            match self.data {
                MessageObject::I64(v) => r matches Some(rv) && *rv == v,
                _ => r is None,
            },
    {
        match &self.data {
            MessageObject::I64(value) => Some(value),
            _ => None,
        }
    }

    /// The payload, if it is length-delimited.
    pub fn into_len(self) -> (r: Option<Len>)
        ensures
            match self.data {
                MessageObject::Len(v) => r == Some(v),
                _ => r is None,
            },
    {
        match self.data {
            MessageObject::Len(value) => Some(value),
            _ => None,
        }
    }

    /// The payload, if it is length-delimited.
    pub fn as_len(&self) -> (r: Option<&Len>)
        ensures
            match self.data {
                MessageObject::Len(v) => r matches Some(rv) && *rv == v,
                _ => r is None,
            },
    {
        match &self.data {
            MessageObject::Len(value) => Some(value),
            _ => None,
        }
    }

    /// The payload, if it is a group.
    pub fn into_group(self) -> (r: Option<Group>)
        ensures
            match self.data {
                MessageObject::Group(v) => r == Some(v),
                _ => r is None,
            },
    {
        match self.data {
            MessageObject::Group(value) => Some(value),
            _ => None,
        }
    }

    /// The payload, if it is a group.
    pub fn as_group(&self) -> (r: Option<&Group>)
        ensures
            match self.data {
                MessageObject::Group(v) => r matches Some(rv) && *rv == v,
                _ => r is None,
            },
    {
        match &self.data {
            MessageObject::Group(value) => Some(value),
            _ => None,
        }
    }

    /// The payload, if it is a four-byte carrier.
    pub fn into_i32(self) -> (r: Option<I32>)
        ensures
            match self.data {
                MessageObject::I32(v) => r == Some(v),
                _ => r is None,
            },
    {
        match self.data {
            MessageObject::I32(value) => Some(value),
            _ => None,
        }
    }

    /// The payload, if it is a four-byte carrier.
    pub fn as_i32(&self) -> (r: Option<&I32>)
        ensures
            match self.data {
                MessageObject::I32(v) => r matches Some(rv) && *rv == v,
                _ => r is None,
            },
    {
        match &self.data {
            MessageObject::I32(value) => Some(value),
            _ => None,
        }
    }

    /// The field id packed in the tag: everything above the low three bits.
    pub fn get_field_id(&self) -> (r: u64)
        ensures
            r == field_id_of(self.tag.value()),
    {
        Self::field_id_from_tag(self.tag.get())
    }

    /// The wire-type code packed in the tag: its low three bits.
    pub fn get_wire_type(&self) -> (r: u64)
        ensures
            r == wire_type_of(self.tag.value()),
    {
        Self::wire_type_from_tag(self.tag.get())
    }

    /// Re-packs the tag. The payload is not touched: keeping the wire type
    /// consistent with the payload is the caller's responsibility.
    pub fn set_tag(&mut self, field_id: u64, wire_type: u64)
        requires
            field_id <= 0x1fff_ffff_ffff_ffff,
            wire_type <= 7,
        ensures
            final(self).tag@ == encode_u64((8 * field_id + wire_type) as u64),
            final(self).tag.wf(),
            final(self).tag.value() == 8 * field_id + wire_type,
            final(self).data == old(self).data,
    {
        self.tag.set(field_id * 8 + wire_type);
    }

    /// The payload.
    pub fn get_data(&self) -> (r: &MessageObject)
        ensures
            *r == self.data,
    {
        &self.data
    }

    /// A mutable borrow of the payload. The tag is not touched: keeping the
    /// wire type consistent with what the caller writes is the caller's
    /// responsibility.
    pub fn get_data_mut(&mut self) -> (r: &mut MessageObject)
        ensures
            *r == old(self).data,
            final(self).data == *final(r),
            final(self).tag == old(self).tag,
    {
        &mut self.data
    }

    /// Replaces the payload. The tag is not touched: keeping the wire type
    /// consistent with the payload is the caller's responsibility.
    pub fn set_data(&mut self, object: MessageObject)
        ensures
            final(self).data == object,
            final(self).tag == old(self).tag,
    {
        self.data = object;
    }

    /// The field id packed in a tag value.
    pub fn field_id_from_tag(tag: u64) -> (r: u64)
        ensures
            r == field_id_of(tag),
    {
        tag / 8
    }

    /// The wire-type code packed in a tag value.
    pub fn wire_type_from_tag(tag: u64) -> (r: u64)
        ensures
            r == wire_type_of(tag),
    {
        tag % 8
    }

    /// The field's wire bytes in a fresh owned buffer: the tag varint's
    /// bytes, then the payload's.
    pub fn serialize(&self) -> (r: WireData)
        ensures
            r@ == ser_field(self.view()),
    {
        let mut dest: Vec<u8> = Vec::new();
        self.serialize_into(&mut dest);
        WireData::new_mut(dest)
    }

    /// Appends the field's wire bytes.
    pub(crate) fn serialize_into(&self, dest: &mut Vec<u8>)
        ensures
            final(dest)@ == old(dest)@ + ser_field(self.view()),
        decreases self, 0int,
    {
        dest.extend_from_slice(self.tag.0.as_slice());
        self.data.serialize_into(dest);
        proof {
            assert(dest@ =~= old(dest)@ + ser_field(self.view()));
        }
    }
}

/// The fault a payload failure reports once its field wraps it. The UTF-8
/// arm is never produced by parsing.
fn fault_kind(e: ParseError) -> (r: FieldFault)
    ensures
        r == crate::model::fault_of(e),
{
    match e {
        ParseError::MissingTerminator => FieldFault::MissingTerminator,
        ParseError::VarintTooLong => FieldFault::VarintTooLong,
        ParseError::InsufficientBytes => FieldFault::InsufficientBytes,
        ParseError::LengthOverrun => FieldFault::LengthOverrun,
        ParseError::InvalidWireType => FieldFault::InvalidWireType,
        ParseError::DepthLimitExceeded => FieldFault::DepthLimitExceeded,
        ParseError::InvalidUtf8 => FieldFault::InvalidWireType,
        ParseError::FieldParseFailure { cause, .. } => cause,
    }
}

/// A payload failure as the enclosing field reports it.
fn wrap_error(wt: u64, e: ParseError) -> (r: ParseError)
    ensures
        r == wrap_fault(wt, e),
{
    ParseError::FieldParseFailure { wire_type: wt, cause: fault_kind(e) }
}

/// Parses one field off the front of `data` with `depth` levels of group
/// nesting still allowed: the tag varint, then the payload its wire type
/// dictates.
pub(crate) fn parse_field_at(data: WireData, depth: u64) -> (r: Result<
    (Field, WireData),
    ParseError,
>)
    ensures
        match r {
            Ok(p) => {
                &&& parse_field(data@, depth as nat) == Ok::<_, ParseError>((p.0.view(), p.1@))
                &&& p.0.wf()
                &&& data@ == ser_field(p.0.view()) + p.1@
            },
            Err(e) => parse_field(data@, depth as nat) == Err::<(FieldView, Seq<u8>), _>(e),
        },
    decreases data@.len(), 0int,
{
    let ghost s = data@;
    proof {
        lemma_parse_varint_ok(s);
        lemma_parse_field_consumes(s, depth as nat);
    }
    let (tag, remainder) = match Varint::from(data) {
        Ok(p) => p,
        Err(e) => {
            return Err(e);
        },
    };
    let tag_value = tag.get();
    let wt = tag_value % 8;
    if wt == 0 {
        match Varint::from(remainder) {
            Ok((value, rem)) => Ok((Field { tag, data: MessageObject::Varint(value) }, rem)),
            Err(e) => Err(wrap_error(0, e)),
        }
    } else if wt == 1 {
        match I64::from(remainder) {
            Ok((value, rem)) => Ok((Field { tag, data: MessageObject::I64(value) }, rem)),
            Err(e) => Err(wrap_error(1, e)),
        }
    } else if wt == 2 {
        match Len::from(remainder) {
            Ok((value, rem)) => Ok((Field { tag, data: MessageObject::Len(value) }, rem)),
            Err(e) => Err(wrap_error(2, e)),
        }
    } else if wt == 3 {
        if depth == 0 {
            Err(wrap_error(3, ParseError::DepthLimitExceeded))
        } else {
            match crate::group::parse_group_at(tag_value / 8, remainder, depth - 1) {
                Ok((value, rem)) => Ok((Field { tag, data: MessageObject::Group(value) }, rem)),
                Err(e) => Err(wrap_error(3, e)),
            }
        }
    } else if wt == 4 {
        Ok((Field { tag, data: MessageObject::EGroup }, remainder))
    } else if wt == 5 {
        match I32::from(remainder) {
            Ok((value, rem)) => Ok((Field { tag, data: MessageObject::I32(value) }, rem)),
            Err(e) => Err(wrap_error(5, e)),
        }
    } else {
        Err(ParseError::InvalidWireType)
    }
}

} // verus!
