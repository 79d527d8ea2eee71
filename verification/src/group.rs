//! A group: fields delimited by a matching pair of start and end tags.
//!
//! A group owns its ordered fields and the end-tag varint that closed it —
//! a tag whose wire type is the end-group code and whose field id matches
//! the group's own.

use vstd::prelude::*;

use crate::field::{fields_view, lemma_fields_view_push, parse_field_at, Field};
use crate::model::{
    encode_u64, graft, lemma_parse_field_consumes, lemma_parse_group_consumes, parse_group,
    wf_fields, FieldView, GROUP_DEPTH_LIMIT,
};
use crate::varint::Varint;
use crate::wire_data::WireData;
use crate::ParseError;

verus! {

broadcast use vstd::std_specs::vec::group_vec_axioms;

/// Ordered fields and the end tag that closes them.
#[derive(Debug)]
pub struct Group {
    pub end_field_id: Varint,
    pub fields: Vec<Field>,
}

impl Group {
    /// The shapes of the group's fields, in order.
    pub open spec fn fields_vw(&self) -> Seq<FieldView> {
        fields_view(self.fields@, 0)
    }

    /// Every field and the end tag are well formed.
    pub open spec fn wf(&self) -> bool {
        wf_fields(self.fields_vw(), 0) && self.end_field_id.wf()
    }

    /// An empty group for field id `field_id`: its end tag packs the id
    /// with the end-group wire-type code. Ids above 2^61 - 1 would not fit
    /// the tag.
    pub fn new(field_id: u64) -> (r: Self)
        requires
            field_id <= 0x1fff_ffff_ffff_ffff,
        ensures
            r.fields@.len() == 0,
            r.end_field_id@ == encode_u64((8 * field_id + 4) as u64),
            r.wf(),
    {
        Group { end_field_id: Varint::new(field_id * 8 + 4), fields: Vec::new() }
    }

    /// An empty group with room reserved for its fields.
    pub fn with_capacity(field_id: u64, capacity: usize) -> (r: Self)
        requires
            field_id <= 0x1fff_ffff_ffff_ffff,
        ensures
            r.fields@.len() == 0,
            r.end_field_id@ == encode_u64((8 * field_id + 4) as u64),
            r.wf(),
    {
        Group { end_field_id: Varint::new(field_id * 8 + 4), fields: Vec::with_capacity(capacity) }
    }

    /// Parses the body of a group with field id `field_id` off the front of
    /// `data`, with the full nesting budget: fields accumulate until an
    /// end-group tag with the matching field id closes the group and is kept
    /// as its end tag.
    pub fn from(field_id: u64, data: WireData) -> (r: Result<(Self, WireData), ParseError>)
        ensures
            match r {
                Ok(p) => {
                    &&& parse_group(field_id, data@, GROUP_DEPTH_LIMIT as nat) == Ok::<
                        _,
                        ParseError,
                    >((p.0.fields_vw(), p.0.end_field_id@, p.1@))
                    &&& p.0.wf()
                },
                Err(e) => parse_group(field_id, data@, GROUP_DEPTH_LIMIT as nat) == Err::<
                    (Seq<FieldView>, Seq<u8>, Seq<u8>),
                    _,
                >(e),
            },
    {
        parse_group_at(field_id, data, GROUP_DEPTH_LIMIT)
    }

    /// The fields, in order.
    pub fn get_fields(&self) -> (r: &Vec<Field>)
        ensures
            *r == self.fields,
    {
        &self.fields
    }

    /// The fields, in order, consuming the group.
    pub fn take_fields(self) -> (r: Vec<Field>)
        ensures
            r == self.fields,
    {
        self.fields
    }

    /// Replaces the fields.
    pub fn set_fields(&mut self, fields: Vec<Field>)
        ensures
            final(self).fields == fields,
            final(self).end_field_id == old(self).end_field_id,
    {
        self.fields = fields;
    }

    /// Appends a field.
    pub fn push(&mut self, f: Field)
        ensures
            final(self).fields@ == old(self).fields@.push(f),
            final(self).fields_vw() == old(self).fields_vw() + seq![f.view()],
            final(self).end_field_id == old(self).end_field_id,
    {
        proof {
            lemma_fields_view_push(self.fields@, f, 0);
        }
        self.fields.push(f);
    }
}

/// Parses a group body off the front of `data` with `depth` levels of
/// nesting still allowed inside its fields.
#[verifier::rlimit(60)]
#[verifier::loop_isolation(false)]
pub(crate) fn parse_group_at(field_id: u64, data: WireData, depth: u64) -> (r: Result<
    (Group, WireData),
    ParseError,
>)
    ensures
        match r {
            Ok(p) => {
                &&& parse_group(field_id, data@, depth as nat) == Ok::<_, ParseError>(
                    (p.0.fields_vw(), p.0.end_field_id@, p.1@),
                )
                &&& p.0.wf()
            },
            Err(e) => parse_group(field_id, data@, depth as nat) == Err::<
                (Seq<FieldView>, Seq<u8>, Seq<u8>),
                _,
            >(e),
        },
    decreases data@.len(), 1int,
{
    let ghost s0 = data@;
    let mut fields: Vec<Field> = Vec::new();
    let mut current = data;
    loop
        invariant
            current@.len() <= s0.len(),
            graft(fields_view(fields@, 0), parse_group(field_id, current@, depth as nat))
                == parse_group(field_id, s0, depth as nat),
        decreases current@.len(),
    {
        let ghost cur = current@;
        let ghost acc = fields_view(fields@, 0);
        proof {
            lemma_parse_field_consumes(cur, depth as nat);
        }
        let (field, remainder) = match parse_field_at(current, depth) {
            Ok(p) => p,
            Err(e) => {
                return Err(e);
            },
        };
        let is_end = match &field.data {
            crate::message_object::MessageObject::EGroup => true,
            _ => false,
        };
        if is_end && field.get_field_id() == field_id {
            let group = Group { end_field_id: field.tag, fields };
            proof {
                assert(acc + Seq::<FieldView>::empty() =~= acc);
                lemma_parse_group_consumes(field_id, s0, depth as nat);
            }
            return Ok((group, remainder));
        }
        proof {
            lemma_fields_view_push(fields@, field, 0);
            let next_acc = acc + seq![field.view()];
            if parse_group(field_id, remainder@, depth as nat) is Ok {
                let g = parse_group(field_id, remainder@, depth as nat)->Ok_0;
                assert(acc + (seq![field.view()] + g.0) =~= next_acc + g.0);
            }
        }
        fields.push(field);
        current = remainder;
    }
}

} // verus!
