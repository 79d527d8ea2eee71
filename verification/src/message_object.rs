//! The payload of a field: one of the six wire forms.

use vstd::prelude::*;

use crate::field::{fields_view, lemma_fields_view_props, Field};
use crate::fixed32::I32;
use crate::fixed64::I64;
use crate::group::Group;
use crate::len::Len;
use crate::model::{obj_wire_type, ser_field, ser_fields, ser_obj, ObjView};
use crate::varint::Varint;
use crate::wire_data::WireData;

verus! {

broadcast use vstd::std_specs::vec::group_vec_axioms;

/// A discriminated payload: varint, eight-byte, length-delimited, group,
/// end-group sentinel, or four-byte. The sentinel arises only while parsing
/// a group; callers never construct one into a message.
#[derive(Debug)]
pub enum MessageObject {
    Varint(Varint),
    I64(I64),
    Len(Len),
    Group(Group),
    EGroup,
    I32(I32),
}

impl MessageObject {
    /// The payload's shape: its bytes, arm by arm.
    pub open spec fn view(&self) -> ObjView
        decreases self, 0int,
    {
        match self {
            MessageObject::Varint(v) => ObjView::Varint(v@),
            MessageObject::I64(v) => ObjView::I64(v@),
            MessageObject::Len(l) => ObjView::Len { length: l.length@, inner: l.inner@ },
            MessageObject::Group(g) => ObjView::Group {
                fields: fields_view(g.fields@, 0),
                end_tag: g.end_field_id@,
            },
            MessageObject::EGroup => ObjView::EGroup,
            MessageObject::I32(v) => ObjView::I32(v@),
        }
    }

    /// The wire-type code this payload serializes under.
    pub fn wire_type(&self) -> (r: u64)
        ensures
            r == obj_wire_type(self.view()),
    {
        match self {
            MessageObject::Varint(_) => 0,
            MessageObject::I64(_) => 1,
            MessageObject::Len(_) => 2,
            MessageObject::Group(_) => 3,
            MessageObject::EGroup => 4,
            MessageObject::I32(_) => 5,
        }
    }

    /// The payload's wire bytes in a fresh owned buffer.
    pub fn serialize(&self) -> (r: WireData)
        ensures
            r@ == ser_obj(self.view()),
    {
        let mut dest: Vec<u8> = Vec::new();
        self.serialize_into(&mut dest);
        WireData::new_mut(dest)
    }

    /// Appends the payload's wire bytes: a group writes its fields in order
    /// and then its end tag; the end-group sentinel writes nothing.
    #[verifier::loop_isolation(false)]
    pub(crate) fn serialize_into(&self, dest: &mut Vec<u8>)
        ensures
            final(dest)@ == old(dest)@ + ser_obj(self.view()),
        decreases self, 1int,
    {
        match self {
            MessageObject::Varint(v) => dest.extend_from_slice(v.0.as_slice()),
            MessageObject::I64(v) => dest.extend_from_slice(v.0.as_slice()),
            MessageObject::Len(l) => {
                dest.extend_from_slice(l.length.0.as_slice());
                dest.extend_from_slice(l.inner.as_slice());
                proof {
                    assert(dest@ =~= old(dest)@ + ser_obj(self.view()));
                }
            },
            MessageObject::Group(g) => {
                let ghost fsv = fields_view(g.fields@, 0);
                proof {
                    lemma_fields_view_props(g.fields@, 0);
                }
                let n = g.fields.len();
                let mut j: usize = 0;
                while j < n
                    invariant
                        j <= n == g.fields@.len(),
                        fsv == fields_view(g.fields@, 0),
                        fsv.len() == n,
                        forall|k: int| 0 <= k < n ==> fsv[k] == g.fields@[k].view(),
                        dest@ + ser_fields(fsv, j as int) == old(dest)@ + ser_fields(fsv, 0),
                    decreases n - j,
                {
                    let ghost before = dest@;
                    proof {
                        assert(decreases_to!(g.fields => g.fields[j as int]));
                    }
                    g.fields[j].serialize_into(dest);
                    proof {
                        assert(ser_fields(fsv, j as int) == ser_field(fsv[j as int]) + ser_fields(
                            fsv,
                            j as int + 1,
                        ));
                        assert(dest@ + ser_fields(fsv, j as int + 1) =~= old(dest)@ + ser_fields(
                            fsv,
                            0,
                        ));
                    }
                    j += 1;
                }
                dest.extend_from_slice(g.end_field_id.0.as_slice());
                proof {
                    assert(ser_fields(fsv, n as int) =~= Seq::<u8>::empty());
                    assert(dest@ =~= old(dest)@ + ser_obj(self.view()));
                }
            },
            MessageObject::EGroup => {
                proof {
                    assert(dest@ =~= old(dest)@ + ser_obj(self.view()));
                }
            },
            MessageObject::I32(v) => dest.extend_from_slice(v.0.as_slice()),
        }
    }

    /// The exact count of bytes `serialize` would write.
    #[verifier::loop_isolation(false)]
    pub fn byte_len(&self) -> (r: usize)
        requires
            ser_obj(self.view()).len() <= usize::MAX,
        ensures
            r == ser_obj(self.view()).len(),
        decreases self, 1int,
    {
        match self {
            MessageObject::Varint(v) => v.0.len(),
            MessageObject::I64(v) => v.0.len(),
            MessageObject::Len(l) => l.length.0.len() + l.inner.len(),
            MessageObject::Group(g) => {
                let ghost fsv = fields_view(g.fields@, 0);
                proof {
                    lemma_fields_view_props(g.fields@, 0);
                }
                let n = g.fields.len();
                let mut total: usize = 0;
                let mut j: usize = 0;
                while j < n
                    invariant
                        j <= n == g.fields@.len(),
                        fsv == fields_view(g.fields@, 0),
                        fsv.len() == n,
                        forall|k: int| 0 <= k < n ==> fsv[k] == g.fields@[k].view(),
                        ser_obj(self.view()) == ser_fields(fsv, 0) + g.end_field_id@,
                        ser_obj(self.view()).len() <= usize::MAX,
                        total + ser_fields(fsv, j as int).len() == ser_fields(fsv, 0).len(),
                    decreases n - j,
                {
                    proof {
                        assert(ser_fields(fsv, j as int) == ser_field(fsv[j as int]) + ser_fields(
                            fsv,
                            j as int + 1,
                        ));
                    }
                    let field = &g.fields[j];
                    proof {
                        assert(decreases_to!(g.fields => g.fields[j as int]));
                    }
                    total = total + field.tag.0.len();
                    total = total + field.data.byte_len();
                    j += 1;
                }
                proof {
                    assert(ser_fields(fsv, n as int) =~= Seq::<u8>::empty());
                }
                total + g.end_field_id.0.len()
            },
            MessageObject::EGroup => 0,
            MessageObject::I32(v) => v.0.len(),
        }
    }
}

} // verus!
