//! A message: the concatenated wire bytes of a sequence of fields.
//!
//! Producing is append-only: each pushed field is serialized onto the end of
//! the buffer. Consuming is lazy: an iterator parses one field at a time and
//! ends, silently, at the first byte it cannot parse.

use vstd::prelude::*;

use crate::field::Field;
use crate::model::{
    lemma_parse_field_consumes, lemma_ser_fields_cons, parse_field, ser_field, ser_fields,
    FieldView, GROUP_DEPTH_LIMIT,
};
use crate::wire_data::WireData;

verus! {

/// A buffer holding zero or more serialized fields, back to back.
#[derive(Debug)]
pub struct Message(pub WireData);

impl View for Message {
    type V = Seq<u8>;

    open spec fn view(&self) -> Seq<u8> {
        self.0@
    }
}

impl Message {
    /// An empty message.
    pub fn new() -> (r: Self)
        ensures
            r@.len() == 0,
    {
        Message(WireData::new_mut(Vec::new()))
    }

    /// An empty message with room reserved.
    pub fn with_capacity(capacity: usize) -> (r: Self)
        ensures
            r@.len() == 0,
    {
        let _ = capacity;
        Self::new()
    }

    /// Appends the wire bytes of `f`: its tag varint, then its payload.
    pub fn push(&mut self, f: Field)
        ensures
            final(self)@ == old(self)@ + ser_field(f.view()),
    {
        let mut buf: Vec<u8> = Vec::new();
        f.serialize_into(&mut buf);
        self.0.get_mut();
        self.0.extend_from_slice(buf.as_slice());
    }

    /// The message's buffer, fields in push order.
    pub fn serialize(self) -> (r: WireData)
        ensures
            r@ == self@,
    {
        self.0
    }

    /// An iterator over the message's fields, front to back.
    pub fn into_iter(self) -> (r: MessageIter)
        ensures
            r@ == self@,
    {
        MessageIter(self)
    }
}

impl Default for Message {
    /// The empty message.
    fn default() -> (r: Self)
        ensures
            r@.len() == 0,
    {
        Self::new()
    }
}

/// A lazy field iterator over a message's remaining bytes.
pub struct MessageIter(pub Message);

impl View for MessageIter {
    type V = Seq<u8>;

    open spec fn view(&self) -> Seq<u8> {
        self.0@
    }
}

impl MessageIter {
    /// The next field, parsed off the front of the remaining bytes. Ends at
    /// the end of the buffer; a parse failure also ends iteration, dropping
    /// the unparsable remainder. Callers wanting strict parsing parse fields
    /// by hand and check the tail.
    pub fn next(&mut self) -> (r: Option<Field>)
        ensures
            match r {
                Some(f) => {
                    &&& parse_field(old(self)@, GROUP_DEPTH_LIMIT as nat) matches Ok(p)
                    &&& f.view() == p.0
                    &&& final(self)@ == p.1
                    &&& f.wf()
                },
                None => {
                    ||| (old(self)@.len() == 0 && final(self)@ == old(self)@)
                    ||| (old(self)@.len() > 0 && parse_field(old(self)@, GROUP_DEPTH_LIMIT as nat)
                        is Err && final(self)@.len() == 0)
                },
            },
    {
        if self.0 .0.is_empty() {
            return None;
        }
        let mut data = WireData::new(Vec::new());
        core::mem::swap(&mut self.0 .0, &mut data);
        match Field::from(data) {
            Ok((field, remainder)) => {
                self.0 .0 = remainder;
                Some(field)
            },
            Err(_) => None,
        }
    }
}


/// The fields that lazy iteration yields from a message's bytes: parse one
/// field at a time, stopping at the end of the buffer or at the first parse
/// failure. The guard on the remainder is never false, since a parsed field
/// consumes at least one byte; it keeps the recursion visibly bounded.
pub open spec fn message_fields(s: Seq<u8>) -> Seq<FieldView>
    decreases s.len(),
{
    if s.len() == 0 {
        Seq::empty()
    } else {
        match parse_field(s, GROUP_DEPTH_LIMIT as nat) {
            Ok((f, rem)) => if rem.len() < s.len() {
                seq![f] + message_fields(rem)
            } else {
                Seq::empty()
            },
            Err(_) => Seq::empty(),
        }
    }
}

/// True when iteration consumes the whole buffer without a parse failure.
pub open spec fn message_parses_cleanly(s: Seq<u8>) -> bool
    decreases s.len(),
{
    if s.len() == 0 {
        true
    } else {
        match parse_field(s, GROUP_DEPTH_LIMIT as nat) {
            Ok((f, rem)) => rem.len() < s.len() && message_parses_cleanly(rem),
            Err(_) => false,
        }
    }
}

/// A message is exactly the concatenation of its fields' wire bytes: when a
/// buffer parses cleanly, serializing the fields its iteration yields, in
/// order, rebuilds the buffer bit for bit.
pub proof fn lemma_message_is_field_concat(s: Seq<u8>)
    requires
        message_parses_cleanly(s),
    ensures
        ser_fields(message_fields(s), 0) == s,
    decreases s.len(),
{
    if s.len() == 0 {
        assert(message_fields(s) =~= Seq::<FieldView>::empty());
        assert(ser_fields(message_fields(s), 0) =~= s);
    } else {
        lemma_parse_field_consumes(s, GROUP_DEPTH_LIMIT as nat);
        let (f, rem) = parse_field(s, GROUP_DEPTH_LIMIT as nat)->Ok_0;
        lemma_message_is_field_concat(rem);
        lemma_ser_fields_cons(f, message_fields(rem));
        assert(ser_field(f) + ser_fields(message_fields(rem), 0) =~= s);
    }
}

} // verus!
