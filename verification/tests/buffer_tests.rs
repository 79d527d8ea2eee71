use protowire::{
    Field, Group, Len, Message, MessageObject, PackedRepeatedI64, Varint, WireData,
};

#[test]
fn test_len_string_views() {
    let mut record = Len::new_string("héllo");
    assert_eq!(record.as_str().unwrap(), "héllo");
    assert_eq!(record.get_data().len(), 6); // é takes two bytes
    record.set_str("plain");
    assert_eq!(record.as_str().unwrap(), "plain");
    assert_eq!(record.length.get(), 5);
}

#[test]
fn test_len_message_round_trip() {
    let mut inner = Message::new();
    inner.push(Field::new(4, MessageObject::Varint(Varint::new(99))));
    let record = Len::new_message(inner);
    let mut iter = record.into_message().into_iter();
    let f = iter.next().unwrap();
    assert_eq!(f.get_field_id(), 4);
    assert_eq!(f.into_varint().unwrap().get(), 99);
    assert!(iter.next().is_none());
}

#[test]
fn test_len_set_packed_repeated() {
    let mut packed = protowire::PackedRepeatedVarint::new();
    packed.push(Varint::new(7));
    packed.push(Varint::new(300));
    let mut record = Len::with_capacity(4);
    record.set_packed_repeated_varint(packed);
    assert_eq!(record.length.get(), 3); // one byte + two bytes
    let mut iter = record.into_packed_repeated_varint().into_iter();
    assert_eq!(iter.next().unwrap().get(), 7);
    assert_eq!(iter.next().unwrap().get(), 300);
    assert!(iter.next().is_none());
}

#[test]
fn test_packed_iter_drops_partial_element() {
    // Nine bytes of eight-byte elements: one whole element, one byte over.
    let mut record = Len::new();
    record.set_bytes(&[1, 0, 0, 0, 0, 0, 0, 0, 5]);
    let mut iter = record.into_packed_repeated_i64().into_iter();
    assert_eq!(iter.next().unwrap().get(), 1);
    assert!(iter.next().is_none());
    assert!(iter.next().is_none());
}

#[test]
fn test_packed_i64_set_on_len() {
    let mut packed = PackedRepeatedI64::new();
    packed.push(protowire::I64::new(-1));
    let mut record = Len::new();
    record.set_packed_repeated_i64(packed);
    assert_eq!(record.length.get(), 8);
    let mut packed32 = protowire::PackedRepeatedI32::new();
    packed32.push(protowire::I32::new(3));
    record.set_packed_repeated_i32(packed32);
    assert_eq!(record.length.get(), 4);
}

#[test]
fn test_defaults() {
    assert_eq!(Varint::default().get(), 0);
    assert_eq!(protowire::I32::default().get(), 0);
    assert_eq!(protowire::I64::default().get(), 0);
    assert_eq!(Len::default().length.get(), 0);
    assert!(Message::default().serialize().is_empty());
    assert!(protowire::PackedRepeatedVarint::default().0.is_empty());
}

#[test]
fn test_get_data_mut_and_set_data() {
    let mut field = Field::new(3, MessageObject::Varint(Varint::new(1)));
    match field.get_data_mut() {
        MessageObject::Varint(v) => v.set(2),
        _ => panic!("payload must be a varint"),
    }
    assert_eq!(field.as_varint().unwrap().get(), 2);
    field.set_data(MessageObject::Len(Len::new_string("x")));
    field.set_tag(3, 2);
    let bytes = field.serialize();
    let (parsed, rest) = Field::from(bytes).unwrap();
    assert!(rest.is_empty());
    assert_eq!(parsed.into_len().unwrap().as_str().unwrap(), "x");
}

#[test]
fn test_group_take_and_set_fields() {
    let mut group = Group::new(5);
    group.push(Field::new(1, MessageObject::Varint(Varint::new(11))));
    let fields = group.take_fields();
    assert_eq!(fields.len(), 1);
    let mut group = Group::new(5);
    group.set_fields(fields);
    assert_eq!(group.get_fields().len(), 1);
    assert_eq!(group.get_fields()[0].as_varint().unwrap().get(), 11);
}

#[test]
fn test_mismatched_end_group_is_stored() {
    // An end-group tag for another field id is kept as an ordinary field.
    let bytes = vec![
        0b0001_0100, // field id 2, end group: not this group's terminator
        0b0000_1100, // field id 1, end group: terminates the group
    ];
    let (group, rest) = Group::from(1, WireData::new(bytes)).unwrap();
    assert!(rest.is_empty());
    assert_eq!(group.get_fields().len(), 1);
    assert_eq!(group.get_fields()[0].get_field_id(), 2);
    assert_eq!(group.get_fields()[0].get_wire_type(), 4);
}

#[test]
fn test_wire_data_modes() {
    let shared = WireData::new(vec![1, 2]);
    let owned = shared.clone().into_mut();
    assert_eq!(owned.as_slice(), shared.as_slice());
    assert_eq!(WireData::new_mut(vec![3]).len(), 1);
    assert!(WireData::new(Vec::new()).is_empty());
}
