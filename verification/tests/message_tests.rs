use protowire::{
    Field, FieldFault, Group, Len, Message, MessageObject, PackedRepeatedVarint, ParseError,
    Varint, WireData, I32, I64,
};

fn impl_complex_test(data: WireData) {
    // get 1: -13.37.i32
    let (view, remainder) = Field::from(data).unwrap();
    assert!(!remainder.is_empty());
    assert_eq!(view.get_field_id(), 1);
    assert_eq!(
        f32::from_bits(view.into_i32().unwrap().get() as u32),
        -13.37
    );

    // get 2: !{ ... }
    let (view, remainder) = Field::from(remainder).unwrap();
    assert!(!remainder.is_empty());
    assert_eq!(view.get_field_id(), 2);

    let group = view.into_group().unwrap();
    assert_eq!(group.get_fields().len(), 2);
    let child_1 = &group.get_fields()[0];
    let child_2 = &group.get_fields()[1];

    assert_eq!(child_1.get_field_id(), 1);
    assert_eq!(child_2.get_field_id(), 2);

    assert_eq!(
        f64::from_bits(child_1.as_i64().unwrap().get() as u64),
        13.37
    );
    assert_eq!(child_2.as_len().unwrap().as_str().unwrap(), "hello, world!");

    // get 3: { ... }
    let (view, remainder) = Field::from(remainder).unwrap();
    assert!(remainder.is_empty());
    assert_eq!(view.get_field_id(), 3);

    let len = view.into_len().unwrap();

    // get 405: 10101
    let (inner_view, remainder) = Field::from(len.get_data()).unwrap();
    assert!(!remainder.is_empty());
    assert_eq!(inner_view.get_field_id(), 405);
    assert_eq!(inner_view.into_varint().unwrap().get(), 10101);

    // get 32: -5z
    let (inner_view, remainder) = Field::from(remainder).unwrap();
    assert!(!remainder.is_empty());
    assert_eq!(inner_view.get_field_id(), 32);
    assert_eq!(inner_view.into_varint().unwrap().as_proto_sint64(), -5);

    // get 61: { ... }
    let (inner_view, remainder) = Field::from(remainder).unwrap();
    assert!(remainder.is_empty());
    assert_eq!(inner_view.get_field_id(), 61);

    let inner_len = inner_view.into_len().unwrap();

    let mut inner_message = inner_len.into_message().into_iter();
    let repeat_value = inner_message.next().unwrap();
    assert_eq!(repeat_value.get_field_id(), 1);
    assert_eq!(repeat_value.into_len().unwrap().as_str().unwrap(), "hello");
    let repeat_value = inner_message.next().unwrap();
    assert_eq!(repeat_value.get_field_id(), 1);
    assert_eq!(repeat_value.into_len().unwrap().as_str().unwrap(), ",");
    let repeat_value = inner_message.next().unwrap();
    assert_eq!(repeat_value.get_field_id(), 1);
    assert_eq!(repeat_value.into_len().unwrap().as_str().unwrap(), " ");
    let repeat_value = inner_message.next().unwrap();
    assert_eq!(repeat_value.get_field_id(), 1);
    assert_eq!(repeat_value.into_len().unwrap().as_str().unwrap(), "world!");
    assert!(inner_message.next().is_none());
}

#[test]
fn test_encoding() {
    /* Builds the message:
        1: -13.37i32
        2: !{
                1: 13.37
                2: {"hello, world!"}
        }
        3: {
                405: 10101
                32: -5z
                61: {
                        1: {"hello"}
                        1: {","}
                        1: {" "}
                        1: {"world!"}
                }
        }
    */
    // outer message
    let mut outer_message = Message::new();
    let field_1 = Field::new(1, MessageObject::I32(I32::new((-13.37f32).to_bits() as i32)));
    let mut field_2 = Group::with_capacity(2, 2);
    let gfield_1 = Field::new(1, MessageObject::I64(I64::new(13.37f64.to_bits() as i64)));
    let gfield_2 = Field::new(2, MessageObject::Len(Len::new_string("hello, world!")));
    field_2.push(gfield_1);
    field_2.push(gfield_2);

    let mut field_3 = Message::new();
    let mfield_405 = Field::new(405, MessageObject::Varint(Varint::new(10101)));
    let mfield_32 = Field::new(32, MessageObject::Varint(Varint::new_proto_sint64(-5)));

    let mut mfield_61 = Message::new();
    let repeated_1 = Field::new(1, MessageObject::Len(Len::new_string("hello")));
    let repeated_2 = Field::new(1, MessageObject::Len(Len::new_string(",")));
    let repeated_3 = Field::new(1, MessageObject::Len(Len::new_string(" ")));
    let repeated_4 = Field::new(1, MessageObject::Len(Len::new_string("world!")));
    mfield_61.push(repeated_1);
    mfield_61.push(repeated_2);
    mfield_61.push(repeated_3);
    mfield_61.push(repeated_4);

    field_3.push(mfield_405);
    field_3.push(mfield_32);
    field_3.push(Field::new(
        61,
        MessageObject::Len(Len::new_message(mfield_61)),
    ));

    outer_message.push(field_1);
    outer_message.push(Field::new(2, MessageObject::Group(field_2)));
    outer_message.push(Field::new(3, MessageObject::Len(Len::new_message(field_3))));

    let serialized = outer_message.serialize();

    impl_complex_test(serialized);
}

#[test]
fn test_complex() {
    /* The same message, from its expected wire bytes:
    1: -13.37i32
    2: !{
            1: 13.37
            2: {"hello, world!"}
    }
    3: {
            405: 10101
            32: -5z
            61: {
                    1: {"hello"}
                    1: {","}
                    1: {" "}
                    1: {"world!"}
            }
    }
                */
    let data = WireData::new(vec![
        0b00001101, 0b10000101, 0b11101011, 0b01010101, 0b11000001, 0b00010011, 0b00001001,
        0b00111101, 0b00001010, 0b11010111, 0b10100011, 0b01110000, 0b10111101, 0b00101010,
        0b01000000, 0b00010010, 0b00001101, 0b01101000, 0b01100101, 0b01101100, 0b01101100,
        0b01101111, 0b00101100, 0b00100000, 0b01110111, 0b01101111, 0b01110010, 0b01101100,
        0b01100100, 0b00100001, 0b00010100, 0b00011010, 0b00011111, 0b10101000, 0b00011001,
        0b11110101, 0b01001110, 0b10000000, 0b00000010, 0b00001001, 0b11101010, 0b00000011,
        0b00010101, 0b00001010, 0b00000101, 0b01101000, 0b01100101, 0b01101100, 0b01101100,
        0b01101111, 0b00001010, 0b00000001, 0b00101100, 0b00001010, 0b00000001, 0b00100000,
        0b00001010, 0b00000110, 0b01110111, 0b01101111, 0b01110010, 0b01101100, 0b01100100,
        0b00100001,
    ]);

    impl_complex_test(data);
}

#[test]
fn test_encoding_matches_expected_bytes() {
    // The built message serializes to exactly the wire bytes that
    // test_complex parses.
    let mut message = Message::new();
    message.push(Field::new(
        1,
        MessageObject::I32(I32::new((-13.37f32).to_bits() as i32)),
    ));
    let mut group = Group::new(2);
    group.push(Field::new(
        1,
        MessageObject::I64(I64::new(13.37f64.to_bits() as i64)),
    ));
    group.push(Field::new(2, MessageObject::Len(Len::new_string("hello, world!"))));
    message.push(Field::new(2, MessageObject::Group(group)));

    let mut inner = Message::new();
    inner.push(Field::new(405, MessageObject::Varint(Varint::new(10101))));
    inner.push(Field::new(
        32,
        MessageObject::Varint(Varint::new_proto_sint64(-5)),
    ));
    let mut strings = Message::new();
    for s in ["hello", ",", " ", "world!"] {
        strings.push(Field::new(1, MessageObject::Len(Len::new_string(s))));
    }
    inner.push(Field::new(
        61,
        MessageObject::Len(Len::new_message(strings)),
    ));
    message.push(Field::new(3, MessageObject::Len(Len::new_message(inner))));

    let expected: Vec<u8> = vec![
        0x0d, 0x85, 0xeb, 0x55, 0xc1, 0x13, 0x09, 0x3d, 0x0a, 0xd7, 0xa3, 0x70, 0xbd, 0x2a, 0x40,
        0x12, 0x0d, 0x68, 0x65, 0x6c, 0x6c, 0x6f, 0x2c, 0x20, 0x77, 0x6f, 0x72, 0x6c, 0x64, 0x21,
        0x14, 0x1a, 0x1f, 0xa8, 0x19, 0xf5, 0x4e, 0x80, 0x02, 0x09, 0xea, 0x03, 0x15, 0x0a, 0x05,
        0x68, 0x65, 0x6c, 0x6c, 0x6f, 0x0a, 0x01, 0x2c, 0x0a, 0x01, 0x20, 0x0a, 0x06, 0x77, 0x6f,
        0x72, 0x6c, 0x64, 0x21,
    ];
    assert_eq!(message.serialize().as_slice(), expected.as_slice());
}

#[test]
fn test_group_round_trip_field_order() {
    // Order and nesting of group fields survive a serialize/parse cycle,
    // for field id 1 and for the largest protobuf field id, 2^29 - 1.
    for fid in [1u64, (1 << 29) - 1] {
        let mut group = Group::new(fid);
        group.push(Field::new(7, MessageObject::Varint(Varint::new(1))));
        let mut nested = Group::new(9);
        nested.push(Field::new(5, MessageObject::Varint(Varint::new(2))));
        group.push(Field::new(9, MessageObject::Group(nested)));
        group.push(Field::new(8, MessageObject::Varint(Varint::new(3))));

        let field = Field::new(fid, MessageObject::Group(group));
        let bytes = field.serialize();
        let (parsed, rest) = Field::from(bytes).unwrap();
        assert!(rest.is_empty());
        assert_eq!(parsed.get_field_id(), fid);
        let parsed_group = parsed.into_group().unwrap();
        let fields = parsed_group.get_fields();
        assert_eq!(fields.len(), 3);
        assert_eq!(fields[0].get_field_id(), 7);
        assert_eq!(fields[0].as_varint().unwrap().get(), 1);
        assert_eq!(fields[1].get_field_id(), 9);
        let inner = fields[1].as_group().unwrap();
        assert_eq!(inner.get_fields().len(), 1);
        assert_eq!(inner.get_fields()[0].as_varint().unwrap().get(), 2);
        assert_eq!(fields[2].get_field_id(), 8);
        assert_eq!(fields[2].as_varint().unwrap().get(), 3);
    }
}

#[test]
fn test_field_round_trip_bitwise() {
    // parse(serialize([F])) == ([F], empty), bitwise.
    let field = Field::new(12, MessageObject::Len(Len::new_string("abc")));
    let bytes = field.serialize();
    let original: Vec<u8> = bytes.as_slice().to_vec();
    let (parsed, rest) = Field::from(bytes).unwrap();
    assert!(rest.is_empty());
    assert_eq!(parsed.serialize().as_slice(), original.as_slice());
}

#[test]
fn test_message_iteration_order() {
    let mut message = Message::new();
    for (id, value) in [(1u64, 10u64), (2, 20), (1, 30)] {
        message.push(Field::new(id, MessageObject::Varint(Varint::new(value))));
    }
    let mut iter = message.into_iter();
    let f = iter.next().unwrap();
    assert_eq!((f.get_field_id(), f.into_varint().unwrap().get()), (1, 10));
    let f = iter.next().unwrap();
    assert_eq!((f.get_field_id(), f.into_varint().unwrap().get()), (2, 20));
    let f = iter.next().unwrap();
    assert_eq!((f.get_field_id(), f.into_varint().unwrap().get()), (1, 30));
    assert!(iter.next().is_none());
}

#[test]
fn test_message_iteration_lenient_on_error() {
    // A trailing unparsable byte ends iteration silently.
    let mut message = Message::new();
    message.push(Field::new(1, MessageObject::Varint(Varint::new(5))));
    let mut data = message.serialize();
    data.get_mut();
    data.extend_from_slice(&[0b1000_0000]);
    let mut iter = Message::new().into_iter();
    assert!(iter.next().is_none());
    let mut iter = Message(data).into_iter();
    let f = iter.next().unwrap();
    assert_eq!(f.get_field_id(), 1);
    assert!(iter.next().is_none());
    assert!(iter.next().is_none());
}

#[test]
fn test_len_payload_sizes() {
    // Empty, one-byte, and >127-byte payloads; the last forces a two-byte
    // length varint.
    for size in [0usize, 1, 200] {
        let payload = vec![0x41u8; size];
        let mut record = Len::new();
        record.set_bytes(&payload);
        let expected_prefix_len = if size > 127 { 2 } else { 1 };
        assert_eq!(record.length.0.len(), expected_prefix_len);

        let field = Field::new(1, MessageObject::Len(record));
        let bytes = field.serialize();
        let (parsed, rest) = Field::from(bytes).unwrap();
        assert!(rest.is_empty());
        let parsed_len = parsed.into_len().unwrap();
        assert_eq!(parsed_len.get_data().as_slice(), payload.as_slice());
    }
}

#[test]
fn test_len_overrun_and_utf8() {
    let err = Len::from(WireData::new(vec![0x05, 0x01, 0x02])).unwrap_err();
    assert_eq!(err, ParseError::LengthOverrun);

    let (record, _) = Len::from(WireData::new(vec![0x02, 0xff, 0xfe])).unwrap();
    assert_eq!(record.as_str().unwrap_err(), ParseError::InvalidUtf8);
}

#[test]
fn test_invalid_wire_type() {
    // Tag 0b0000_0110: field id 0, wire type 6.
    let err = Field::from(WireData::new(vec![0b0000_0110])).unwrap_err();
    assert_eq!(err, ParseError::InvalidWireType);
}

#[test]
fn test_group_depth_limit() {
    // 101 nested group starts exceed the parser's nesting budget.
    let mut bytes = Vec::new();
    for _ in 0..101 {
        bytes.push(0b0000_1011); // field id 1, start group
    }
    for _ in 0..101 {
        bytes.push(0b0000_1100); // field id 1, end group
    }
    let err = Field::from(WireData::new(bytes)).unwrap_err();
    assert_eq!(
        err,
        ParseError::FieldParseFailure {
            wire_type: 3,
            cause: FieldFault::DepthLimitExceeded
        }
    );

    // 100 levels parse fine.
    let mut bytes = Vec::new();
    for _ in 0..100 {
        bytes.push(0b0000_1011);
    }
    for _ in 0..100 {
        bytes.push(0b0000_1100);
    }
    let (field, rest) = Field::from(WireData::new(bytes)).unwrap();
    assert!(rest.is_empty());
    assert_eq!(field.get_wire_type(), 3);
}

#[test]
fn test_group_truncated_reports_missing_terminator() {
    // A group that never closes fails inside its next field's tag varint.
    let err = Field::from(WireData::new(vec![0b0000_1011])).unwrap_err();
    assert_eq!(
        err,
        ParseError::FieldParseFailure {
            wire_type: 3,
            cause: FieldFault::MissingTerminator
        }
    );
}

#[test]
fn test_packed_varint_round_trip() {
    let values = [0u64, 127, 128, 300, u64::MAX];
    let mut packed = PackedRepeatedVarint::new();
    for v in values {
        packed.push(Varint::new(v));
    }
    let mut iter = packed.into_iter();
    for v in values {
        assert_eq!(iter.next().unwrap().get(), v);
    }
    assert!(iter.next().is_none());
}

#[test]
fn test_packed_fixed_round_trip() {
    let mut packed = protowire::PackedRepeatedI64::new();
    for v in [1i64, -1, i64::MIN] {
        packed.push(I64::new(v));
    }
    let mut iter = packed.into_iter();
    for v in [1i64, -1, i64::MIN] {
        assert_eq!(iter.next().unwrap().get(), v);
    }
    assert!(iter.next().is_none());

    let mut packed = protowire::PackedRepeatedI32::new();
    for v in [7i32, -7] {
        packed.push(I32::new(v));
    }
    let mut iter = packed.into_iter();
    for v in [7i32, -7] {
        assert_eq!(iter.next().unwrap().get(), v);
    }
    assert!(iter.next().is_none());
}

#[test]
fn test_shared_buffer_unchanged_by_other_holder() {
    // A shared buffer's bytes survive another holder's promotion to the
    // owned state and subsequent writes.
    let original = WireData::new(vec![1, 2, 3]);
    let mut other = original.clone();
    other.get_mut();
    other.extend_from_slice(&[9, 9]);
    assert_eq!(original.as_slice(), &[1, 2, 3]);
    assert_eq!(other.as_slice(), &[1, 2, 3, 9, 9]);

    // Promotion for overwriting discards a shared buffer's bytes but keeps
    // an owned buffer's.
    let mut shared = original.clone();
    shared.get_mut_or_default();
    assert_eq!(shared.len(), 0);
    let mut owned = WireData::new_mut(vec![4, 5]);
    owned.get_mut_or_default();
    assert_eq!(owned.as_slice(), &[4, 5]);
    assert_eq!(original.as_slice(), &[1, 2, 3]);
}

#[test]
fn test_split_off_shares_suffix() {
    let mut data = WireData::new(vec![1, 2, 3, 4, 5]);
    let tail = data.split_off(2);
    assert_eq!(data.as_slice(), &[1, 2]);
    assert_eq!(tail.as_slice(), &[3, 4, 5]);
    let mut owned = data.into_mut();
    owned.extend_from_slice(tail.as_slice());
    assert_eq!(owned.as_slice(), &[1, 2, 3, 4, 5]);
}

#[test]
fn test_set_tag_and_tag_helpers() {
    let mut field = Field::new(1, MessageObject::Varint(Varint::new(0)));
    field.set_tag(6, 0);
    assert_eq!(field.get_field_id(), 6);
    assert_eq!(field.get_wire_type(), 0);
    assert_eq!(Field::field_id_from_tag(0b0011_0000), 6);
    assert_eq!(Field::wire_type_from_tag(0b0011_0101), 5);
}

#[test]
fn test_message_object_byte_len() {
    let obj = MessageObject::Len(Len::new_string("hello"));
    assert_eq!(obj.byte_len(), 6);
    let serialized = obj.serialize();
    assert_eq!(serialized.len(), 6);
    assert_eq!(MessageObject::EGroup.byte_len(), 0);
    let v = MessageObject::Varint(Varint::new(u64::MAX));
    assert_eq!(v.byte_len(), 10);

    let mut group = Group::new(1);
    group.push(Field::new(1, MessageObject::Varint(Varint::new(150))));
    let obj = MessageObject::Group(group);
    // tag (1 byte) + varint 150 (2 bytes) + end tag (1 byte)
    assert_eq!(obj.byte_len(), 4);
    assert_eq!(obj.serialize().len(), 4);
}
