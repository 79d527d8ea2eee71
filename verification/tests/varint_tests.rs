use protowire::{Field, MessageObject, Varint, WireData};

#[test]
fn test_varint_encoding() {
    assert_eq!(
        &Varint::encode(150),
        &[
            0b10010110, 0b00000001, 0b00000000, 0b00000000, 0b00000000, 0b00000000, 0b00000000,
            0b00000000, 0b00000000, 0b00000000
        ]
    );

    assert_eq!(
        &Varint::encode(-2i64 as u64),
        &[
            0b11111110, 0b11111111, 0b11111111, 0b11111111, 0b11111111, 0b11111111, 0b11111111,
            0b11111111, 0b11111111, 0b00000001
        ]
    );

    assert_eq!(&Varint::encode(2), &Varint::encode_sint64(1));
    assert_eq!(&Varint::encode(3), &Varint::encode_sint64(-2));

    assert_eq!(
        &Varint::encode(0xfffffffe),
        &Varint::encode_sint64(0x7fffffff)
    );

    assert_eq!(&Varint::encode(2), &Varint::encode_sint32(1));
    assert_eq!(&Varint::encode(3), &Varint::encode_sint32(-2));

    assert_eq!(
        &Varint::encode(0xfffffffe),
        &Varint::encode_sint32(0x7fffffff)
    );
}

#[test]
fn test_varint_view() {
    // basic u64 (example from protobuf protocol documentation)
    let data = WireData::new(vec![0b10010110, 0b0000001]);
    let (view, _) = Varint::from(data).unwrap();
    assert_eq!(view.get(), 150);

    // testing int64 2's complement (example from protobuf protocol documentation)
    let data = WireData::new(vec![
        0b11111110, 0b11111111, 0b11111111, 0b11111111, 0b11111111, 0b11111111, 0b11111111,
        0b11111111, 0b11111111, 0b00000001,
    ]);
    let (view, _) = Varint::from(data).unwrap();
    assert_eq!(view.as_proto_int64(), -2);

    // testing int32 2's complement (derived)
    let data = WireData::new(vec![
        0b11111011, 0b11111111, 0b11111111, 0b11111111, 0b00001111,
    ]);
    let (view, _) = Varint::from(data).unwrap();
    assert_eq!(view.as_proto_int32(), -5);

    // testing sint32/64 -500 zigzag (via protoscope | xxd -b)
    let data = WireData::new(vec![0b00001000, 0b11100111, 0b00000111]);
    let (field, remainder) = Field::from(data).unwrap();
    assert!(remainder.is_empty());
    let value = field.get_data();
    assert_eq!(field.get_field_id(), 1);
    assert_eq!(field.get_wire_type(), 0);
    let MessageObject::Varint(view) = value else {
        panic!("Value must be Varint")
    };
    assert_eq!(view.as_proto_sint64(), -500);
    assert_eq!(view.as_proto_sint32(), -500);
}

#[test]
fn test_varint_boundary_values() {
    let cases: [(u64, usize); 8] = [
        (0, 1),
        (127, 1),
        (128, 2),
        (16383, 2),
        (16384, 3),
        (0x7fff_ffff_ffff_ffff, 9),
        (0x8000_0000_0000_0000, 10),
        (u64::MAX, 10),
    ];
    for (value, expected_len) in cases {
        let v = Varint::new(value);
        assert_eq!(v.get(), value);
        assert_eq!(v.0.len(), expected_len);
        // The ten-byte buffer from `encode` holds the same wire bytes,
        // zero-padded.
        let raw = Varint::encode(value);
        assert_eq!(&raw[..expected_len], v.0.as_slice());
        for byte in &raw[expected_len..] {
            assert_eq!(*byte, 0);
        }
        // Re-parsing the wire bytes recovers the value.
        let data = WireData::new(v.0.as_slice().to_vec());
        let (parsed, rest) = Varint::from(data).unwrap();
        assert_eq!(parsed.get(), value);
        assert!(rest.is_empty());
    }
}

#[test]
fn test_varint_set_replaces_value() {
    let mut v = Varint::new(1);
    v.set(300);
    assert_eq!(v.get(), 300);
    assert_eq!(v.0.as_slice(), &[0b1010_1100, 0b0000_0010]);
    v.set_proto_int64(-1);
    assert_eq!(v.as_proto_int64(), -1);
    assert_eq!(v.0.len(), 10);
    v.set_proto_int32(-1);
    assert_eq!(v.as_proto_int32(), -1);
    assert_eq!(v.get(), 0xffff_ffff);
    v.set_proto_sint32(-3);
    assert_eq!(v.get(), 5);
    assert_eq!(v.as_proto_sint32(), -3);
    v.set_proto_sint64(1234567);
    assert_eq!(v.as_proto_sint64(), 1234567);
}

#[test]
fn test_varint_set_raw_trims_trailing_zeros() {
    let mut v = Varint::new(0);
    let mut raw = [0u8; 10];
    raw[0] = 0b0001_0110; // payload 22, no continuation bit yet
    raw[1] = 0b0000_0001;
    v.set_raw(raw);
    // Byte 0 gains its continuation bit; bytes 2..9 are trimmed away.
    assert_eq!(v.0.as_slice(), &[0b1001_0110, 0b0000_0001]);
    assert_eq!(v.get(), 150);
}

#[test]
fn test_sint64_view_keeps_sign_bit_when_halving() {
    // The zigzag view halves the payload bits reinterpreted as signed, so
    // on images at 2^63 and above the sign bit stays in place: the zigzag
    // round trip holds below that bound and not at it.
    let v = Varint::new(0x8000_0000_0000_0000);
    assert_eq!(v.as_proto_sint64(), -(1i64 << 62));
    let v = Varint::new_proto_sint64(1 << 62);
    assert_eq!(v.get(), 0x8000_0000_0000_0000);
    assert_eq!(v.as_proto_sint64(), -(1i64 << 62));
    // One step below the bound, the round trip holds.
    let v = Varint::new_proto_sint64((1 << 62) - 1);
    assert_eq!(v.as_proto_sint64(), (1 << 62) - 1);
    let v = Varint::new_proto_sint64(-(1i64 << 62));
    assert_eq!(v.as_proto_sint64(), -(1i64 << 62));
}

#[test]
fn test_varint_missing_terminator() {
    let data = WireData::new(vec![0b1000_0000, 0b1000_0001]);
    let err = Varint::from(data).unwrap_err();
    assert_eq!(err, protowire::ParseError::MissingTerminator);
}

#[test]
fn test_varint_too_long() {
    let mut bytes = vec![0b1000_0001u8; 10];
    bytes.push(0b0000_0001);
    let data = WireData::new(bytes);
    let err = Varint::from(data).unwrap_err();
    assert_eq!(err, protowire::ParseError::VarintTooLong);
}
