use protowire::{Field, MessageObject, ParseError, WireData, I32, I64};

#[test]
fn test_i64_view() {
    // testing I64 1 (via protoscope | xxd -b)
    let data = WireData::new(vec![
        0b00001001, 0b00000001, 0b00000000, 0b00000000, 0b00000000, 0b00000000, 0b00000000,
        0b00000000, 0b00000000,
    ]);
    let (field, remainder) = Field::from(data).unwrap();
    assert!(remainder.is_empty());
    let value = field.get_data();
    assert_eq!(field.get_field_id(), 1);
    assert_eq!(field.get_wire_type(), 1);
    let MessageObject::I64(view) = value else {
        panic!("Value must be I64")
    };
    assert_eq!(view.get(), 1);

    // testing I64 -524 (via protoscope | xxd -b)
    let data = WireData::new(vec![
        0b00001001, 0b11110100, 0b11111101, 0b11111111, 0b11111111, 0b11111111, 0b11111111,
        0b11111111, 0b11111111,
    ]);
    let (field, remainder) = Field::from(data).unwrap();
    assert!(remainder.is_empty());
    let value = field.get_data();
    assert_eq!(field.get_field_id(), 1);
    assert_eq!(field.get_wire_type(), 1);
    let MessageObject::I64(view) = value else {
        panic!("Value must be I64")
    };
    assert_eq!(view.get(), -524);

    // testing I64 13.37 double (via protoscope | xxd -b)
    let data = WireData::new(vec![
        0b00001001, 0b00111101, 0b00001010, 0b11010111, 0b10100011, 0b01110000, 0b10111101,
        0b00101010, 0b01000000,
    ]);
    let (field, remainder) = Field::from(data).unwrap();
    assert!(remainder.is_empty());
    let value = field.get_data();
    assert_eq!(field.get_field_id(), 1);
    assert_eq!(field.get_wire_type(), 1);
    let MessageObject::I64(view) = value else {
        panic!("Value must be I64")
    };
    assert_eq!(f64::from_bits(view.get() as u64), 13.37);
}

#[test]
fn test_i32_view() {
    // testing I32 1 (via protoscope | xxd -b)
    let data = WireData::new(vec![
        0b00001101, 0b00000001, 0b00000000, 0b00000000, 0b00000000,
    ]);
    let (field, remainder) = Field::from(data).unwrap();
    assert!(remainder.is_empty());
    let value = field.get_data();
    assert_eq!(field.get_field_id(), 1);
    assert_eq!(field.get_wire_type(), 5);
    let MessageObject::I32(view) = value else {
        panic!("Value must be I32")
    };
    assert_eq!(view.get(), 1);

    // testing I32 -524 (via protoscope | xxd -b)
    let data = WireData::new(vec![
        0b00001101, 0b11110100, 0b11111101, 0b11111111, 0b11111111,
    ]);
    let (field, remainder) = Field::from(data).unwrap();
    assert!(remainder.is_empty());
    let value = field.get_data();
    assert_eq!(field.get_field_id(), 1);
    assert_eq!(field.get_wire_type(), 5);
    let MessageObject::I32(view) = value else {
        panic!("Value must be I32")
    };
    assert_eq!(view.get(), -524);

    // testing I32 -13.37 float (via protoscope | xxd -b)
    let data = WireData::new(vec![
        0b00001101, 0b10000101, 0b11101011, 0b01010101, 0b11000001,
    ]);
    let (field, remainder) = Field::from(data).unwrap();
    assert!(remainder.is_empty());
    let value = field.get_data();
    assert_eq!(field.get_field_id(), 1);
    assert_eq!(field.get_wire_type(), 5);
    let MessageObject::I32(view) = value else {
        panic!("Value must be I32")
    };
    assert_eq!(f32::from_bits(view.get() as u32), -13.37);
}

#[test]
fn test_i32_special_float_bits() {
    // -0.0, NaN and the infinities survive the carrier bit for bit.
    let specials: [f32; 4] = [-0.0, f32::NAN, f32::INFINITY, f32::NEG_INFINITY];
    for x in specials {
        let carrier = I32::new(x.to_bits() as i32);
        assert_eq!(carrier.get() as u32, x.to_bits());
        let roundtrip = f32::from_bits(carrier.get() as u32);
        assert_eq!(roundtrip.to_bits(), x.to_bits());
    }
}

#[test]
fn test_i32_set_get() {
    let mut c = I32::new(0);
    c.set(-1);
    assert_eq!(c.get(), -1);
    assert_eq!(c.0.as_slice(), &[0xff, 0xff, 0xff, 0xff]);
    c.set(0x01020304);
    assert_eq!(c.0.as_slice(), &[0x04, 0x03, 0x02, 0x01]);
    assert_eq!(c.get(), 0x01020304);
}

#[test]
fn test_i64_set_get() {
    let mut c = I64::new(0);
    c.set(-2);
    assert_eq!(c.get(), -2);
    assert_eq!(
        c.0.as_slice(),
        &[0xfe, 0xff, 0xff, 0xff, 0xff, 0xff, 0xff, 0xff]
    );
    c.set(0x0102030405060708);
    assert_eq!(
        c.0.as_slice(),
        &[0x08, 0x07, 0x06, 0x05, 0x04, 0x03, 0x02, 0x01]
    );
}

#[test]
fn test_fixed_insufficient_bytes() {
    let err = I32::from(WireData::new(vec![1, 2, 3])).unwrap_err();
    assert_eq!(err, ParseError::InsufficientBytes);
    let err = I64::from(WireData::new(vec![1, 2, 3, 4, 5, 6, 7])).unwrap_err();
    assert_eq!(err, ParseError::InsufficientBytes);
    // Propagated through a field, the failure names the wire type.
    let err = Field::from(WireData::new(vec![0b00001101, 1, 2])).unwrap_err();
    assert_eq!(
        err,
        ParseError::FieldParseFailure {
            wire_type: 5,
            cause: protowire::FieldFault::InsufficientBytes
        }
    );
}
