use anchor::codec::{
    are_encodable, decode_item, decode_values, encode_all, encode_value, encode_values,
    is_encodable, ArgKind, DecodeError, Value,
};
use anchor::endian::{read_le, write_le};

#[test]
fn integers_are_little_endian() {
    let bytes = [0x01u8, 0x02, 0x03, 0x04, 0x05, 0x06, 0x07, 0x08];
    assert_eq!(read_le(&bytes, 0, 1), 0x01);
    assert_eq!(read_le(&bytes, 0, 2), 0x0201);
    assert_eq!(read_le(&bytes, 0, 4), 0x0403_0201);
    assert_eq!(read_le(&bytes, 0, 8), 0x0807_0605_0403_0201);
    assert_eq!(read_le(&bytes, 6, 2), 0x0807);
    assert_eq!(read_le(&bytes, 3, 0), 0);
}

#[test]
fn integers_are_written_least_significant_first() {
    let mut out = vec![0xffu8];
    write_le(&mut out, 0x0102_0304, 4);
    assert_eq!(out, vec![0xff, 0x04, 0x03, 0x02, 0x01]);
    write_le(&mut out, 0x1ff, 1);
    assert_eq!(out, vec![0xff, 0x04, 0x03, 0x02, 0x01, 0xff]);
    write_le(&mut out, 7, 0);
    assert_eq!(out.len(), 6);
}

#[test]
fn each_kind_has_its_layout() {
    let values = vec![
        Value::U8(0xab),
        Value::U16(0x1234),
        Value::U32(0xdead_beef),
        Value::U64(0x0102_0304_0506_0708),
        Value::Bool(true),
        Value::Bool(false),
        Value::Bytes(vec![9, 8, 7]),
    ];
    let bytes = encode_values(&values).unwrap();
    assert_eq!(
        bytes,
        vec![
            0xab, 0x34, 0x12, 0xef, 0xbe, 0xad, 0xde, 0x08, 0x07, 0x06, 0x05, 0x04, 0x03, 0x02,
            0x01, 1, 0, 3, 0, 0, 0, 9, 8, 7,
        ]
    );
}

#[test]
fn decoding_inverts_encoding() {
    let values = vec![
        Value::Bytes(vec![]),
        Value::U64(u64::MAX),
        Value::Bytes(vec![1, 2, 3, 4, 5]),
        Value::U16(0),
        Value::Bool(true),
        Value::U8(255),
        Value::U32(1),
    ];
    let kinds = vec![
        ArgKind::Bytes,
        ArgKind::U64,
        ArgKind::Bytes,
        ArgKind::U16,
        ArgKind::Bool,
        ArgKind::U8,
        ArgKind::U32,
    ];
    let bytes = encode_values(&values).unwrap();
    assert_eq!(decode_values(&kinds, &bytes, 0), Ok(values.clone()));
    let mut framed = vec![0xaau8; 8];
    framed.extend_from_slice(&bytes);
    assert_eq!(decode_values(&kinds, &framed, 8), Ok(values));
}

#[test]
fn encoding_inverts_decoding() {
    let kinds = vec![ArgKind::U16, ArgKind::Bytes, ArgKind::Bool];
    let bytes = vec![0x10u8, 0x20, 2, 0, 0, 0, 0xca, 0xfe, 1];
    let values = decode_values(&kinds, &bytes, 0).unwrap();
    assert_eq!(
        values,
        vec![Value::U16(0x2010), Value::Bytes(vec![0xca, 0xfe]), Value::Bool(true)]
    );
    assert_eq!(encode_values(&values), Some(bytes));
}

#[test]
fn no_arguments_take_no_bytes() {
    assert_eq!(decode_values(&vec![], &[], 0), Ok(vec![]));
    assert_eq!(decode_values(&vec![], &[1, 2, 3], 3), Ok(vec![]));
    assert_eq!(encode_values(&vec![]), Some(vec![]));
}

#[test]
fn a_short_integer_stops_where_it_begins() {
    let kinds = vec![ArgKind::U8, ArgKind::U32];
    assert_eq!(decode_values(&kinds, &[1, 2, 3, 4], 0), Err(DecodeError { offset: 1 }));
    assert_eq!(decode_values(&kinds, &[], 0), Err(DecodeError { offset: 0 }));
    assert_eq!(
        decode_values(&vec![ArgKind::U64], &[0; 7], 0),
        Err(DecodeError { offset: 0 })
    );
    assert_eq!(
        decode_values(&vec![ArgKind::U16, ArgKind::U16], &[0; 3], 0),
        Err(DecodeError { offset: 2 })
    );
}

#[test]
fn a_byte_string_cut_short_stops_behind_its_length() {
    let kinds = vec![ArgKind::Bytes];
    assert_eq!(decode_values(&kinds, &[3, 0, 0, 0, 1, 2], 0), Err(DecodeError { offset: 4 }));
    assert_eq!(decode_values(&kinds, &[3, 0, 0], 0), Err(DecodeError { offset: 0 }));
    assert_eq!(
        decode_values(&kinds, &[0xff, 0xff, 0xff, 0xff], 0),
        Err(DecodeError { offset: 4 })
    );
    assert_eq!(
        decode_values(&vec![ArgKind::U8, ArgKind::Bytes], &[7, 1, 0, 0, 0], 0),
        Err(DecodeError { offset: 5 })
    );
}

#[test]
fn a_boolean_is_zero_or_one() {
    let kinds = vec![ArgKind::U8, ArgKind::Bool];
    assert_eq!(decode_values(&kinds, &[9, 0], 0), Ok(vec![Value::U8(9), Value::Bool(false)]));
    assert_eq!(decode_values(&kinds, &[9, 1], 0), Ok(vec![Value::U8(9), Value::Bool(true)]));
    assert_eq!(decode_values(&kinds, &[9, 2], 0), Err(DecodeError { offset: 1 }));
    assert_eq!(decode_values(&kinds, &[9, 255], 0), Err(DecodeError { offset: 1 }));
}

#[test]
fn bytes_left_over_stop_the_decoding() {
    assert_eq!(
        decode_values(&vec![ArgKind::U8], &[1, 2], 0),
        Err(DecodeError { offset: 1 })
    );
    assert_eq!(decode_values(&vec![], &[0], 0), Err(DecodeError { offset: 0 }));
}

#[test]
fn a_start_behind_the_end_stops_at_the_start() {
    assert_eq!(decode_values(&vec![], &[1, 2], 5), Err(DecodeError { offset: 5 }));
    assert_eq!(
        decode_values(&vec![ArgKind::U8], &[1, 2], 5),
        Err(DecodeError { offset: 5 })
    );
    assert_eq!(
        decode_values(&vec![ArgKind::U8], &[1, 2], usize::MAX),
        Err(DecodeError { offset: usize::MAX })
    );
}

#[test]
fn one_item_is_read_with_the_offset_behind_it() {
    let bytes = [0u8, 0x34, 0x12, 2, 0, 0, 0, 5, 6];
    assert_eq!(decode_item(ArgKind::U16, &bytes, 1), Ok((Value::U16(0x1234), 3)));
    assert_eq!(decode_item(ArgKind::Bytes, &bytes, 3), Ok((Value::Bytes(vec![5, 6]), 9)));
    assert_eq!(decode_item(ArgKind::U8, &bytes, 9), Err(DecodeError { offset: 9 }));
    assert_eq!(decode_item(ArgKind::U32, &bytes, 6), Err(DecodeError { offset: 6 }));
}

#[test]
fn one_value_is_appended() {
    let mut out = vec![1u8];
    encode_value(&mut out, &Value::Bytes(vec![0xaa]));
    encode_value(&mut out, &Value::U16(0x0203));
    assert_eq!(out, vec![1, 1, 0, 0, 0, 0xaa, 0x03, 0x02]);
}

#[test]
fn values_can_be_copied() {
    let value = Value::Bytes(vec![1, 2, 3]);
    assert_eq!(value.clone(), value);
    assert_eq!(Value::U32(7).clone(), Value::U32(7));
    assert!(is_encodable(&value));
}

#[test]
fn values_that_can_be_encoded_are_encoded() {
    let values = vec![Value::Bool(true), Value::U16(0xff00)];
    assert!(are_encodable(&values));
    assert_eq!(encode_all(&values), vec![1, 0x00, 0xff]);
    assert!(are_encodable(&vec![]));
    assert_eq!(encode_all(&vec![]), vec![]);
}
