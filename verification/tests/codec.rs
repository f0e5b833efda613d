use carpenter::codec::{decode_record, decode_value, encode_record};
use carpenter::record::{value_matches, record_matches, FieldDescriptor, FieldType, Value};
use carpenter::ConfigError;

fn field(name: &str, ty: FieldType) -> FieldDescriptor {
    FieldDescriptor { name: String::from(name), ty }
}

fn demo_shape() -> Vec<FieldDescriptor> {
    vec![
        field("a", FieldType::I32),
        field("b", FieldType::Bool),
        field("c", FieldType::Text),
    ]
}

fn demo_record() -> Vec<Value> {
    vec![
        Value::I32(400),
        Value::Bool(true),
        Value::Text(String::from("Hey")),
    ]
}

#[test]
fn round_trip_demo_record() {
    let shape = demo_shape();
    let record = demo_record();
    assert!(record_matches(&shape, &record));
    let bytes = encode_record(&shape, &record);
    let decoded = decode_record(&shape, &bytes).unwrap();
    assert_eq!(decoded, record);
}

#[test]
fn encode_exact_bytes() {
    let shape = demo_shape();
    let record = demo_record();
    let bytes = encode_record(&shape, &record);
    // 400 big-endian, the bool, then "Hey" and its terminator
    assert_eq!(bytes, vec![0, 0, 1, 144, 1, b'H', b'e', b'y', 0]);
}

#[test]
fn encode_scalars_big_endian() {
    let shape = vec![field("x", FieldType::U16)];
    let record = vec![Value::U16(0x1234)];
    assert_eq!(encode_record(&shape, &record), vec![0x12, 0x34]);

    let shape = vec![field("x", FieldType::U64)];
    let record = vec![Value::U64(0x0102030405060708)];
    assert_eq!(
        encode_record(&shape, &record),
        vec![1, 2, 3, 4, 5, 6, 7, 8]
    );

    let shape = vec![field("x", FieldType::I8)];
    let record = vec![Value::I8(-1)];
    assert_eq!(encode_record(&shape, &record), vec![0xff]);

    let shape = vec![field("x", FieldType::I16)];
    let record = vec![Value::I16(-2)];
    assert_eq!(encode_record(&shape, &record), vec![0xff, 0xfe]);

    let shape = vec![field("x", FieldType::I64)];
    let record = vec![Value::I64(-1)];
    assert_eq!(encode_record(&shape, &record), vec![0xff; 8]);

    let shape = vec![field("x", FieldType::U8), field("y", FieldType::U32)];
    let record = vec![Value::U8(7), Value::U32(0xdeadbeef)];
    assert_eq!(
        encode_record(&shape, &record),
        vec![7, 0xde, 0xad, 0xbe, 0xef]
    );
}

#[test]
fn signed_round_trip() {
    let shape = vec![
        field("a", FieldType::I8),
        field("b", FieldType::I16),
        field("c", FieldType::I32),
        field("d", FieldType::I64),
    ];
    let record = vec![
        Value::I8(-100),
        Value::I16(-30000),
        Value::I32(-2000000000),
        Value::I64(-9000000000000000000),
    ];
    let bytes = encode_record(&shape, &record);
    assert_eq!(decode_record(&shape, &bytes).unwrap(), record);
}

#[test]
fn unsigned_round_trip() {
    let shape = vec![
        field("a", FieldType::U8),
        field("b", FieldType::U16),
        field("c", FieldType::U32),
        field("d", FieldType::U64),
    ];
    let record = vec![
        Value::U8(255),
        Value::U16(65535),
        Value::U32(4294967295),
        Value::U64(18446744073709551615),
    ];
    let bytes = encode_record(&shape, &record);
    assert_eq!(decode_record(&shape, &bytes).unwrap(), record);
}

#[test]
fn empty_text_round_trip() {
    let shape = vec![field("t", FieldType::Text)];
    let record = vec![Value::Text(String::new())];
    let bytes = encode_record(&shape, &record);
    assert_eq!(bytes, vec![0]);
    assert_eq!(decode_record(&shape, &bytes).unwrap(), record);
}

#[test]
fn text_soft_stop_without_terminator() {
    let shape = vec![field("t", FieldType::Text)];
    let record = vec![Value::Text(String::from("Hi"))];
    let mut bytes = encode_record(&shape, &record);
    assert_eq!(bytes, vec![b'H', b'i', 0]);
    bytes.pop();
    // the terminator is gone; the permissive decode still yields the text
    assert_eq!(decode_record(&shape, &bytes).unwrap(), record);
}

#[test]
fn truncated_input_fails() {
    let shape = vec![field("a", FieldType::U32), field("b", FieldType::U32)];
    let bytes = vec![1, 2, 3, 4, 5, 6, 7];
    assert_eq!(
        decode_record(&shape, &bytes),
        Err(ConfigError::TruncatedInput)
    );
    // even the whole first field present does not yield a partial record
    let bytes = vec![1, 2, 3, 4];
    assert_eq!(
        decode_record(&shape, &bytes),
        Err(ConfigError::TruncatedInput)
    );
    let empty: Vec<u8> = Vec::new();
    assert_eq!(
        decode_record(&shape, &empty),
        Err(ConfigError::TruncatedInput)
    );
}

#[test]
fn order_sensitivity() {
    let shape = vec![field("a", FieldType::U16), field("b", FieldType::U8)];
    let record = vec![Value::U16(0x0102), Value::U8(3)];
    let bytes = encode_record(&shape, &record);
    assert_eq!(bytes, vec![1, 2, 3]);
    // same field types, different declaration order: different values
    let reordered = vec![field("b", FieldType::U8), field("a", FieldType::U16)];
    let decoded = decode_record(&reordered, &bytes).unwrap();
    assert_eq!(decoded, vec![Value::U8(1), Value::U16(0x0203)]);
    assert_ne!(decoded, vec![Value::U8(3), Value::U16(0x0102)]);
}

#[test]
fn order_sensitivity_can_truncate() {
    // a text field read first swallows the scalar's bytes up to a zero
    let shape = vec![field("t", FieldType::Text), field("n", FieldType::U32)];
    let record = vec![Value::Text(String::from("x")), Value::U32(5)];
    let bytes = encode_record(&shape, &record);
    let reordered = vec![field("n", FieldType::U32), field("t", FieldType::Text)];
    // the scalar swallows the text bytes and the terminator; the text field
    // then stops at the zero byte of the scalar's encoding
    let decoded = decode_record(&reordered, &bytes).unwrap();
    assert_ne!(decoded, record);
    assert_eq!(
        decoded,
        vec![Value::U32(0x78000000), Value::Text(String::new())]
    );
}

#[test]
fn nested_record_round_trip() {
    let inner_shape = vec![field("n", FieldType::U16), field("t", FieldType::Text)];
    let shape = vec![
        field("head", FieldType::U8),
        field("inner", FieldType::Record(inner_shape)),
        field("tail", FieldType::Bool),
    ];
    let record = vec![
        Value::U8(9),
        Value::Record(vec![Value::U16(513), Value::Text(String::from("deep"))]),
        Value::Bool(false),
    ];
    assert!(record_matches(&shape, &record));
    let bytes = encode_record(&shape, &record);
    assert_eq!(
        bytes,
        vec![9, 2, 1, b'd', b'e', b'e', b'p', 0, 0]
    );
    assert_eq!(decode_record(&shape, &bytes).unwrap(), record);
}

#[test]
fn doubly_nested_record_round_trip() {
    let innermost = vec![field("t", FieldType::Text)];
    let inner = vec![field("deep", FieldType::Record(innermost))];
    let shape = vec![field("outer", FieldType::Record(inner))];
    let record = vec![Value::Record(vec![Value::Record(vec![Value::Text(
        String::from("core"),
    )])])];
    let bytes = encode_record(&shape, &record);
    assert_eq!(decode_record(&shape, &bytes).unwrap(), record);
}

#[test]
fn invalid_utf8_is_replaced() {
    let shape = vec![field("t", FieldType::Text)];
    let bytes = vec![0xff, 0xfe, 0];
    let decoded = decode_record(&shape, &bytes).unwrap();
    assert_eq!(
        decoded,
        vec![Value::Text(String::from("\u{FFFD}\u{FFFD}"))]
    );
}

#[test]
fn non_ascii_text_round_trip() {
    let shape = vec![field("t", FieldType::Text)];
    let record = vec![Value::Text(String::from("héllo wörld — ★"))];
    let bytes = encode_record(&shape, &record);
    assert_eq!(decode_record(&shape, &bytes).unwrap(), record);
}

#[test]
fn trailing_bytes_are_ignored() {
    let shape = vec![field("a", FieldType::U16)];
    let bytes = vec![0x12, 0x34, 0x56, 0x78];
    assert_eq!(
        decode_record(&shape, &bytes).unwrap(),
        vec![Value::U16(0x1234)]
    );
}

#[test]
fn bool_decodes_any_nonzero_as_true() {
    let shape = vec![field("b", FieldType::Bool)];
    assert_eq!(
        decode_record(&shape, &vec![2u8]).unwrap(),
        vec![Value::Bool(true)]
    );
    assert_eq!(
        decode_record(&shape, &vec![0u8]).unwrap(),
        vec![Value::Bool(false)]
    );
}

#[test]
fn matching_checks() {
    assert!(value_matches(&FieldType::U32, &Value::U32(1)));
    assert!(!value_matches(&FieldType::U32, &Value::I32(1)));
    assert!(!value_matches(&FieldType::Text, &Value::Bool(true)));

    let shape = demo_shape();
    assert!(record_matches(&shape, &demo_record()));
    // wrong arity
    assert!(!record_matches(&shape, &vec![Value::I32(1)]));
    // wrong type in the middle
    assert!(!record_matches(
        &shape,
        &vec![Value::I32(1), Value::U8(1), Value::Text(String::new())]
    ));
}

#[test]
fn decode_value_reports_position() {
    let shape_ty = FieldType::U16;
    let bytes = vec![0xaa, 0x01, 0x02, 0xbb];
    let (v, end) = decode_value(&shape_ty, &bytes, 1).unwrap();
    assert_eq!(v, Value::U16(0x0102));
    assert_eq!(end, 3);
    assert_eq!(
        decode_value(&FieldType::U64, &bytes, 1),
        Err(ConfigError::TruncatedInput)
    );
}

#[test]
fn embedded_zero_byte_truncates_text() {
    // a zero character inside a text field collides with the terminator;
    // the decoded record then differs from the one encoded
    let shape = vec![field("t", FieldType::Text), field("n", FieldType::U8)];
    let record = vec![Value::Text(String::from("a\0b")), Value::U8(7)];
    let bytes = encode_record(&shape, &record);
    assert_eq!(bytes, vec![b'a', 0, b'b', 0, 7]);
    let decoded = decode_record(&shape, &bytes).unwrap();
    assert_ne!(decoded, record);
    assert_eq!(decoded, vec![Value::Text(String::from("a")), Value::U8(b'b')]);
}

#[test]
fn smoke() {
    assert!(carpenter::_test().is_ok());
}
