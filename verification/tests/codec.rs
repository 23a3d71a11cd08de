use beacon_codec::checked::{checked_decode, checked_encode, conforms_to, encoded_len};
use beacon_codec::decode::decode;
use beacon_codec::encode::encode;
use beacon_codec::error::DecodeError;
use beacon_codec::laws::round_trip as round_trip_once;
use beacon_codec::schema::{Schema, SizeClass};
use beacon_codec::value::Value;

fn round_trip(schema: &Schema, items: Vec<Value>) {
    for item in items {
        let encoded = encode(schema, &item);
        assert_eq!(decode(schema, &encoded), Ok(item));
    }
}

fn list(elem: Schema) -> Schema {
    Schema::List(Box::new(elem))
}

fn optional(inner: Schema) -> Schema {
    Schema::Optional(Box::new(inner))
}

fn u16s(items: Vec<u16>) -> Value {
    Value::List(items.into_iter().map(Value::U16).collect())
}

fn some(v: Value) -> Value {
    Value::Optional(Some(Box::new(v)))
}

fn none() -> Value {
    Value::Optional(None)
}

fn hash(bytes: [u8; 32]) -> Value {
    Value::Bytes(bytes.to_vec())
}

fn patterned_hash() -> Value {
    let mut bytes = [0u8; 32];
    for i in 0..32 {
        bytes[i] = (i as u8).wrapping_mul(37).wrapping_add(11);
    }
    hash(bytes)
}

fn fixed_len_schema() -> Schema {
    Schema::Container(vec![Schema::U16, Schema::U64, Schema::U32])
}

fn fixed_len(a: u16, b: u64, c: u32) -> Value {
    Value::Container(vec![Value::U16(a), Value::U64(b), Value::U32(c)])
}

fn variable_len_schema() -> Schema {
    Schema::Container(vec![Schema::U16, list(Schema::U16), Schema::U32])
}

fn variable_len(a: u16, b: Vec<u16>, c: u32) -> Value {
    Value::Container(vec![Value::U16(a), u16s(b), Value::U32(c)])
}

fn three_variable_len_schema() -> Schema {
    Schema::Container(vec![Schema::U16, list(Schema::U16), list(Schema::U16), list(Schema::U16)])
}

fn two_options_schema() -> Schema {
    Schema::Container(vec![
        Schema::U16,
        optional(Schema::U16),
        optional(list(Schema::U16)),
        optional(list(Schema::U16)),
    ])
}

fn two_options(a: u16, b: Option<u16>, c: Option<Vec<u16>>, d: Option<Vec<u16>>) -> Value {
    Value::Container(vec![
        Value::U16(a),
        match b {
            Some(x) => some(Value::U16(x)),
            None => none(),
        },
        match c {
            Some(x) => some(u16s(x)),
            None => none(),
        },
        match d {
            Some(x) => some(u16s(x)),
            None => none(),
        },
    ])
}

#[test]
fn bool() {
    let items = vec![Value::Bool(true), Value::Bool(false)];

    round_trip(&Schema::Bool, items);
}

#[test]
fn u8_array_4() {
    let items = vec![
        Value::Bytes(vec![0, 0, 0, 0]),
        Value::Bytes(vec![1, 0, 0, 0]),
        Value::Bytes(vec![1, 2, 3, 4]),
        Value::Bytes(vec![1, 2, 0, 4]),
    ];

    round_trip(&Schema::Bytes(4), items);
}

#[test]
fn h256() {
    let items = vec![hash([0; 32]), hash([1; 32]), patterned_hash()];

    round_trip(&Schema::hash(), items);
}

#[test]
fn vec_of_h256() {
    let items = vec![
        Value::List(vec![]),
        Value::List(vec![hash([0; 32]), hash([1; 32]), patterned_hash()]),
    ];

    round_trip(&list(Schema::hash()), items);
}

#[test]
fn vec_u16() {
    let items = vec![
        u16s(vec![]),
        u16s(vec![255]),
        u16s(vec![0, 1, 2]),
        u16s(vec![100; 64]),
        u16s(vec![255, 0, 255]),
    ];

    round_trip(&list(Schema::U16), items);
}

#[test]
fn vec_of_vec_u16() {
    let nested = |outer: Vec<Vec<u16>>| Value::List(outer.into_iter().map(u16s).collect());
    let items = vec![
        nested(vec![]),
        nested(vec![vec![]]),
        nested(vec![vec![1, 2, 3]]),
        nested(vec![vec![], vec![]]),
        nested(vec![vec![], vec![1, 2, 3]]),
        nested(vec![vec![1, 2, 3], vec![1, 2, 3]]),
        nested(vec![vec![1, 2, 3], vec![], vec![1, 2, 3]]),
        nested(vec![vec![], vec![], vec![1, 2, 3]]),
        nested(vec![vec![], vec![1], vec![1, 2, 3]]),
        nested(vec![vec![], vec![1], vec![1, 2, 3]]),
    ];

    round_trip(&list(list(Schema::U16)), items);
}

#[test]
fn fixed_len_struct_encoding() {
    let items = vec![fixed_len(0, 0, 0), fixed_len(1, 1, 1), fixed_len(1, 0, 1)];

    let expected_encodings = vec![
        //  | u16--| u64----------------------------| u32----------|
        vec![00, 00, 00, 00, 00, 00, 00, 00, 00, 00, 00, 00, 00, 00],
        vec![01, 00, 01, 00, 00, 00, 00, 00, 00, 00, 01, 00, 00, 00],
        vec![01, 00, 00, 00, 00, 00, 00, 00, 00, 00, 01, 00, 00, 00],
    ];

    for i in 0..items.len() {
        assert_eq!(
            encode(&fixed_len_schema(), &items[i]),
            expected_encodings[i],
            "Failed on {}",
            i
        );
    }
}

#[test]
fn fixed_len_excess_bytes() {
    let fixed = fixed_len(1, 2, 3);

    let mut bytes = encode(&fixed_len_schema(), &fixed);
    bytes.append(&mut vec![0]);

    assert_eq!(
        decode(&fixed_len_schema(), &bytes),
        Err(DecodeError::InvalidByteLength {
            len: 15,
            expected: 14,
        })
    );
}

#[test]
fn vec_of_fixed_len_struct() {
    let items = vec![fixed_len(0, 0, 0), fixed_len(1, 1, 1), fixed_len(1, 0, 1)];

    round_trip(&fixed_len_schema(), items);
}

#[test]
fn offset_into_fixed_bytes() {
    let bytes = vec![
        //  1   2   3   4   5   6   7   8   9   10  11  12  13  14  15
        //      | offset        | u32           | variable
        01, 00, 09, 00, 00, 00, 01, 00, 00, 00, 00, 00, 01, 00, 02, 00,
    ];

    assert_eq!(
        decode(&variable_len_schema(), &bytes),
        Err(DecodeError::OutOfBoundsByte { i: 9 })
    );
}

#[test]
fn variable_len_excess_bytes() {
    let variable = variable_len(1, vec![2], 3);

    let mut bytes = encode(&variable_len_schema(), &variable);
    bytes.append(&mut vec![0]);

    // The trailing byte becomes part of the last payload, which then is no
    // whole number of elements.
    assert!(decode(&variable_len_schema(), &bytes).is_err());
}

#[test]
fn first_offset_skips_byte() {
    let bytes = vec![
        //  1   2   3   4   5   6   7   8   9   10  11  12  13  14  15
        //      | offset        | u32           | variable
        01, 00, 11, 00, 00, 00, 01, 00, 00, 00, 00, 00, 01, 00, 02, 00,
    ];

    assert_eq!(
        decode(&variable_len_schema(), &bytes),
        Err(DecodeError::OutOfBoundsByte { i: 11 })
    );
}

#[test]
fn variable_len_struct_encoding() {
    let items = vec![
        variable_len(0, vec![], 0),
        variable_len(1, vec![0], 1),
        variable_len(1, vec![0, 1, 2], 1),
    ];

    let expected_encodings = vec![
        //   00..................................09
        //  | u16--| vec offset-----| u32------------| vec payload --------|
        vec![00, 00, 10, 00, 00, 00, 00, 00, 00, 00],
        vec![01, 00, 10, 00, 00, 00, 01, 00, 00, 00, 00, 00],
        vec![
            01, 00, 10, 00, 00, 00, 01, 00, 00, 00, 00, 00, 01, 00, 02, 00,
        ],
    ];

    for i in 0..items.len() {
        assert_eq!(
            encode(&variable_len_schema(), &items[i]),
            expected_encodings[i],
            "Failed on {}",
            i
        );
    }
}

#[test]
fn vec_of_variable_len_struct() {
    let items = vec![
        variable_len(0, vec![], 0),
        variable_len(255, vec![0, 1, 2, 3], 99),
        variable_len(255, vec![0], 99),
        variable_len(50, vec![0], 0),
    ];

    round_trip(&variable_len_schema(), items);
}

#[test]
fn three_variable_len() {
    let vec = vec![Value::Container(vec![
        Value::U16(42),
        u16s(vec![0]),
        u16s(vec![1]),
        u16s(vec![2]),
    ])];

    round_trip(&three_variable_len_schema(), vec);
}

#[test]
fn offsets_decreasing() {
    let bytes = vec![
        //  1   2   3   4   5   6   7   8   9   10  11  12  13  14  15
        //      | offset        | offset        | offset        | variable
        01, 00, 14, 00, 00, 00, 15, 00, 00, 00, 14, 00, 00, 00, 00, 00,
    ];

    assert_eq!(
        decode(&three_variable_len_schema(), &bytes),
        Err(DecodeError::OutOfBoundsByte { i: 14 })
    );
}

#[test]
fn two_variable_len_options_encoding() {
    let s = two_options(42, None, Some(vec![0]), None);

    let bytes = vec![
        //  1   2   3   4   5   6   7   8   9   10  11  12  13  14  15  16  17  18  19  20  21
        //      | option<u16>   | offset        | offset        | option<u16    | 1st list
        42, 00, 14, 00, 00, 00, 18, 00, 00, 00, 24, 00, 00, 00, 00, 00, 00, 00, 01, 00, 00, 00,
        //  23  24  25  26  27
        //      | 2nd list
        00, 00, 00, 00, 00, 00,
    ];

    assert_eq!(encode(&two_options_schema(), &s), bytes);
}

#[test]
fn two_variable_len_options_round_trip() {
    let vec = vec![
        two_options(42, Some(12), Some(vec![0]), Some(vec![1])),
        two_options(42, Some(12), Some(vec![0]), None),
        two_options(42, None, Some(vec![0]), None),
        two_options(42, None, None, None),
    ];

    round_trip(&two_options_schema(), vec);
}

#[test]
fn classify_scalars_and_composites() {
    assert_eq!(Schema::Bool.classify(), SizeClass::Fixed(1));
    assert_eq!(Schema::U8.classify(), SizeClass::Fixed(1));
    assert_eq!(Schema::U16.classify(), SizeClass::Fixed(2));
    assert_eq!(Schema::U32.classify(), SizeClass::Fixed(4));
    assert_eq!(Schema::U64.classify(), SizeClass::Fixed(8));
    assert_eq!(Schema::Bytes(4).classify(), SizeClass::Fixed(4));
    assert_eq!(Schema::hash().classify(), SizeClass::Fixed(32));
    assert_eq!(list(Schema::U16).classify(), SizeClass::Variable);
    assert_eq!(optional(Schema::U16).classify(), SizeClass::Variable);
    assert_eq!(fixed_len_schema().classify(), SizeClass::Fixed(14));
    assert_eq!(variable_len_schema().classify(), SizeClass::Variable);
    assert_eq!(Schema::Container(vec![]).classify(), SizeClass::Fixed(0));
    assert_eq!(
        Schema::Container(vec![fixed_len_schema(), Schema::Bool]).classify(),
        SizeClass::Fixed(15)
    );
}

#[test]
fn scalars_are_little_endian() {
    assert_eq!(encode(&Schema::Bool, &Value::Bool(true)), vec![1]);
    assert_eq!(encode(&Schema::Bool, &Value::Bool(false)), vec![0]);
    assert_eq!(encode(&Schema::U8, &Value::U8(0xab)), vec![0xab]);
    assert_eq!(encode(&Schema::U16, &Value::U16(0x0102)), vec![0x02, 0x01]);
    assert_eq!(encode(&Schema::U32, &Value::U32(0x01020304)), vec![0x04, 0x03, 0x02, 0x01]);
    assert_eq!(
        encode(&Schema::U64, &Value::U64(0x0102030405060708)),
        vec![0x08, 0x07, 0x06, 0x05, 0x04, 0x03, 0x02, 0x01]
    );
    assert_eq!(decode(&Schema::U16, &[0x02, 0x01]), Ok(Value::U16(0x0102)));
    assert_eq!(decode(&Schema::U32, &[0x04, 0x03, 0x02, 0x01]), Ok(Value::U32(0x01020304)));
    assert_eq!(
        decode(&Schema::U64, &[0x08, 0x07, 0x06, 0x05, 0x04, 0x03, 0x02, 0x01]),
        Ok(Value::U64(0x0102030405060708))
    );
    assert_eq!(decode(&Schema::U64, &[0xff; 8]), Ok(Value::U64(u64::MAX)));
}

#[test]
fn scalar_round_trips_at_the_edges() {
    round_trip(&Schema::U8, vec![Value::U8(0), Value::U8(255)]);
    round_trip(&Schema::U16, vec![Value::U16(0), Value::U16(256), Value::U16(u16::MAX)]);
    round_trip(&Schema::U32, vec![Value::U32(0), Value::U32(65536), Value::U32(u32::MAX)]);
    round_trip(&Schema::U64, vec![Value::U64(0), Value::U64(1 << 40), Value::U64(u64::MAX)]);
}

#[test]
fn encoding_is_deterministic() {
    let value = two_options(42, Some(12), Some(vec![0, 7]), None);
    assert_eq!(encode(&two_options_schema(), &value), encode(&two_options_schema(), &value));
}

#[test]
fn scalar_of_wrong_length_is_rejected() {
    assert_eq!(
        decode(&Schema::Bool, &[]),
        Err(DecodeError::InvalidByteLength { len: 0, expected: 1 })
    );
    assert_eq!(
        decode(&Schema::U16, &[1]),
        Err(DecodeError::InvalidByteLength { len: 1, expected: 2 })
    );
    assert_eq!(
        decode(&Schema::U32, &[1, 2, 3, 4, 5]),
        Err(DecodeError::InvalidByteLength { len: 5, expected: 4 })
    );
    assert_eq!(
        decode(&Schema::U64, &[0; 7]),
        Err(DecodeError::InvalidByteLength { len: 7, expected: 8 })
    );
    assert_eq!(
        decode(&Schema::hash(), &[0; 31]),
        Err(DecodeError::InvalidByteLength { len: 31, expected: 32 })
    );
}

#[test]
fn boolean_byte_above_one_is_invalid() {
    assert_eq!(decode(&Schema::Bool, &[2]), Err(DecodeError::BytesInvalid));
    assert_eq!(decode(&Schema::Bool, &[255]), Err(DecodeError::BytesInvalid));
}

#[test]
fn fixed_container_too_short_is_rejected() {
    assert_eq!(
        decode(&fixed_len_schema(), &[0; 13]),
        Err(DecodeError::InvalidByteLength { len: 13, expected: 14 })
    );
    assert_eq!(
        decode(&variable_len_schema(), &[0; 9]),
        Err(DecodeError::InvalidByteLength { len: 9, expected: 10 })
    );
}

#[test]
fn list_with_a_remainder_is_rejected() {
    assert_eq!(
        decode(&list(Schema::U16), &[1, 0, 2]),
        Err(DecodeError::InvalidByteLength { len: 3, expected: 2 })
    );
    assert_eq!(
        decode(&list(Schema::U64), &[0; 15]),
        Err(DecodeError::InvalidByteLength { len: 15, expected: 8 })
    );
    assert_eq!(
        decode(&list(fixed_len_schema()), &[0; 29]),
        Err(DecodeError::InvalidByteLength { len: 29, expected: 28 })
    );
}

#[test]
fn list_of_fixed_containers_is_their_concatenation() {
    let schema = list(fixed_len_schema());
    let value = Value::List(vec![fixed_len(1, 1, 1), fixed_len(1, 0, 1)]);
    let bytes = encode(&schema, &value);
    assert_eq!(
        bytes,
        vec![
            01, 00, 01, 00, 00, 00, 00, 00, 00, 00, 01, 00, 00, 00, 01, 00, 00, 00, 00, 00, 00, 00,
            00, 00, 01, 00, 00, 00,
        ]
    );
    assert_eq!(decode(&schema, &bytes), Ok(value));
}

#[test]
fn list_of_variable_elements_uses_offsets() {
    let schema = list(list(Schema::U16));
    let value = Value::List(vec![u16s(vec![]), u16s(vec![1]), u16s(vec![1, 2, 3])]);
    let bytes = encode(&schema, &value);
    assert_eq!(
        bytes,
        vec![12, 0, 0, 0, 12, 0, 0, 0, 14, 0, 0, 0, 1, 0, 1, 0, 2, 0, 3, 0]
    );
    assert_eq!(decode(&schema, &bytes), Ok(value));
    assert_eq!(encode(&schema, &Value::List(vec![])), Vec::<u8>::new());
    assert_eq!(decode(&schema, &[]), Ok(Value::List(vec![])));
}

#[test]
fn list_of_variable_elements_rejects_a_bad_first_offset() {
    let schema = list(list(Schema::U16));
    assert_eq!(
        decode(&schema, &[1, 2]),
        Err(DecodeError::InvalidByteLength { len: 2, expected: 4 })
    );
    assert_eq!(decode(&schema, &[0, 0, 0, 0]), Err(DecodeError::OutOfBoundsByte { i: 0 }));
    assert_eq!(decode(&schema, &[6, 0, 0, 0, 0, 0]), Err(DecodeError::OutOfBoundsByte { i: 6 }));
    assert_eq!(
        decode(&schema, &[8, 0, 0, 0]),
        Err(DecodeError::InvalidByteLength { len: 4, expected: 8 })
    );
    assert_eq!(
        decode(&schema, &[8, 0, 0, 0, 7, 0, 0, 0]),
        Err(DecodeError::OutOfBoundsByte { i: 7 })
    );
    assert_eq!(
        decode(&schema, &[8, 0, 0, 0, 9, 0, 0, 0]),
        Err(DecodeError::OutOfBoundsByte { i: 9 })
    );
}

#[test]
fn offset_past_the_end_is_rejected() {
    let bytes = vec![
        01, 00, 14, 00, 00, 00, 17, 00, 00, 00, 14, 00, 00, 00, 00, 00,
    ];
    assert_eq!(
        decode(&three_variable_len_schema(), &bytes),
        Err(DecodeError::OutOfBoundsByte { i: 17 })
    );
}

#[test]
fn first_bad_offset_in_field_order_is_reported() {
    let bytes = vec![
        01, 00, 13, 00, 00, 00, 99, 00, 00, 00, 02, 00, 00, 00, 00, 00,
    ];
    assert_eq!(
        decode(&three_variable_len_schema(), &bytes),
        Err(DecodeError::OutOfBoundsByte { i: 13 })
    );
}

#[test]
fn nested_failure_comes_out_unchanged() {
    let schema = Schema::Container(vec![Schema::U16, list(Schema::U32), optional(Schema::Bool)]);
    // The list's payload has five bytes.
    let bytes = vec![07, 00, 10, 00, 00, 00, 15, 00, 00, 00, 1, 2, 3, 4, 5, 0, 0, 0, 0];
    assert_eq!(
        decode(&schema, &bytes),
        Err(DecodeError::InvalidByteLength { len: 5, expected: 4 })
    );
    // The optional boolean is present and holds the byte 7.
    let bytes = vec![07, 00, 10, 00, 00, 00, 14, 00, 00, 00, 1, 2, 3, 4, 1, 0, 0, 0, 7];
    assert_eq!(decode(&schema, &bytes), Err(DecodeError::BytesInvalid));
    let bytes = vec![07, 00, 10, 00, 00, 00, 14, 00, 00, 00, 1, 2, 3, 4, 1, 0, 0, 0, 1];
    assert_eq!(
        decode(&schema, &bytes),
        Ok(Value::Container(vec![
            Value::U16(7),
            Value::List(vec![Value::U32(0x04030201)]),
            some(Value::Bool(true)),
        ]))
    );
}

#[test]
fn optional_flag_rules() {
    let schema = optional(Schema::U16);
    assert_eq!(encode(&schema, &none()), vec![0, 0, 0, 0]);
    assert_eq!(encode(&schema, &some(Value::U16(12))), vec![1, 0, 0, 0, 12, 0]);
    assert_eq!(decode(&schema, &[0, 0, 0, 0]), Ok(none()));
    assert_eq!(decode(&schema, &[1, 0, 0, 0, 12, 0]), Ok(some(Value::U16(12))));
    assert_eq!(
        decode(&schema, &[0, 0, 0]),
        Err(DecodeError::InvalidByteLength { len: 3, expected: 4 })
    );
    assert_eq!(
        decode(&schema, &[0, 0, 0, 0, 9]),
        Err(DecodeError::InvalidByteLength { len: 5, expected: 4 })
    );
    assert_eq!(decode(&schema, &[2, 0, 0, 0, 12, 0]), Err(DecodeError::BytesInvalid));
    assert_eq!(
        decode(&schema, &[1, 0, 0, 0, 12]),
        Err(DecodeError::InvalidByteLength { len: 1, expected: 2 })
    );
}

#[test]
fn empty_container_is_the_empty_buffer() {
    let schema = Schema::Container(vec![]);
    assert_eq!(encode(&schema, &Value::Container(vec![])), Vec::<u8>::new());
    assert_eq!(decode(&schema, &[]), Ok(Value::Container(vec![])));
    assert_eq!(
        decode(&schema, &[0]),
        Err(DecodeError::InvalidByteLength { len: 1, expected: 0 })
    );
}

#[test]
fn list_of_empty_elements_is_rejected() {
    assert_eq!(
        decode(&list(Schema::Bytes(0)), &[1]),
        Err(DecodeError::InvalidByteLength { len: 1, expected: 0 })
    );
}

#[test]
fn nested_containers_round_trip() {
    let inner = variable_len_schema();
    let schema = Schema::Container(vec![
        Schema::Bool,
        inner,
        fixed_len_schema(),
        list(variable_len_schema()),
        Schema::hash(),
    ]);
    let value = Value::Container(vec![
        Value::Bool(true),
        variable_len(9, vec![8, 7], 6),
        fixed_len(5, 4, 3),
        Value::List(vec![variable_len(1, vec![], 2), variable_len(3, vec![4, 5, 6], 7)]),
        patterned_hash(),
    ]);
    let bytes = encode(&schema, &value);
    assert_eq!(bytes.len(), 1 + 4 + 14 + 4 + 32 + 14 + (8 + 10 + 16));
    assert_eq!(&bytes[1..5], &[55, 0, 0, 0]);
    assert_eq!(&bytes[19..23], &[69, 0, 0, 0]);
    assert_eq!(decode(&schema, &bytes), Ok(value));
}

#[test]
fn checked_encode_tests_its_conditions() {
    let schema = variable_len_schema();
    let value = variable_len(1, vec![0, 1, 2], 1);
    assert!(schema.is_well_formed());
    assert!(conforms_to(&value, &schema));
    assert_eq!(encoded_len(&schema, &value), Some(16));
    assert_eq!(
        checked_encode(&schema, &value),
        Some(vec![01, 00, 10, 00, 00, 00, 01, 00, 00, 00, 00, 00, 01, 00, 02, 00])
    );
    // A value of another shape, and a schema with a list of empty elements.
    assert!(!conforms_to(&fixed_len(1, 1, 1), &schema));
    assert_eq!(checked_encode(&schema, &fixed_len(1, 1, 1)), None);
    assert_eq!(checked_encode(&Schema::Bytes(4), &Value::Bytes(vec![1, 2, 3])), None);
    assert!(!list(Schema::Bytes(0)).is_well_formed());
    assert!(!list(Schema::Container(vec![])).is_well_formed());
    assert_eq!(checked_encode(&list(Schema::Bytes(0)), &Value::List(vec![])), None);
    assert_eq!(
        encoded_len(&two_options_schema(), &two_options(42, None, Some(vec![0]), None)),
        Some(28)
    );
    assert_eq!(encoded_len(&list(fixed_len_schema()), &Value::List(vec![])), Some(0));
}

#[test]
fn checked_decode_tests_the_schema() {
    assert_eq!(
        checked_decode(&list(Schema::U16), &[1, 0, 2, 0]),
        Some(Ok(u16s(vec![1, 2])))
    );
    assert_eq!(
        checked_decode(&Schema::U16, &[1]),
        Some(Err(DecodeError::InvalidByteLength { len: 1, expected: 2 }))
    );
    assert_eq!(checked_decode(&list(Schema::Bytes(0)), &[]), None);
}

#[test]
fn round_trip_in_one_call() {
    let value = two_options(42, Some(12), Some(vec![0, 7]), None);
    assert_eq!(round_trip_once(&two_options_schema(), &value), Ok(value));
}

#[test]
fn decoded_buffers_encode_to_themselves() {
    let buffers: Vec<(Schema, Vec<u8>)> = vec![
        (variable_len_schema(), vec![01, 00, 10, 00, 00, 00, 01, 00, 00, 00, 00, 00, 01, 00, 02, 00]),
        (three_variable_len_schema(), vec![01, 00, 14, 00, 00, 00, 14, 00, 00, 00, 16, 00, 00, 00, 09, 00]),
        (list(list(Schema::U16)), vec![8, 0, 0, 0, 10, 0, 0, 0, 5, 0]),
        (optional(Schema::Bool), vec![1, 0, 0, 0, 1]),
        (list(Schema::U32), vec![1, 2, 3, 4, 5, 6, 7, 8]),
    ];
    for (schema, bytes) in buffers {
        let value = decode(&schema, &bytes).unwrap();
        assert_eq!(encode(&schema, &value), bytes);
    }
}
