use avromatic::codec::EncodeError;
use avromatic::custom_types::NoHooks;
use avromatic::descriptors::{
    AttributeDescriptor, RecordDescriptor, RegisteredModel, TypeDescriptor,
};
use avromatic::model_pool::ModelRegistry;
use avromatic::values::{AvromaticValue, ModelStorage};
use avromatic::varint::DecodeError;

fn empty() -> ModelRegistry {
    ModelRegistry::new(None)
}

fn text(s: &str) -> AvromaticValue {
    AvromaticValue::String(s.as_bytes().to_vec())
}

fn encode(d: &TypeDescriptor, v: &AvromaticValue, reg: &ModelRegistry) -> Result<Vec<u8>, EncodeError> {
    d.serialize(v, reg, &NoHooks)
}

fn decode(
    d: &TypeDescriptor,
    bytes: &[u8],
    reg: &ModelRegistry,
) -> Result<(AvromaticValue, usize), DecodeError> {
    d.decode(bytes, 0, reg, &NoHooks)
}

fn round_trips(d: &TypeDescriptor, v: AvromaticValue, reg: &ModelRegistry) -> Vec<u8> {
    let bytes = encode(d, &v, reg).unwrap();
    assert_eq!(decode(d, &bytes, reg), Ok((v, bytes.len())));
    bytes
}

fn pair_registry() -> ModelRegistry {
    let mut reg = ModelRegistry::new(None);
    let record = RecordDescriptor {
        attributes: vec![
            (
                "k".to_string(),
                AttributeDescriptor { type_descriptor: TypeDescriptor::String, default: None },
            ),
            (
                "v".to_string(),
                AttributeDescriptor {
                    type_descriptor: TypeDescriptor::Union(
                        vec![("null".to_string(), 0), ("long".to_string(), 1)],
                        vec![TypeDescriptor::Null, TypeDescriptor::Long],
                    ),
                    default: None,
                },
            ),
        ],
    };
    let handle = reg.register("ns.Pair", vec![1, 2, 3], record);
    assert_eq!(handle, 0);
    reg
}

#[test]
fn scalars_round_trip() {
    let reg = empty();
    assert_eq!(round_trips(&TypeDescriptor::Null, AvromaticValue::Null, &reg), Vec::<u8>::new());
    assert_eq!(round_trips(&TypeDescriptor::Boolean, AvromaticValue::True, &reg), vec![1]);
    assert_eq!(round_trips(&TypeDescriptor::Boolean, AvromaticValue::False, &reg), vec![0]);
    assert_eq!(round_trips(&TypeDescriptor::Long, AvromaticValue::Long(5), &reg), vec![0x0a]);
    assert_eq!(round_trips(&TypeDescriptor::Int, AvromaticValue::Long(-1), &reg), vec![0x01]);
    assert_eq!(round_trips(&TypeDescriptor::Date, AvromaticValue::Long(64), &reg), vec![0x80, 0x01]);
    round_trips(&TypeDescriptor::TimestampMillis, AvromaticValue::Long(i64::MAX), &reg);
    round_trips(&TypeDescriptor::TimestampMicros, AvromaticValue::Long(i64::MIN), &reg);
    assert_eq!(round_trips(&TypeDescriptor::String, text("x"), &reg), vec![0x02, 0x78]);
    assert_eq!(
        round_trips(&TypeDescriptor::Bytes, AvromaticValue::String(vec![0xff, 0x00]), &reg),
        vec![0x04, 0xff, 0x00]
    );
    assert_eq!(
        round_trips(&TypeDescriptor::Fixed(3), AvromaticValue::String(vec![7, 8, 9]), &reg),
        vec![7, 8, 9]
    );
}

#[test]
fn floats_are_little_endian_bits() {
    let reg = empty();
    let single = 1.5f32.to_bits();
    let double = (-2.25f64).to_bits();
    assert_eq!(
        round_trips(&TypeDescriptor::Float, AvromaticValue::Float(single), &reg),
        1.5f32.to_le_bytes().to_vec()
    );
    assert_eq!(
        round_trips(&TypeDescriptor::Double, AvromaticValue::Double(double), &reg),
        (-2.25f64).to_le_bytes().to_vec()
    );
    assert_eq!(
        encode(&TypeDescriptor::Float, &AvromaticValue::Double(double), &reg),
        Err(EncodeError::Mismatch)
    );
    assert_eq!(decode(&TypeDescriptor::Float, &[1, 2, 3], &reg), Err(DecodeError::UnexpectedEnd));
    assert_eq!(decode(&TypeDescriptor::Double, &[0; 7], &reg), Err(DecodeError::UnexpectedEnd));
}

#[test]
fn an_int_beyond_thirty_two_bits_is_not_written() {
    let reg = empty();
    let wide = (1i64 << 32) + 5;
    assert_eq!(
        encode(&TypeDescriptor::Int, &AvromaticValue::Long(wide), &reg),
        Err(EncodeError::IntOutOfRange)
    );
    assert_eq!(
        encode(&TypeDescriptor::Date, &AvromaticValue::Long(-wide), &reg),
        Err(EncodeError::IntOutOfRange)
    );
    assert_eq!(encode(&TypeDescriptor::Long, &AvromaticValue::Long(wide), &reg).unwrap().len(), 5);
    round_trips(&TypeDescriptor::Int, AvromaticValue::Long(i32::MAX as i64), &reg);
    round_trips(&TypeDescriptor::Date, AvromaticValue::Long(i32::MIN as i64), &reg);
}

#[test]
fn booleans_other_than_zero_and_one_are_rejected() {
    let reg = empty();
    assert_eq!(decode(&TypeDescriptor::Boolean, &[2], &reg), Err(DecodeError::NotABool));
    assert_eq!(decode(&TypeDescriptor::Boolean, &[], &reg), Err(DecodeError::UnexpectedEnd));
}

#[test]
fn strings_must_be_utf8() {
    let reg = empty();
    assert_eq!(decode(&TypeDescriptor::String, &[0x02, 0xff], &reg), Err(DecodeError::InvalidUtf8));
    assert_eq!(
        decode(&TypeDescriptor::Bytes, &[0x02, 0xff], &reg),
        Ok((AvromaticValue::String(vec![0xff]), 2))
    );
    assert_eq!(
        encode(&TypeDescriptor::String, &AvromaticValue::String(vec![0xff]), &reg),
        Err(EncodeError::Mismatch)
    );
    assert_eq!(decode(&TypeDescriptor::String, &[0x06, 0x61], &reg), Err(DecodeError::UnexpectedEnd));
    assert_eq!(decode(&TypeDescriptor::String, &[0x01], &reg), Err(DecodeError::LengthOutOfRange));
    round_trips(&TypeDescriptor::String, text("gr\u{fc}\u{df}e \u{1f600}"), &reg);
}

#[test]
fn fixed_must_have_its_size() {
    let reg = empty();
    assert_eq!(
        encode(&TypeDescriptor::Fixed(4), &AvromaticValue::String(vec![1, 2, 3]), &reg),
        Err(EncodeError::Mismatch)
    );
    assert_eq!(decode(&TypeDescriptor::Fixed(4), &[1, 2, 3], &reg), Err(DecodeError::UnexpectedEnd));
    assert_eq!(
        decode(&TypeDescriptor::Fixed(0), &[], &reg),
        Ok((AvromaticValue::String(vec![]), 0))
    );
}

#[test]
fn enum_b_round_trips() {
    let reg = empty();
    let d = TypeDescriptor::Enum(vec!["A".to_string(), "B".to_string()]);
    assert_eq!(round_trips(&d, text("B"), &reg), vec![0x02]);
    assert_eq!(round_trips(&d, text("A"), &reg), vec![0x00]);
    assert_eq!(encode(&d, &text("UNKNOWN"), &reg), Err(EncodeError::UnknownSymbol));
    assert_eq!(decode(&d, &[0x04], &reg), Err(DecodeError::EnumIndexOutOfBounds));
    assert_eq!(decode(&d, &[0x01], &reg), Err(DecodeError::EnumIndexOutOfBounds));
}

#[test]
fn empty_array_is_a_single_zero() {
    let reg = empty();
    let d = TypeDescriptor::Array(Box::new(TypeDescriptor::Long));
    assert_eq!(encode(&d, &AvromaticValue::Array(vec![]), &reg), Ok(vec![0x00]));
    assert_eq!(decode(&d, &[0x00], &reg), Ok((AvromaticValue::Array(vec![]), 1)));
    assert_eq!(decode(&d, &[0x00, 0x55, 0x66], &reg), Ok((AvromaticValue::Array(vec![]), 1)));
    let m = TypeDescriptor::Mapping(Box::new(TypeDescriptor::Long));
    assert_eq!(encode(&m, &AvromaticValue::Mapping(vec![]), &reg), Ok(vec![0x00]));
    assert_eq!(decode(&m, &[0x00, 0x55], &reg), Ok((AvromaticValue::Mapping(vec![]), 1)));
}

#[test]
fn arrays_are_one_block_and_a_zero() {
    let reg = empty();
    let d = TypeDescriptor::Array(Box::new(TypeDescriptor::Long));
    let v = AvromaticValue::Array(vec![
        AvromaticValue::Long(1),
        AvromaticValue::Long(2),
        AvromaticValue::Long(-1),
    ]);
    assert_eq!(round_trips(&d, v, &reg), vec![0x06, 0x02, 0x04, 0x01, 0x00]);
}

#[test]
fn arrays_may_come_in_several_blocks() {
    let reg = empty();
    let d = TypeDescriptor::Array(Box::new(TypeDescriptor::Long));
    let bytes = [0x02, 0x02, 0x04, 0x00];
    assert_eq!(
        decode(&d, &[0x02, 0x02, 0x02, 0x04, 0x04, 0x06, 0x08, 0x00], &reg),
        Ok((
            AvromaticValue::Array(vec![
                AvromaticValue::Long(1),
                AvromaticValue::Long(2),
                AvromaticValue::Long(3),
                AvromaticValue::Long(4),
            ]),
            8
        ))
    );
    assert_eq!(decode(&d, &bytes, &reg), Err(DecodeError::UnexpectedEnd));
    assert_eq!(decode(&d, &[0x02, 0x02], &reg), Err(DecodeError::UnexpectedEnd));
    // a negative count is not read
    assert_eq!(decode(&d, &[0x01, 0x02, 0x02, 0x00], &reg), Err(DecodeError::LengthOutOfRange));
}

#[test]
fn arrays_of_nulls_take_no_bytes_per_item() {
    let reg = empty();
    let d = TypeDescriptor::Array(Box::new(TypeDescriptor::Null));
    let v = AvromaticValue::Array(vec![AvromaticValue::Null, AvromaticValue::Null]);
    assert_eq!(round_trips(&d, v, &reg), vec![0x04, 0x00]);
}

#[test]
fn maps_are_keys_and_values() {
    let reg = empty();
    let d = TypeDescriptor::Mapping(Box::new(TypeDescriptor::Long));
    let v = AvromaticValue::Mapping(vec![
        (b"a".to_vec(), AvromaticValue::Long(1)),
        (b"b".to_vec(), AvromaticValue::Long(2)),
    ]);
    assert_eq!(round_trips(&d, v, &reg), vec![0x04, 0x02, 0x61, 0x02, 0x02, 0x62, 0x04, 0x00]);
}

#[test]
fn a_map_key_read_twice_takes_the_later_value() {
    let reg = empty();
    let d = TypeDescriptor::Mapping(Box::new(TypeDescriptor::Long));
    let bytes = [0x06, 0x02, 0x61, 0x02, 0x02, 0x62, 0x04, 0x02, 0x61, 0x06, 0x00];
    assert_eq!(
        decode(&d, &bytes, &reg),
        Ok((
            AvromaticValue::Mapping(vec![
                (b"a".to_vec(), AvromaticValue::Long(3)),
                (b"b".to_vec(), AvromaticValue::Long(2)),
            ]),
            bytes.len()
        ))
    );
}

#[test]
fn a_map_key_must_be_a_string() {
    let reg = empty();
    let d = TypeDescriptor::Mapping(Box::new(TypeDescriptor::Long));
    assert_eq!(decode(&d, &[0x02, 0x02, 0xff, 0x02, 0x00], &reg), Err(DecodeError::MapKeyNotString));
    assert_eq!(decode(&d, &[0x02, 0x04, 0x61], &reg), Err(DecodeError::MapKeyNotString));
    assert_eq!(decode(&d, &[0x02], &reg), Err(DecodeError::MapKeyNotString));
}

#[test]
fn unions_write_the_branch_first() {
    let reg = empty();
    let d = TypeDescriptor::Union(
        vec![("null".to_string(), 0), ("string".to_string(), 1)],
        vec![TypeDescriptor::Null, TypeDescriptor::String],
    );
    assert_eq!(
        round_trips(&d, AvromaticValue::Union(1, Box::new(text("x"))), &reg),
        vec![0x02, 0x02, 0x78]
    );
    assert_eq!(
        round_trips(&d, AvromaticValue::Union(0, Box::new(AvromaticValue::Null)), &reg),
        vec![0x00]
    );
    assert_eq!(
        encode(&d, &AvromaticValue::Union(2, Box::new(AvromaticValue::Null)), &reg),
        Err(EncodeError::InvalidUnion)
    );
    assert_eq!(
        encode(&d, &AvromaticValue::Union(0, Box::new(text("x"))), &reg),
        Err(EncodeError::Mismatch)
    );
    assert_eq!(decode(&d, &[0x04], &reg), Err(DecodeError::UnionIndexOutOfBounds));
    assert_eq!(decode(&d, &[0x01], &reg), Err(DecodeError::UnionIndexOutOfBounds));
}

#[test]
fn an_untagged_value_goes_under_the_first_variant_that_takes_it() {
    let reg = empty();
    let d = TypeDescriptor::Union(
        vec![("null".to_string(), 0), ("int".to_string(), 1), ("long".to_string(), 2)],
        vec![TypeDescriptor::Null, TypeDescriptor::Int, TypeDescriptor::Long],
    );
    assert_eq!(encode(&d, &AvromaticValue::Null, &reg), Ok(vec![0x00]));
    assert_eq!(encode(&d, &AvromaticValue::Long(5), &reg), Ok(vec![0x02, 0x0a]));
    assert_eq!(encode(&d, &text("x"), &reg), Err(EncodeError::InvalidUnion));
    assert_eq!(
        decode(&d, &[0x02, 0x0a], &reg),
        Ok((AvromaticValue::Union(1, Box::new(AvromaticValue::Long(5))), 2))
    );
}

#[test]
fn null_under_a_type_that_is_not_null_is_not_written() {
    let reg = empty();
    assert_eq!(encode(&TypeDescriptor::Long, &AvromaticValue::Null, &reg), Err(EncodeError::Mismatch));
    assert_eq!(encode(&TypeDescriptor::Null, &AvromaticValue::Long(1), &reg), Err(EncodeError::Mismatch));
}

#[test]
fn the_pair_scenario_on_the_wire() {
    let reg = pair_registry();
    let d = TypeDescriptor::Record(0);
    let v = AvromaticValue::Record(ModelStorage {
        attributes: vec![
            ("k".to_string(), text("x")),
            ("v".to_string(), AvromaticValue::Union(1, Box::new(AvromaticValue::Long(5)))),
        ],
    });
    assert_eq!(round_trips(&d, v, &reg), vec![0x02, 0x78, 0x02, 0x0a]);
}

#[test]
fn a_record_writes_missing_fields_as_null() {
    let reg = pair_registry();
    let d = TypeDescriptor::Record(0);
    let v = AvromaticValue::Record(ModelStorage {
        attributes: vec![("k".to_string(), text("yz"))],
    });
    let bytes = encode(&d, &v, &reg).unwrap();
    assert_eq!(bytes, vec![0x04, 0x79, 0x7a, 0x00]);
    let decoded = AvromaticValue::Record(ModelStorage {
        attributes: vec![
            ("k".to_string(), text("yz")),
            ("v".to_string(), AvromaticValue::Union(0, Box::new(AvromaticValue::Null))),
        ],
    });
    assert_eq!(decode(&d, &bytes, &reg), Ok((decoded, 4)));
    let none = AvromaticValue::Record(ModelStorage { attributes: vec![] });
    assert_eq!(encode(&d, &none, &reg), Err(EncodeError::Mismatch));
}

#[test]
fn a_record_of_an_unknown_model() {
    let reg = empty();
    let d = TypeDescriptor::Record(3);
    let v = AvromaticValue::Record(ModelStorage { attributes: vec![] });
    assert_eq!(encode(&d, &v, &reg), Err(EncodeError::UnknownModel));
    assert_eq!(decode(&d, &[], &reg), Err(DecodeError::UnknownModel));
}

#[test]
fn nested_containers_round_trip() {
    let reg = pair_registry();
    let d = TypeDescriptor::Array(Box::new(TypeDescriptor::Mapping(Box::new(
        TypeDescriptor::Record(0),
    ))));
    let pair = |k: &str, v: i64| {
        AvromaticValue::Record(ModelStorage {
            attributes: vec![
                ("k".to_string(), text(k)),
                ("v".to_string(), AvromaticValue::Union(1, Box::new(AvromaticValue::Long(v)))),
            ],
        })
    };
    let v = AvromaticValue::Array(vec![
        AvromaticValue::Mapping(vec![(b"one".to_vec(), pair("a", 1)), (b"two".to_vec(), pair("b", -2))]),
        AvromaticValue::Mapping(vec![]),
    ]);
    round_trips(&d, v, &reg);
}

#[test]
fn decoding_gives_the_position_behind_the_value() {
    let reg = empty();
    let bytes = [0xee, 0x02, 0x78, 0x0a];
    assert_eq!(
        TypeDescriptor::String.decode(&bytes, 1, &reg, &NoHooks),
        Ok((text("x"), 3))
    );
    assert_eq!(
        TypeDescriptor::Long.decode(&bytes, 3, &reg, &NoHooks),
        Ok((AvromaticValue::Long(5), 4))
    );
    assert_eq!(
        TypeDescriptor::Long.decode(&bytes, 4, &reg, &NoHooks),
        Err(DecodeError::UnexpectedEnd)
    );
    assert_eq!(
        TypeDescriptor::Null.decode(&bytes, 2, &reg, &NoHooks),
        Ok((AvromaticValue::Null, 2))
    );
}

#[test]
fn registered_models_keep_their_key_and_fingerprint() {
    let reg = pair_registry();
    let model: &RegisteredModel = &reg.models[0];
    assert_eq!(model.key, b"ns.Pair".to_vec());
    assert_eq!(model.fingerprint, vec![1, 2, 3]);
    assert_eq!(reg.lookup("ns.Pair"), Some(0));
    assert_eq!(reg.lookup("ns.Other"), None);
    assert!(reg.is_registered("ns.Pair"));
    assert!(!reg.is_registered("Pair"));
}
