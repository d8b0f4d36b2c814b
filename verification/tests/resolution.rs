use avromatic::custom_types::{CustomTypeRegistry, NoHooks};
use avromatic::descriptors::TypeDescriptor as T;
use avromatic::descriptors::{
    AttributeDescriptor, CustomTypeConfiguration, RecordDescriptor, TypeDescriptor,
};
use avromatic::model_pool::ModelRegistry;
use avromatic::resolution::{has_symbol, resolve_datum};
use avromatic::values::{AvromaticValue, HostValue, ModelStorage};
use avromatic::varint::DecodeError;

fn text(s: &str) -> AvromaticValue {
    AvromaticValue::String(s.as_bytes().to_vec())
}

fn resolve(w: &TypeDescriptor, r: &TypeDescriptor, v: AvromaticValue) -> Option<AvromaticValue> {
    let none = ModelRegistry::new(None);
    w.resolve(r, &v, &none, &none, &NoHooks)
}

fn union_of(variants: Vec<TypeDescriptor>) -> TypeDescriptor {
    TypeDescriptor::Union(Vec::new(), variants)
}

fn attribute(d: TypeDescriptor, default: Option<AvromaticValue>) -> AttributeDescriptor {
    AttributeDescriptor { type_descriptor: d, default }
}

fn record(fields: Vec<(&str, TypeDescriptor, Option<AvromaticValue>)>) -> RecordDescriptor {
    RecordDescriptor {
        attributes: fields
            .into_iter()
            .map(|(name, d, default)| (name.to_string(), attribute(d, default)))
            .collect(),
    }
}

#[test]
fn a_type_resolves_to_itself() {
    assert_eq!(resolve(&T::Null, &T::Null, AvromaticValue::Null), Some(AvromaticValue::Null));
    assert_eq!(resolve(&T::Boolean, &T::Boolean, AvromaticValue::True), Some(AvromaticValue::True));
    assert_eq!(resolve(&T::Long, &T::Long, AvromaticValue::Long(1 << 40)), Some(AvromaticValue::Long(1 << 40)));
    assert_eq!(resolve(&T::Float, &T::Float, AvromaticValue::Float(7)), Some(AvromaticValue::Float(7)));
    assert_eq!(resolve(&T::Double, &T::Double, AvromaticValue::Double(7)), Some(AvromaticValue::Double(7)));
    assert_eq!(resolve(&T::String, &T::String, text("x")), Some(text("x")));
    assert_eq!(resolve(&T::Fixed(1), &T::Fixed(1), text("x")), Some(text("x")));
    assert_eq!(resolve(&T::Null, &T::Long, AvromaticValue::Null), None);
    assert_eq!(resolve(&T::Boolean, &T::Long, AvromaticValue::True), None);
    assert_eq!(resolve(&T::Long, &T::Long, AvromaticValue::True), None);
}

#[test]
fn integers_are_promoted_and_floats_are_not() {
    let five = || AvromaticValue::Long(5);
    assert_eq!(resolve(&T::Int, &T::Long, five()), Some(five()));
    assert_eq!(resolve(&T::Int, &T::Int, five()), Some(five()));
    assert_eq!(resolve(&T::Int, &T::Date, five()), Some(five()));
    assert_eq!(resolve(&T::Date, &T::TimestampMillis, five()), Some(five()));
    assert_eq!(resolve(&T::Long, &T::TimestampMicros, five()), Some(five()));
    assert_eq!(resolve(&T::TimestampMillis, &T::Long, five()), Some(five()));
    assert_eq!(resolve(&T::Long, &T::Int, five()), None);
    assert_eq!(resolve(&T::TimestampMicros, &T::Date, five()), None);
    assert_eq!(resolve(&T::Int, &T::Long, AvromaticValue::Long(1 << 40)), None);
    assert_eq!(resolve(&T::Int, &T::Double, five()), None);
    assert_eq!(resolve(&T::Long, &T::Float, five()), None);
    assert_eq!(resolve(&T::Float, &T::Double, AvromaticValue::Float(1)), None);
    assert_eq!(resolve(&T::Double, &T::Float, AvromaticValue::Double(1)), None);
}

#[test]
fn strings_bytes_fixed_and_enums() {
    let raw = || AvromaticValue::String(vec![0xff]);
    assert_eq!(resolve(&T::String, &T::Bytes, text("x")), Some(text("x")));
    assert_eq!(resolve(&T::Bytes, &T::String, text("x")), Some(text("x")));
    assert_eq!(resolve(&T::Bytes, &T::String, raw()), None);
    assert_eq!(resolve(&T::Bytes, &T::Bytes, raw()), Some(raw()));
    assert_eq!(resolve(&T::Fixed(1), &T::Fixed(2), text("x")), None);
    assert_eq!(resolve(&T::Fixed(2), &T::Fixed(2), text("x")), None);
    assert_eq!(resolve(&T::Fixed(1), &T::Bytes, text("x")), None);
    let symbols = |list: &[&str]| T::Enum(list.iter().map(|s| s.to_string()).collect());
    assert_eq!(resolve(&symbols(&["A", "B"]), &symbols(&["B", "C"]), text("B")), Some(text("B")));
    assert_eq!(resolve(&symbols(&["A", "B"]), &symbols(&["B", "C"]), text("A")), None);
    assert_eq!(resolve(&T::String, &symbols(&["A"]), text("A")), None);
    assert!(has_symbol(&vec!["A".to_string(), "B".to_string()], &b"B".to_vec()));
    assert!(!has_symbol(&vec!["A".to_string()], &b"B".to_vec()));
    assert!(T::Int.is_int_like() && T::Date.is_int_like() && !T::Long.is_int_like());
    assert!(T::Long.is_long_like() && T::TimestampMillis.is_long_like() && !T::Int.is_long_like());
}

#[test]
fn unions_on_either_side() {
    let written = union_of(vec![T::Null, T::Int, T::String]);
    let read = union_of(vec![T::Null, T::String, T::Long]);
    let tagged = |i: usize, v: AvromaticValue| AvromaticValue::Union(i, Box::new(v));
    assert_eq!(
        resolve(&written, &read, tagged(1, AvromaticValue::Long(5))),
        Some(tagged(2, AvromaticValue::Long(5)))
    );
    assert_eq!(resolve(&written, &read, tagged(2, text("x"))), Some(tagged(1, text("x"))));
    assert_eq!(
        resolve(&written, &read, tagged(0, AvromaticValue::Null)),
        Some(tagged(0, AvromaticValue::Null))
    );
    // a written branch that does not exist
    assert_eq!(resolve(&written, &read, tagged(3, AvromaticValue::Null)), None);
    // a written union value that is no union value
    assert_eq!(resolve(&written, &read, AvromaticValue::Null), None);
    // the reader has a union, the writer none
    assert_eq!(resolve(&T::Int, &read, AvromaticValue::Long(5)), Some(tagged(2, AvromaticValue::Long(5))));
    assert_eq!(resolve(&T::Boolean, &read, AvromaticValue::True), None);
    // the writer has a union, the reader none
    assert_eq!(resolve(&written, &T::Long, tagged(1, AvromaticValue::Long(5))), Some(AvromaticValue::Long(5)));
    assert_eq!(resolve(&written, &T::Long, tagged(2, text("x"))), None);
    assert_eq!(resolve(&written, &union_of(vec![]), tagged(1, AvromaticValue::Long(5))), None);
}

#[test]
fn arrays_and_maps_item_by_item() {
    let ints = T::Array(Box::new(T::Int));
    let longs = T::Array(Box::new(T::Long));
    let items = || AvromaticValue::Array(vec![AvromaticValue::Long(1), AvromaticValue::Long(2)]);
    assert_eq!(resolve(&ints, &longs, items()), Some(items()));
    assert_eq!(resolve(&longs, &ints, items()), None);
    assert_eq!(resolve(&longs, &ints, AvromaticValue::Array(vec![])), Some(AvromaticValue::Array(vec![])));
    assert_eq!(resolve(&ints, &T::Long, items()), None);
    let written = T::Mapping(Box::new(T::String));
    let read = T::Mapping(Box::new(union_of(vec![T::Null, T::Bytes])));
    let entries = AvromaticValue::Mapping(vec![(b"a".to_vec(), text("x")), (b"b".to_vec(), text("y"))]);
    assert_eq!(
        resolve(&written, &read, entries),
        Some(AvromaticValue::Mapping(vec![
            (b"a".to_vec(), AvromaticValue::Union(1, Box::new(text("x")))),
            (b"b".to_vec(), AvromaticValue::Union(1, Box::new(text("y")))),
        ]))
    );
    assert_eq!(resolve(&written, &longs, AvromaticValue::Mapping(vec![])), None);
}

#[test]
fn records_field_by_field() {
    let mut writers = ModelRegistry::new(None);
    writers.register(
        "Inner",
        vec![1],
        record(vec![
            ("gone", TypeDescriptor::String, None),
            ("n", TypeDescriptor::Int, None),
        ]),
    );
    let mut readers = ModelRegistry::new(None);
    readers.register(
        "Inner",
        vec![2],
        record(vec![
            ("n", TypeDescriptor::Long, None),
            ("fresh", TypeDescriptor::Boolean, Some(AvromaticValue::True)),
        ]),
    );
    let written = record(vec![
        ("id", TypeDescriptor::Long, None),
        ("inner", TypeDescriptor::Record(0), None),
    ]);
    let read = record(vec![
        ("inner", TypeDescriptor::Record(0), None),
        ("id", union_of(vec![TypeDescriptor::Null, TypeDescriptor::Long]), None),
    ]);
    // id = 7, inner = { gone = "x", n = 3 }
    let data = [0x0e, 0x02, 0x78, 0x06];
    let resolved = resolve_datum(&written, &writers, &read, &readers, &data, &NoHooks).unwrap();
    assert_eq!(
        resolved.attributes,
        vec![
            (
                "inner".to_string(),
                AvromaticValue::Record(ModelStorage {
                    attributes: vec![
                        ("n".to_string(), AvromaticValue::Long(3)),
                        ("fresh".to_string(), AvromaticValue::True),
                    ],
                })
            ),
            ("id".to_string(), AvromaticValue::Union(1, Box::new(AvromaticValue::Long(7)))),
        ]
    );
    // what the resolved record writes, the reader reads
    let bytes = read.serialize(&resolved, &readers, &NoHooks).unwrap();
    assert_eq!(bytes, vec![0x06, 0x01, 0x02, 0x0e]);
    assert_eq!(read.deserialize(&bytes, 0, &readers, &NoHooks), Ok((resolved, 4)));
    assert_eq!(
        resolve_datum(&written, &writers, &read, &readers, &data[..2], &NoHooks),
        Err(DecodeError::UnexpectedEnd)
    );
    // a reader's field without default that the writer lacks
    let needy = record(vec![("missing", TypeDescriptor::Long, None)]);
    assert_eq!(
        resolve_datum(&written, &writers, &needy, &readers, &data, &NoHooks),
        Err(DecodeError::Unresolvable)
    );
    // a record handle that one side does not hold
    let lost = record(vec![("inner", TypeDescriptor::Record(4), None)]);
    assert_eq!(
        resolve_datum(&written, &writers, &lost, &readers, &data, &NoHooks),
        Err(DecodeError::Unresolvable)
    );
}

#[test]
fn a_custom_type_of_the_reader_takes_the_underlying_value() {
    let plain = TypeDescriptor::Custom(
        CustomTypeConfiguration { name: "n".to_string(), to_avro: false, from_avro: false },
        Box::new(TypeDescriptor::Bytes),
    );
    assert_eq!(
        resolve(&TypeDescriptor::String, &plain, text("x")),
        Some(AvromaticValue::Custom(Box::new(HostValue::String(b"x".to_vec()))))
    );
    assert_eq!(resolve(&TypeDescriptor::Long, &plain, AvromaticValue::Long(1)), None);
    let hooked = TypeDescriptor::Custom(
        CustomTypeConfiguration { name: "n".to_string(), to_avro: true, from_avro: true },
        Box::new(TypeDescriptor::Bytes),
    );
    // the hook of a host without extensions fails
    assert_eq!(resolve(&TypeDescriptor::String, &hooked, text("x")), None);
    assert_eq!(CustomTypeRegistry::new().custom_types.len(), 0);
}
