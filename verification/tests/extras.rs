use avromatic::builder::{AvromaticModel, SchemaError};
use avromatic::codec::EncodeError;
use avromatic::coercion::{bad_coercion, coerce_custom, custom_outcome, has_ancestor, kind_of, lookup};
use avromatic::custom_types::{hook_outcome, CustomTypeHooks, NoHooks};
use avromatic::de::{decode_custom, read_bytes, read_prefixed, read_text};
use avromatic::descriptors::{
    same_names, same_references, AttributeDescriptor, CustomTypeConfiguration, RecordDescriptor,
    TypeDescriptor,
};
use avromatic::errors::{AvromaticError, HostKind, TypeName};
use avromatic::literal::{custom_attribute, find_field, find_reference, text_bytes};
use avromatic::model_descriptor::{find_conflict, merge_storage};
use avromatic::model_pool::ModelRegistry;
use avromatic::schema::{SchemaField, SchemaKind, SchemaNode};
use avromatic::serializer::{
    find_attribute, serialize, serialize_bytes, serialize_enum, serialize_fixed, serialize_integer,
    serialize_long, serialize_string, to_avro,
};
use avromatic::values::{
    bytes_equal, clone_bytes, slice_to_vec, str_equal, AvromaticValue, HostValue, ModelInstance,
    ModelStorage,
};
use avromatic::varint::DecodeError;

struct Failing;

impl CustomTypeHooks for Failing {
    fn to_avro(&self, _name: &str, _value: &HostValue) -> Option<HostValue> {
        None
    }

    fn from_avro(&self, _name: &str, _value: &HostValue) -> Option<HostValue> {
        None
    }
}

struct Upcase;

impl CustomTypeHooks for Upcase {
    fn to_avro(&self, _name: &str, value: &HostValue) -> Option<HostValue> {
        match value {
            HostValue::String(bytes) => Some(HostValue::String(bytes.to_ascii_lowercase())),
            _ => None,
        }
    }

    fn from_avro(&self, _name: &str, value: &HostValue) -> Option<HostValue> {
        match value {
            HostValue::String(bytes) => Some(HostValue::String(bytes.to_ascii_uppercase())),
            _ => None,
        }
    }
}

fn hooked() -> CustomTypeConfiguration {
    CustomTypeConfiguration { name: "ns.Shout".to_string(), to_avro: true, from_avro: true }
}

fn node(kind: SchemaKind) -> SchemaNode {
    SchemaNode {
        kind,
        fullname: None,
        fixed_size: None,
        symbols: None,
        children: None,
        fields: None,
        canonical_form: Vec::new(),
    }
}

fn string(s: &str) -> HostValue {
    HostValue::String(s.as_bytes().to_vec())
}

fn text(s: &str) -> AvromaticValue {
    AvromaticValue::String(s.as_bytes().to_vec())
}

#[test]
fn a_failing_hook_fails_each_call_with_its_own_error() {
    let reg = ModelRegistry::new(None);
    let d = TypeDescriptor::Custom(hooked(), Box::new(TypeDescriptor::String));
    assert_eq!(d.coerce(&string("x"), &reg, &Failing), Err(AvromaticError::CustomTypeFailed));
    let wrapped = AvromaticValue::Custom(Box::new(string("x")));
    assert_eq!(d.serialize(&wrapped, &reg, &Failing), Err(EncodeError::CustomTypeFailed));
    assert_eq!(d.decode(&[0x02, 0x78], 0, &reg, &Failing), Err(DecodeError::CustomTypeFailed));
    assert_eq!(d.serialize(&text("x"), &reg, &Failing), Err(EncodeError::Mismatch));
    assert_eq!(AvromaticError::CustomTypeFailed.message(), "a custom type's conversion failed");
    assert_eq!(AvromaticError::UnknownModel.message(), "the record's model is not registered");
}

#[test]
fn hooks_are_called_on_the_way_in_and_on_the_way_out() {
    let reg = ModelRegistry::new(None);
    let d = TypeDescriptor::Custom(hooked(), Box::new(TypeDescriptor::String));
    let coerced = d.coerce(&string("abc"), &reg, &Upcase).unwrap();
    assert_eq!(coerced, AvromaticValue::Custom(Box::new(string("ABC"))));
    let bytes = d.serialize(&coerced, &reg, &Upcase).unwrap();
    assert_eq!(bytes, vec![0x06, 0x61, 0x62, 0x63]);
    assert_eq!(d.decode(&bytes, 0, &reg, &Upcase), Ok((coerced, 4)));
    // what the hook hands back must fit the underlying type
    let number = TypeDescriptor::Custom(hooked(), Box::new(TypeDescriptor::Long));
    let wrapped = AvromaticValue::Custom(Box::new(string("ABC")));
    assert_eq!(number.serialize(&wrapped, &reg, &Upcase), Err(EncodeError::Mismatch));
}

#[test]
fn configurations_call_a_hook_only_where_it_exists_and_the_value_is_not_nil() {
    let both = hooked();
    assert_eq!(both.serialize(&string("ABC"), &Upcase), Some(string("abc")));
    assert_eq!(both.deserialize(&string("abc"), &Upcase), Some(string("ABC")));
    assert_eq!(both.serialize(&HostValue::Nil, &Failing), Some(HostValue::Nil));
    assert_eq!(both.deserialize(&HostValue::Nil, &Failing), Some(HostValue::Nil));
    assert_eq!(both.serialize(&string("x"), &Failing), None);
    let none = CustomTypeConfiguration { name: "n".to_string(), to_avro: false, from_avro: false };
    assert_eq!(none.serialize(&string("x"), &Failing), Some(string("x")));
    assert_eq!(none.deserialize(&string("x"), &Failing), Some(string("x")));
    assert!(both.same(&hooked()));
    assert!(!both.same(&none));
    assert_eq!(hook_outcome(true, &string("a"), Some(string("b"))), Some(string("b")));
    assert_eq!(hook_outcome(true, &string("a"), None), None);
    assert_eq!(hook_outcome(false, &string("a"), Some(string("b"))), Some(string("a")));
    assert_eq!(NoHooks.to_avro("n", &string("x")), None);
    assert_eq!(NoHooks.from_avro("n", &string("x")), None);
}

#[test]
fn outcomes_of_hooks() {
    assert_eq!(custom_outcome(None), Err(AvromaticError::CustomTypeFailed));
    assert_eq!(custom_outcome(Some(string("a"))), Ok(AvromaticValue::Custom(Box::new(string("a")))));
    assert_eq!(
        coerce_custom(&string("a"), &hooked(), &Upcase),
        Ok(AvromaticValue::Custom(Box::new(string("A"))))
    );
    assert_eq!(decode_custom(None, &hooked(), &Upcase), Err(DecodeError::CustomTypeFailed));
    assert_eq!(
        decode_custom(Some(string("a")), &hooked(), &Upcase),
        Ok(AvromaticValue::Custom(Box::new(string("A"))))
    );
    assert_eq!(custom_attribute(None, &hooked(), &Upcase), None);
    assert_eq!(
        custom_attribute(Some(string("a")), &hooked(), &Upcase),
        Some(AvromaticValue::Custom(Box::new(string("A"))))
    );
    assert_eq!(custom_attribute(Some(string("a")), &hooked(), &Failing), None);
}

#[test]
fn only_a_named_record_makes_a_model() {
    let named = SchemaNode {
        fullname: Some("ns.A".to_string()),
        fields: Some(vec![]),
        ..node(SchemaKind::Record)
    };
    assert_eq!(AvromaticModel::from_schema(&named), Ok("ns.A".to_string()));
    assert_eq!(AvromaticModel::from_schema(&node(SchemaKind::Record)), Err(SchemaError::InvalidSchema));
    assert_eq!(AvromaticModel::from_schema(&node(SchemaKind::Long)), Err(SchemaError::NotARecord));
    let an_enum = SchemaNode { fullname: Some("ns.E".to_string()), ..node(SchemaKind::Enum) };
    assert_eq!(AvromaticModel::from_schema(&an_enum), Err(SchemaError::NotARecord));
    assert_eq!(node(SchemaKind::Mapping).kind(), SchemaKind::Mapping);
    assert_eq!(SchemaKind::Mapping.name(), "map");
    assert_eq!(SchemaKind::TimestampMicros.name(), "timestamp-micros");
    assert_eq!(named.reference(), "ns.A");
    assert_eq!(node(SchemaKind::Bytes).reference(), "bytes");
}

#[test]
fn writing_straight_from_a_schema() {
    let union = SchemaNode {
        children: Some(vec![node(SchemaKind::Null), node(SchemaKind::Long)]),
        ..node(SchemaKind::Union)
    };
    assert_eq!(to_avro(&node(SchemaKind::Long), &AvromaticValue::Long(5)), Ok(vec![0x0a]));
    assert_eq!(to_avro(&union, &AvromaticValue::Long(5)), Ok(vec![0x02, 0x0a]));
    assert_eq!(to_avro(&union, &AvromaticValue::Null), Ok(vec![0x00]));
    assert_eq!(to_avro(&node(SchemaKind::Fixed), &text("x")), Err(EncodeError::Mismatch));
    assert_eq!(to_avro(&node(SchemaKind::Long), &text("x")), Err(EncodeError::Mismatch));
    let record = SchemaNode {
        fullname: Some("ns.Pair".to_string()),
        fields: Some(vec![
            SchemaField { name: "k".to_string(), schema: node(SchemaKind::String), default: None },
            SchemaField { name: "v".to_string(), schema: union, default: None },
        ]),
        ..node(SchemaKind::Record)
    };
    let attributes = ModelStorage {
        attributes: vec![("v".to_string(), AvromaticValue::Long(5)), ("k".to_string(), text("x"))],
    };
    assert_eq!(serialize(&record, &attributes), Ok(vec![0x02, 0x78, 0x02, 0x0a]));
    assert_eq!(
        to_avro(&record, &AvromaticValue::Record(ModelStorage { attributes: attributes.duplicate().attributes })),
        Ok(vec![0x02, 0x78, 0x02, 0x0a])
    );
    assert_eq!(serialize(&node(SchemaKind::Record), &attributes), Err(EncodeError::Mismatch));
}

#[test]
fn the_parts_of_the_serializer() {
    assert_eq!(serialize_bytes(&vec![1, 2]), vec![0x04, 1, 2]);
    assert_eq!(serialize_string(&b"ab".to_vec()), Ok(vec![0x04, 0x61, 0x62]));
    assert_eq!(serialize_string(&vec![0xc3]), Err(EncodeError::Mismatch));
    assert_eq!(serialize_long(-2), vec![0x03]);
    assert_eq!(serialize_integer(-2), Ok(vec![0x03]));
    assert_eq!(serialize_integer(i64::MAX), Err(EncodeError::IntOutOfRange));
    let symbols = vec!["A".to_string(), "B".to_string(), "A".to_string()];
    assert_eq!(serialize_enum(&b"A".to_vec(), &symbols), Ok(vec![0x00]));
    assert_eq!(serialize_enum(&b"B".to_vec(), &symbols), Ok(vec![0x02]));
    assert_eq!(serialize_enum(&b"C".to_vec(), &symbols), Err(EncodeError::UnknownSymbol));
    assert_eq!(serialize_fixed(&vec![1, 2], 2), Ok(vec![1, 2]));
    assert_eq!(serialize_fixed(&vec![1, 2], 3), Err(EncodeError::Mismatch));
    let storage = ModelStorage {
        attributes: vec![("a".to_string(), AvromaticValue::Long(1)), ("a".to_string(), AvromaticValue::Long(2))],
    };
    assert_eq!(find_attribute(&storage, &"a".to_string()), Some(&AvromaticValue::Long(1)));
    assert_eq!(find_attribute(&storage, &"b".to_string()), None);
}

#[test]
fn the_parts_of_the_decoder() {
    let bytes = [0x04, 0x61, 0xff, 0x09];
    assert_eq!(read_bytes(&bytes, 1, 2), Ok((vec![0x61, 0xff], 3)));
    assert_eq!(read_bytes(&bytes, 1, 4), Err(DecodeError::UnexpectedEnd));
    assert_eq!(read_bytes(&bytes, 9, 0), Err(DecodeError::UnexpectedEnd));
    assert_eq!(read_bytes(&bytes, 4, 0), Ok((vec![], 4)));
    assert_eq!(read_bytes(&bytes, 1, usize::MAX), Err(DecodeError::UnexpectedEnd));
    assert_eq!(read_prefixed(&bytes, 0), Ok((vec![0x61, 0xff], 3)));
    assert_eq!(read_text(&bytes, 0), Err(DecodeError::InvalidUtf8));
    assert_eq!(read_text(&[0x02, 0x61], 0), Ok((vec![0x61], 2)));
}

#[test]
fn descriptors_are_compared_by_what_they_describe() {
    let union = |second: TypeDescriptor| {
        TypeDescriptor::Union(
            vec![("null".to_string(), 0), ("x".to_string(), 1)],
            vec![TypeDescriptor::Null, second],
        )
    };
    assert!(TypeDescriptor::Long.same(&TypeDescriptor::Long));
    assert!(!TypeDescriptor::Long.same(&TypeDescriptor::Int));
    assert!(TypeDescriptor::Fixed(3).same(&TypeDescriptor::Fixed(3)));
    assert!(!TypeDescriptor::Fixed(3).same(&TypeDescriptor::Fixed(4)));
    assert!(TypeDescriptor::Record(1).same(&TypeDescriptor::Record(1)));
    assert!(!TypeDescriptor::Record(1).same(&TypeDescriptor::Record(2)));
    assert!(union(TypeDescriptor::Long).same(&union(TypeDescriptor::Long)));
    assert!(!union(TypeDescriptor::Long).same(&union(TypeDescriptor::String)));
    let array = |inner: TypeDescriptor| TypeDescriptor::Array(Box::new(inner));
    assert!(array(union(TypeDescriptor::Date)).same(&array(union(TypeDescriptor::Date))));
    assert!(!array(TypeDescriptor::Date).same(&TypeDescriptor::Mapping(Box::new(TypeDescriptor::Date))));
    let names = |list: &[&str]| list.iter().map(|s| s.to_string()).collect::<Vec<_>>();
    assert!(TypeDescriptor::Enum(names(&["A", "B"])).same(&TypeDescriptor::Enum(names(&["A", "B"]))));
    assert!(!TypeDescriptor::Enum(names(&["A", "B"])).same(&TypeDescriptor::Enum(names(&["B", "A"]))));
    assert!(same_names(&names(&[]), &names(&[])));
    assert!(!same_names(&names(&["A"]), &names(&["A", "A"])));
    assert!(same_references(&vec![("a".to_string(), 1)], &vec![("a".to_string(), 1)]));
    assert!(!same_references(&vec![("a".to_string(), 1)], &vec![("a".to_string(), 2)]));
    let custom = TypeDescriptor::Custom(hooked(), Box::new(TypeDescriptor::Long));
    assert!(custom.same(&TypeDescriptor::Custom(hooked(), Box::new(TypeDescriptor::Long))));
    assert!(!custom.same(&TypeDescriptor::Long));
}

#[test]
fn lookups() {
    let record = RecordDescriptor {
        attributes: vec![
            ("a".to_string(), AttributeDescriptor { type_descriptor: TypeDescriptor::Long, default: None }),
            ("b".to_string(), AttributeDescriptor { type_descriptor: TypeDescriptor::Int, default: None }),
        ],
    };
    assert_eq!(find_field(&record, &"b".to_string()), Some(1));
    assert_eq!(find_field(&record, &"c".to_string()), None);
    let other = RecordDescriptor {
        attributes: vec![
            ("z".to_string(), AttributeDescriptor { type_descriptor: TypeDescriptor::Long, default: None }),
            ("b".to_string(), AttributeDescriptor { type_descriptor: TypeDescriptor::Long, default: None }),
            ("a".to_string(), AttributeDescriptor { type_descriptor: TypeDescriptor::Int, default: None }),
        ],
    };
    assert_eq!(find_conflict(&record, &record), None);
    assert_eq!(find_conflict(&other, &record), Some(1));
    let refs = vec![("a".to_string(), 0), ("b".to_string(), 1), ("a".to_string(), 2)];
    assert_eq!(find_reference(&refs, &"a".to_string()), Some(2));
    assert_eq!(find_reference(&refs, &"c".to_string()), None);
    let data = vec![
        (string("k"), string("first")),
        (HostValue::Symbol(b"k".to_vec()), string("second")),
        (HostValue::Nil, string("third")),
    ];
    assert_eq!(lookup(&data, &"k".to_string()), Some(&string("second")));
    assert_eq!(lookup(&data, &"j".to_string()), None);
    assert!(has_ancestor(&vec![3, 1], 1));
    assert!(!has_ancestor(&vec![3, 1], 2));
    assert_eq!(text_bytes(&"\u{e9}".to_string()), vec![0xc3, 0xa9]);
}

#[test]
fn storages_merge_by_name() {
    let base = ModelStorage {
        attributes: vec![("a".to_string(), AvromaticValue::Long(1)), ("b".to_string(), AvromaticValue::Long(2))],
    };
    let extra = ModelStorage {
        attributes: vec![("b".to_string(), AvromaticValue::Long(20)), ("c".to_string(), AvromaticValue::Long(30))],
    };
    assert_eq!(
        merge_storage(base, extra).attributes,
        vec![
            ("a".to_string(), AvromaticValue::Long(1)),
            ("b".to_string(), AvromaticValue::Long(20)),
            ("c".to_string(), AvromaticValue::Long(30)),
        ]
    );
    assert_eq!(ModelStorage::new().attributes.len(), 0);
}

#[test]
fn copies_are_equal_to_what_they_copy() {
    let storage = ModelStorage { attributes: vec![("k".to_string(), text("x"))] };
    let host = HostValue::Array(vec![
        HostValue::Mapping(vec![(string("a"), HostValue::Time(1, 2))]),
        HostValue::Model(ModelInstance { ancestors: vec![1], storage: storage.duplicate() }),
        HostValue::Object(7),
        HostValue::DateTime(3),
    ]);
    assert_eq!(host.duplicate(), host);
    let value = AvromaticValue::Array(vec![
        AvromaticValue::Mapping(vec![(b"a".to_vec(), AvromaticValue::Double(9))]),
        AvromaticValue::Union(1, Box::new(AvromaticValue::Record(storage.duplicate()))),
        AvromaticValue::Custom(Box::new(host.duplicate())),
        AvromaticValue::Float(3),
    ]);
    assert_eq!(value.duplicate(), value);
    assert_eq!(clone_bytes(&vec![1, 2, 3]), vec![1, 2, 3]);
    assert_eq!(slice_to_vec(&[1, 2, 3, 4], 1, 3), vec![2, 3]);
    assert!(bytes_equal(&[1, 2], &[1, 2]));
    assert!(!bytes_equal(&[1, 2], &[1, 3]));
    assert!(!bytes_equal(&[1, 2], &[1]));
    assert!(str_equal("ab", "ab"));
    assert!(!str_equal("ab", "ac"));
}

#[test]
fn kinds_of_host_values() {
    assert_eq!(kind_of(&HostValue::Nil), HostKind::Nil);
    assert_eq!(kind_of(&HostValue::Object(1)), HostKind::Object);
    assert_eq!(kind_of(&HostValue::Time(0, 0)), HostKind::Time);
    assert_eq!(
        bad_coercion(&HostValue::Array(vec![]), TypeName::Date),
        AvromaticError::InvalidValue { value: HostKind::Array, name: TypeName::Date }
    );
    assert_eq!(HostKind::Object.text(), "an object");
    assert_eq!(TypeName::Record.text(), "record");
}
