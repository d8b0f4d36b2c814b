use avromatic::builder::SchemaError;
use avromatic::codec::EncodeError;
use avromatic::custom_types::{CustomTypeRegistry, NoHooks};
use avromatic::descriptors::TypeDescriptor;
use avromatic::errors::{AvromaticError, HostKind, TypeName};
use avromatic::model::{
    classify_method, respond_to_missing, AvromaticConfiguration, AvromaticModelAttributes,
    MethodCall,
};
use avromatic::model_descriptor::{ModelDescriptorInner, ModelSchema};
use avromatic::model_pool::ModelRegistry;
use avromatic::schema::{AvroValue, SchemaField, SchemaKind, SchemaNode};
use avromatic::values::{AvromaticValue, HostNumber, HostValue, ModelStorage};
use avromatic::varint::DecodeError;

fn node(kind: SchemaKind) -> SchemaNode {
    SchemaNode {
        kind,
        fullname: None,
        fixed_size: None,
        symbols: None,
        children: None,
        fields: None,
        canonical_form: Vec::new(),
    }
}

fn union_of(kinds: Vec<SchemaKind>) -> SchemaNode {
    SchemaNode { children: Some(kinds.into_iter().map(node).collect()), ..node(SchemaKind::Union) }
}

fn field(name: &str, schema: SchemaNode, default: Option<AvroValue>) -> SchemaField {
    SchemaField { name: name.to_string(), schema, default }
}

fn model_schema(name: &str, source: &str, fields: Vec<SchemaField>) -> ModelSchema {
    ModelSchema {
        schema: SchemaNode {
            fullname: Some(name.to_string()),
            fields: Some(fields),
            canonical_form: source.as_bytes().to_vec(),
            ..node(SchemaKind::Record)
        },
    }
}

const VALUE: &str = r#"{"type":"record","name":"Event","fields":[{"name":"k","type":"string"},{"name":"v","type":["null","long"],"default":null},{"name":"ok","type":"boolean","default":false}]}"#;
const KEY: &str = r#"{"type":"record","name":"EventKey","fields":[{"name":"id","type":"long"},{"name":"k","type":"string"}]}"#;
const WRITER: &str = r#"{"type":"record","name":"Event","fields":[{"name":"k","type":"string"},{"name":"gone","type":"long"}]}"#;

fn value_schema() -> ModelSchema {
    model_schema(
        "Event",
        VALUE,
        vec![
            field("k", node(SchemaKind::String), None),
            field("v", union_of(vec![SchemaKind::Null, SchemaKind::Long]), Some(AvroValue::Null)),
            field("ok", node(SchemaKind::Boolean), Some(AvroValue::Boolean(false))),
        ],
    )
}

fn key_schema() -> ModelSchema {
    model_schema(
        "EventKey",
        KEY,
        vec![
            field("id", node(SchemaKind::Long), None),
            field("k", node(SchemaKind::String), None),
        ],
    )
}

fn writer_schema() -> ModelSchema {
    model_schema(
        "Event",
        WRITER,
        vec![
            field("k", node(SchemaKind::String), None),
            field("gone", node(SchemaKind::Long), None),
        ],
    )
}

fn model(key: bool) -> (ModelDescriptorInner, ModelRegistry) {
    let mut reg = ModelRegistry::new(None);
    let descriptor = ModelDescriptorInner::new(
        if key { Some(key_schema()) } else { None },
        value_schema(),
        &mut reg,
        &CustomTypeRegistry::new(),
        &NoHooks,
    )
    .unwrap();
    (descriptor, reg)
}

fn integer(n: i64) -> HostValue {
    HostValue::Number(HostNumber { integer: true, as_integer: Some(n), as_double: None, as_single: None })
}

fn string(s: &str) -> HostValue {
    HostValue::String(s.as_bytes().to_vec())
}

fn symbol(s: &str) -> HostValue {
    HostValue::Symbol(s.as_bytes().to_vec())
}

fn text(s: &str) -> AvromaticValue {
    AvromaticValue::String(s.as_bytes().to_vec())
}

fn long_branch(n: i64) -> AvromaticValue {
    AvromaticValue::Union(1, Box::new(AvromaticValue::Long(n)))
}

#[test]
fn a_model_keeps_its_schemas_and_fields() {
    let (descriptor, reg) = model(true);
    assert_eq!(reg.models.len(), 0);
    assert_eq!(descriptor.value_schema(), &value_schema());
    let names = |fields: Vec<(&String, _)>| -> Vec<String> {
        fields.into_iter().map(|(name, _): (&String, &avromatic::descriptors::AttributeDescriptor)| name.clone()).collect()
    };
    assert_eq!(names(descriptor.each_key_field()), vec!["id", "k"]);
    assert_eq!(names(descriptor.each_value_field()), vec!["k", "v", "ok"]);
    assert_eq!(names(descriptor.each_field()), vec!["id", "k", "k", "v", "ok"]);
    assert!(descriptor.get_attribute("v").is_some());
    // a field that only the key part has is found there
    assert_eq!(
        descriptor.get_attribute("id").map(|a| &a.type_descriptor),
        Some(&TypeDescriptor::Long)
    );
    assert!(descriptor.get_attribute("nope").is_none());
    assert!(descriptor.get_attribute("ok").unwrap().is_boolean());
    assert!(!descriptor.get_attribute("v").unwrap().is_boolean());
    assert_eq!(descriptor.get_attribute("ok").unwrap().default(), HostValue::Boolean(false));
    assert_eq!(descriptor.get_attribute("k").unwrap().default(), HostValue::Nil);
    let (keyless, _) = model(false);
    assert_eq!(keyless.each_key_field().len(), 0);
    assert_eq!(keyless.each_field().len(), 3);
}

#[test]
fn a_union_of_null_and_boolean_is_a_boolean() {
    let mut reg = ModelRegistry::new(None);
    let schema = model_schema(
        "Flags",
        "flags",
        vec![
            field("a", union_of(vec![SchemaKind::Null, SchemaKind::Boolean]), None),
            field("b", union_of(vec![SchemaKind::Boolean, SchemaKind::Long]), None),
            field("c", union_of(vec![SchemaKind::Null, SchemaKind::Boolean, SchemaKind::Long]), None),
        ],
    );
    let descriptor =
        ModelDescriptorInner::new(None, schema, &mut reg, &CustomTypeRegistry::new(), &NoHooks).unwrap();
    assert!(descriptor.get_attribute("a").unwrap().is_boolean());
    assert!(!descriptor.get_attribute("b").unwrap().is_boolean());
    assert!(!descriptor.get_attribute("c").unwrap().is_boolean());
}

#[test]
fn a_field_in_both_parts_must_have_one_type() {
    let mut reg = ModelRegistry::new(None);
    let key = model_schema("EventKey", "key", vec![
        field("id", node(SchemaKind::Long), None),
        field("k", node(SchemaKind::Long), None),
    ]);
    assert_eq!(
        ModelDescriptorInner::new(Some(key), value_schema(), &mut reg, &CustomTypeRegistry::new(), &NoHooks),
        Err(SchemaError::ConflictingField(1))
    );
    let malformed = ModelSchema { schema: node(SchemaKind::Record) };
    assert_eq!(
        ModelDescriptorInner::new(None, malformed, &mut reg, &CustomTypeRegistry::new(), &NoHooks),
        Err(SchemaError::InvalidSchema)
    );
}

#[test]
fn attributes_are_coerced_under_the_value_part_then_the_key_part() {
    let (descriptor, reg) = model(true);
    assert_eq!(descriptor.coerce("v", &integer(5), &reg, &NoHooks), Ok(long_branch(5)));
    assert_eq!(descriptor.coerce("id", &integer(5), &reg, &NoHooks), Ok(AvromaticValue::Long(5)));
    assert_eq!(
        descriptor.coerce("nope", &integer(5), &reg, &NoHooks),
        Err(AvromaticError::InvalidAttribute { name: "nope".to_string() })
    );
    assert_eq!(
        descriptor.coerce("k", &integer(5), &reg, &NoHooks),
        Err(AvromaticError::InvalidValue { value: HostKind::Integer, name: TypeName::String })
    );
    let (keyless, reg) = model(false);
    assert_eq!(
        keyless.coerce("id", &integer(5), &reg, &NoHooks),
        Err(AvromaticError::InvalidAttribute { name: "id".to_string() })
    );
}

#[test]
fn an_instance_from_a_mapping() {
    let (descriptor, reg) = model(true);
    let data = HostValue::Mapping(vec![
        (symbol("k"), string("x")),
        (string("v"), integer(5)),
        (symbol("id"), integer(9)),
        (integer(1), integer(1)),
    ]);
    let instance = AvromaticModelAttributes::initialize(&descriptor, &data, &reg, &NoHooks).unwrap();
    assert_eq!(
        instance.storage,
        ModelStorage {
            attributes: vec![
                ("id".to_string(), AvromaticValue::Long(9)),
                ("k".to_string(), text("x")),
                ("v".to_string(), long_branch(5)),
                ("ok".to_string(), AvromaticValue::False),
            ],
        }
    );
    let empty = AvromaticModelAttributes::initialize(&descriptor, &HostValue::Nil, &reg, &NoHooks).unwrap();
    assert_eq!(
        empty.storage.attributes,
        vec![
            ("id".to_string(), AvromaticValue::Null),
            ("k".to_string(), AvromaticValue::Null),
            ("v".to_string(), AvromaticValue::Null),
            ("ok".to_string(), AvromaticValue::False),
        ]
    );
    let bad = HostValue::Mapping(vec![(symbol("id"), string("nine"))]);
    assert_eq!(
        AvromaticModelAttributes::initialize(&descriptor, &bad, &reg, &NoHooks),
        Err(AvromaticError::InvalidValue { value: HostKind::String, name: TypeName::Integer })
    );
    assert_eq!(
        AvromaticModelAttributes::initialize(&descriptor, &integer(1), &reg, &NoHooks),
        Err(AvromaticError::InvalidValue { value: HostKind::Integer, name: TypeName::Record })
    );
}

#[test]
fn setting_and_getting_attributes() {
    let (descriptor, reg) = model(false);
    let mut instance =
        AvromaticModelAttributes::initialize(&descriptor, &HostValue::Nil, &reg, &NoHooks).unwrap();
    assert_eq!(instance.get_attribute(&descriptor, "k"), HostValue::Nil);
    assert_eq!(instance.set_attribute(&descriptor, "k", &string("x"), &reg, &NoHooks), Ok(()));
    assert_eq!(instance.set_attribute(&descriptor, "v", &integer(5), &reg, &NoHooks), Ok(()));
    assert_eq!(instance.get_attribute(&descriptor, "k"), string("x"));
    assert_eq!(instance.get_attribute(&descriptor, "v"), integer(5));
    assert_eq!(instance.get_attribute(&descriptor, "ok"), HostValue::Boolean(false));
    assert_eq!(instance.get_attribute(&descriptor, "nope"), HostValue::Nil);
    let before = instance.storage.duplicate();
    assert_eq!(
        instance.set_attribute(&descriptor, "k", &integer(1), &reg, &NoHooks),
        Err(AvromaticError::InvalidValue { value: HostKind::Integer, name: TypeName::String })
    );
    assert_eq!(
        instance.set_attribute(&descriptor, "nope", &integer(1), &reg, &NoHooks),
        Err(AvromaticError::InvalidAttribute { name: "nope".to_string() })
    );
    assert_eq!(instance.storage, before);
    assert_eq!(instance.storage.attributes[0], ("k".to_string(), text("x")));
    assert_eq!(instance.storage.attributes.len(), 3);
}

#[test]
fn attribute_metadata() {
    let (descriptor, _) = model(true);
    let v = descriptor.get_attribute("v").unwrap();
    assert!(v.is_optional());
    assert_eq!(v.typesym(), "union");
    let k = descriptor.get_attribute("k").unwrap();
    assert!(!k.is_optional());
    assert_eq!(k.typesym(), "string");
    assert_eq!(descriptor.get_attribute("ok").unwrap().typesym(), "boolean");
    assert_eq!(descriptor.get_attribute("id").unwrap().typesym(), "long");
}

#[test]
fn truth_of_attributes() {
    let instance = AvromaticModelAttributes {
        storage: ModelStorage {
            attributes: vec![
                ("a".to_string(), AvromaticValue::True),
                ("b".to_string(), AvromaticValue::False),
                ("c".to_string(), AvromaticValue::Union(1, Box::new(AvromaticValue::True))),
                ("d".to_string(), AvromaticValue::Union(0, Box::new(AvromaticValue::True))),
                ("e".to_string(), AvromaticValue::Union(1, Box::new(AvromaticValue::False))),
                ("f".to_string(), AvromaticValue::Long(1)),
            ],
        },
    };
    assert!(instance.is_attribute_true("a"));
    assert!(!instance.is_attribute_true("b"));
    assert!(instance.is_attribute_true("c"));
    assert!(!instance.is_attribute_true("d"));
    assert!(!instance.is_attribute_true("e"));
    assert!(!instance.is_attribute_true("f"));
    assert!(!instance.is_attribute_true("missing"));
}

#[test]
fn attribute_hashes() {
    let (descriptor, reg) = model(true);
    let data = HostValue::Mapping(vec![(symbol("k"), string("x")), (symbol("id"), integer(9))]);
    let instance = AvromaticModelAttributes::initialize(&descriptor, &data, &reg, &NoHooks).unwrap();
    assert_eq!(
        instance.attribute_hash(&descriptor),
        HostValue::Mapping(vec![
            (symbol("id"), integer(9)),
            (symbol("k"), string("x")),
            (symbol("v"), HostValue::Nil),
            (symbol("ok"), HostValue::Boolean(false)),
        ])
    );
    assert_eq!(
        instance.attribute_hash_for_key(&descriptor),
        HostValue::Mapping(vec![(string("id"), integer(9)), (string("k"), string("x"))])
    );
    assert_eq!(
        instance.attribute_hash_for_value(&descriptor),
        HostValue::Mapping(vec![
            (string("k"), string("x")),
            (string("v"), HostValue::Nil),
            (string("ok"), HostValue::Boolean(false)),
        ])
    );
}

#[test]
fn messages_are_framed() {
    let (descriptor, reg) = model(true);
    let data = HostValue::Mapping(vec![
        (symbol("k"), string("x")),
        (symbol("v"), integer(5)),
        (symbol("id"), integer(9)),
    ]);
    let instance = AvromaticModelAttributes::initialize(&descriptor, &data, &reg, &NoHooks).unwrap();
    let value = instance.serialize_value(&descriptor, 258, &reg, &NoHooks).unwrap();
    assert_eq!(value, vec![0, 0, 0, 1, 2, 0x02, 0x78, 0x02, 0x0a, 0x00]);
    let key = instance.serialize_key(&descriptor, 7, &reg, &NoHooks).unwrap();
    assert_eq!(key, vec![0, 0, 0, 0, 7, 0x12, 0x02, 0x78]);
    assert_eq!(AvromaticModelAttributes::writer_schema_id(&value), Some(258));
    assert_eq!(AvromaticModelAttributes::writer_schema_id(&[0, 0, 0]), None);
    let decoded =
        AvromaticModelAttributes::decode_message(&descriptor, &key, &value, &reg, &NoHooks).unwrap();
    assert_eq!(
        decoded.storage.attributes,
        vec![
            ("k".to_string(), text("x")),
            ("v".to_string(), long_branch(5)),
            ("ok".to_string(), AvromaticValue::False),
            ("id".to_string(), AvromaticValue::Long(9)),
        ]
    );
    let alone =
        AvromaticModelAttributes::decode_value(&descriptor, &value, &value_schema(), &reg, &NoHooks)
            .unwrap();
    assert_eq!(alone.storage.attributes.len(), 3);
    assert_eq!(alone.storage.attributes[1], ("v".to_string(), long_branch(5)));
}

#[test]
fn frames_that_are_too_short() {
    let (descriptor, reg) = model(true);
    assert_eq!(
        AvromaticModelAttributes::decode_value(&descriptor, &[0, 0, 0, 1], &value_schema(), &reg, &NoHooks),
        Err(DecodeError::TruncatedFrame)
    );
    assert_eq!(
        AvromaticModelAttributes::decode_message(&descriptor, &[0; 5], &[0; 4], &reg, &NoHooks),
        Err(DecodeError::TruncatedFrame)
    );
    assert_eq!(
        AvromaticModelAttributes::decode_value(&descriptor, &[0; 5], &value_schema(), &reg, &NoHooks),
        Err(DecodeError::UnexpectedEnd)
    );
}

#[test]
fn a_model_without_key_schema_has_no_key() {
    let (descriptor, reg) = model(false);
    let instance =
        AvromaticModelAttributes::initialize(&descriptor, &HostValue::Nil, &reg, &NoHooks).unwrap();
    assert_eq!(instance.serialize_key(&descriptor, 1, &reg, &NoHooks), Err(EncodeError::NoKeySchema));
    let mut buf = vec![1u8];
    assert_eq!(
        descriptor.serialize_key(&instance.storage, &mut buf, &reg, &NoHooks),
        Err(EncodeError::NoKeySchema)
    );
    assert_eq!(buf, vec![1u8]);
    assert_eq!(
        descriptor.deserialize_message(&[], &[], &reg, &NoHooks),
        Err(DecodeError::NoKeySchema)
    );
    // a missing string is written as null, which a string does not take
    assert_eq!(instance.serialize_value(&descriptor, 1, &reg, &NoHooks), Err(EncodeError::Mismatch));
    assert_eq!(
        descriptor.serialize_value(&instance.storage, &mut buf, &reg, &NoHooks),
        Err(EncodeError::Mismatch)
    );
    assert_eq!(buf, vec![1u8]);
}

#[test]
fn bytes_written_under_another_schema_are_resolved() {
    let (descriptor, reg) = model(false);
    // k = "x", gone = 3, as the writer wrote them
    let data = [0x02, 0x78, 0x06];
    let storage = descriptor.deserialize_value(&data, &writer_schema(), &reg, &NoHooks).unwrap();
    assert_eq!(
        storage.attributes,
        vec![
            ("k".to_string(), text("x")),
            ("v".to_string(), AvromaticValue::Null),
            ("ok".to_string(), AvromaticValue::False),
        ]
    );
    // under its own schema the bytes are read as they are
    let own = [0x02, 0x78, 0x02, 0x0a, 0x01];
    let storage = descriptor.deserialize_value(&own, &value_schema(), &reg, &NoHooks).unwrap();
    assert_eq!(storage.attributes[1], ("v".to_string(), long_branch(5)));
    assert_eq!(storage.attributes[2], ("ok".to_string(), AvromaticValue::True));
    // framed, with the writer's schema looked up by the id in the head
    let framed = [0, 0, 0, 0, 9, 0x02, 0x78, 0x06];
    assert_eq!(AvromaticModelAttributes::writer_schema_id(&framed), Some(9));
    let instance =
        AvromaticModelAttributes::decode_value(&descriptor, &framed, &writer_schema(), &reg, &NoHooks)
            .unwrap();
    assert_eq!(instance.storage.attributes[0], ("k".to_string(), text("x")));
    assert_eq!(reg.models.len(), 0);
}

#[test]
fn what_does_not_resolve() {
    let (descriptor, reg) = model(false);
    // the writer's bytes break off
    assert_eq!(
        descriptor.deserialize_value(&[0x02], &writer_schema(), &reg, &NoHooks),
        Err(DecodeError::UnexpectedEnd)
    );
    // the writer's schema is no record schema
    let broken = ModelSchema { schema: node(SchemaKind::Record) };
    assert_eq!(
        descriptor.deserialize_value(&[0x02, 0x78, 0x06], &broken, &reg, &NoHooks),
        Err(DecodeError::Unresolvable)
    );
    // the reader's `k` has no default, and this writer has no `k`
    let stranger = model_schema("Other", "other", vec![field("z", node(SchemaKind::Long), None)]);
    assert_eq!(
        descriptor.deserialize_value(&[0x02], &stranger, &reg, &NoHooks),
        Err(DecodeError::Unresolvable)
    );
    // fields are matched by name, whatever the record is called
    let storage = descriptor.deserialize_value(&[0x02, 0x02, 0x78], &key_schema(), &reg, &NoHooks).unwrap();
    assert_eq!(storage.attributes[0], ("k".to_string(), text("x")));
    // a field of another type does not resolve
    let retyped = model_schema("Event", "retyped", vec![field("k", node(SchemaKind::Long), None)]);
    assert_eq!(
        descriptor.deserialize_value(&[0x02], &retyped, &reg, &NoHooks),
        Err(DecodeError::Unresolvable)
    );
}

#[test]
fn method_names() {
    assert_eq!(classify_method("ok?", false), MethodCall::Predicate(b"ok".to_vec()));
    assert_eq!(classify_method("k", false), MethodCall::Getter(b"k".to_vec()));
    assert_eq!(classify_method("k=", true), MethodCall::Setter(b"k".to_vec()));
    assert_eq!(classify_method("k=", false), MethodCall::PrivateSetter);
    assert_eq!(classify_method("", false), MethodCall::Getter(Vec::new()));
    assert_eq!(classify_method("?", false), MethodCall::Predicate(Vec::new()));
}

#[test]
fn methods_a_model_answers() {
    let (descriptor, _) = model(true);
    assert!(respond_to_missing(&descriptor, "k", false));
    assert!(respond_to_missing(&descriptor, "ok?", false));
    assert!(!respond_to_missing(&descriptor, "k?", false));
    assert!(!respond_to_missing(&descriptor, "k=", false));
    assert!(respond_to_missing(&descriptor, "k=", true));
    assert!(!respond_to_missing(&descriptor, "nope", true));
    assert!(!respond_to_missing(&descriptor, "nope=", true));
    // attributes of the key part alone are answered too
    assert!(respond_to_missing(&descriptor, "id", true));
    assert!(respond_to_missing(&descriptor, "id=", true));
    assert!(!respond_to_missing(&descriptor, "id?", true));
}

#[test]
fn configuration_flags() {
    let nested = AvromaticConfiguration { mutable: false, has_key_schema: false, has_value_schema: true };
    assert!(nested.is_nested_model());
    assert!(!nested.is_mutable());
    let keyed = AvromaticConfiguration { mutable: true, has_key_schema: true, has_value_schema: true };
    assert!(!keyed.is_nested_model());
    assert!(keyed.is_mutable());
    let blank = AvromaticConfiguration { mutable: false, has_key_schema: false, has_value_schema: false };
    assert!(!blank.is_nested_model());
}

#[test]
fn host_values_of_stored_values() {
    let d = TypeDescriptor::TimestampMillis;
    assert_eq!(d.to_ruby(&AvromaticValue::Long(12_345)), Some(HostValue::Time(12, 345_000)));
    assert_eq!(TypeDescriptor::TimestampMicros.to_ruby(&AvromaticValue::Long(-1)), Some(HostValue::Time(0, -1)));
    assert_eq!(TypeDescriptor::Date.to_ruby(&AvromaticValue::Long(3)), Some(HostValue::Date(3)));
    assert_eq!(TypeDescriptor::Long.to_ruby(&AvromaticValue::Long(3)), Some(integer(3)));
    assert_eq!(TypeDescriptor::Long.to_ruby(&AvromaticValue::Null), Some(HostValue::Nil));
    assert_eq!(TypeDescriptor::Boolean.to_ruby(&AvromaticValue::True), Some(HostValue::Boolean(true)));
    assert_eq!(
        TypeDescriptor::Double.to_ruby(&AvromaticValue::Double(2.5f64.to_bits())),
        Some(HostValue::Number(HostNumber {
            integer: false,
            as_integer: None,
            as_double: Some(2.5f64.to_bits()),
            as_single: None
        }))
    );
    let array = TypeDescriptor::Array(Box::new(TypeDescriptor::Date));
    assert_eq!(
        array.to_ruby(&AvromaticValue::Array(vec![AvromaticValue::Long(1), AvromaticValue::Null])),
        Some(HostValue::Array(vec![HostValue::Date(1), HostValue::Nil]))
    );
    assert_eq!(TypeDescriptor::Long.to_ruby(&AvromaticValue::Array(vec![])), None);
    let union = TypeDescriptor::Union(vec![], vec![TypeDescriptor::Null, TypeDescriptor::Date]);
    assert_eq!(
        union.to_ruby(&AvromaticValue::Union(1, Box::new(AvromaticValue::Long(4)))),
        Some(HostValue::Date(4))
    );
    assert_eq!(union.to_ruby(&AvromaticValue::Union(2, Box::new(AvromaticValue::Null))), None);
    let map = TypeDescriptor::Mapping(Box::new(TypeDescriptor::Long));
    assert_eq!(
        map.to_ruby(&AvromaticValue::Mapping(vec![(b"a".to_vec(), AvromaticValue::Long(1))])),
        Some(HostValue::Mapping(vec![(string("a"), integer(1))]))
    );
}
