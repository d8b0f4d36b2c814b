use avromatic::builder::{AvromaticModel, SchemaError};
use avromatic::custom_types::{CustomTypeHooks, CustomTypeRegistry, NoHooks};
use avromatic::descriptors::{
    AttributeDescriptor, CustomTypeConfiguration, RecordDescriptor, TypeDescriptor,
};
use avromatic::model_pool::ModelRegistry;
use avromatic::schema::{AvroValue, SchemaField, SchemaKind, SchemaNode};
use avromatic::values::{AvromaticValue, HostNumber, HostValue, ModelStorage};

fn node(kind: SchemaKind) -> SchemaNode {
    SchemaNode {
        kind,
        fullname: None,
        fixed_size: None,
        symbols: None,
        children: None,
        fields: None,
        canonical_form: Vec::new(),
    }
}

fn with_children(kind: SchemaKind, children: Vec<SchemaNode>) -> SchemaNode {
    SchemaNode { children: Some(children), ..node(kind) }
}

fn field(name: &str, schema: SchemaNode, default: Option<AvroValue>) -> SchemaField {
    SchemaField { name: name.to_string(), schema, default }
}

fn record(name: &str, canonical: &str, fields: Vec<SchemaField>) -> SchemaNode {
    SchemaNode {
        fullname: Some(name.to_string()),
        fields: Some(fields),
        canonical_form: canonical.as_bytes().to_vec(),
        ..node(SchemaKind::Record)
    }
}

fn pair_schema() -> SchemaNode {
    record(
        "ns.Pair",
        r#"{"name":"ns.Pair","type":"record","fields":[{"name":"k","type":"string"},{"name":"v","type":["null","long"]}]}"#,
        vec![
            field("k", node(SchemaKind::String), None),
            field(
                "v",
                with_children(SchemaKind::Union, vec![node(SchemaKind::Null), node(SchemaKind::Long)]),
                None,
            ),
        ],
    )
}

fn build(schema: &SchemaNode, reg: &mut ModelRegistry) -> Result<TypeDescriptor, SchemaError> {
    TypeDescriptor::build(schema, reg, &CustomTypeRegistry::new(), &NoHooks)
}

struct Wrapping;

impl CustomTypeHooks for Wrapping {
    fn to_avro(&self, _name: &str, value: &HostValue) -> Option<HostValue> {
        match value {
            HostValue::Object(id) => Some(HostValue::String(id.to_string().into_bytes())),
            _ => None,
        }
    }

    fn from_avro(&self, _name: &str, value: &HostValue) -> Option<HostValue> {
        match value {
            HostValue::String(bytes) => {
                std::str::from_utf8(bytes).ok()?.parse::<u64>().ok().map(HostValue::Object)
            }
            _ => None,
        }
    }
}

#[test]
fn simple_kinds() {
    let mut reg = ModelRegistry::new(None);
    assert_eq!(build(&node(SchemaKind::Null), &mut reg), Ok(TypeDescriptor::Null));
    assert_eq!(build(&node(SchemaKind::Boolean), &mut reg), Ok(TypeDescriptor::Boolean));
    assert_eq!(build(&node(SchemaKind::Int), &mut reg), Ok(TypeDescriptor::Int));
    assert_eq!(build(&node(SchemaKind::Long), &mut reg), Ok(TypeDescriptor::Long));
    assert_eq!(build(&node(SchemaKind::Float), &mut reg), Ok(TypeDescriptor::Float));
    assert_eq!(build(&node(SchemaKind::Double), &mut reg), Ok(TypeDescriptor::Double));
    assert_eq!(build(&node(SchemaKind::Bytes), &mut reg), Ok(TypeDescriptor::Bytes));
    assert_eq!(build(&node(SchemaKind::String), &mut reg), Ok(TypeDescriptor::String));
    assert_eq!(build(&node(SchemaKind::Date), &mut reg), Ok(TypeDescriptor::Date));
    assert_eq!(build(&node(SchemaKind::TimestampMillis), &mut reg), Ok(TypeDescriptor::TimestampMillis));
    assert_eq!(build(&node(SchemaKind::TimestampMicros), &mut reg), Ok(TypeDescriptor::TimestampMicros));
    assert_eq!(reg.models.len(), 0);
}

#[test]
fn fixed_and_enum_need_their_parts() {
    let mut reg = ModelRegistry::new(None);
    assert_eq!(build(&node(SchemaKind::Fixed), &mut reg), Err(SchemaError::InvalidSchema));
    let fixed = SchemaNode { fixed_size: Some(16), ..node(SchemaKind::Fixed) };
    assert_eq!(build(&fixed, &mut reg), Ok(TypeDescriptor::Fixed(16)));
    assert_eq!(build(&node(SchemaKind::Enum), &mut reg), Err(SchemaError::InvalidSchema));
    let symbols = SchemaNode {
        symbols: Some(vec!["A".to_string(), "B".to_string()]),
        ..node(SchemaKind::Enum)
    };
    assert_eq!(
        build(&symbols, &mut reg),
        Ok(TypeDescriptor::Enum(vec!["A".to_string(), "B".to_string()]))
    );
}

#[test]
fn arrays_and_maps_need_one_child() {
    let mut reg = ModelRegistry::new(None);
    assert_eq!(build(&node(SchemaKind::Array), &mut reg), Err(SchemaError::InvalidSchema));
    assert_eq!(
        build(&with_children(SchemaKind::Array, vec![]), &mut reg),
        Err(SchemaError::InvalidSchema)
    );
    assert_eq!(
        build(&with_children(SchemaKind::Array, vec![node(SchemaKind::Long)]), &mut reg),
        Ok(TypeDescriptor::Array(Box::new(TypeDescriptor::Long)))
    );
    assert_eq!(
        build(
            &with_children(
                SchemaKind::Mapping,
                vec![with_children(SchemaKind::Array, vec![node(SchemaKind::String)])]
            ),
            &mut reg
        ),
        Ok(TypeDescriptor::Mapping(Box::new(TypeDescriptor::Array(Box::new(
            TypeDescriptor::String
        )))))
    );
    assert_eq!(
        build(&with_children(SchemaKind::Mapping, vec![node(SchemaKind::Fixed)]), &mut reg),
        Err(SchemaError::InvalidSchema)
    );
}

#[test]
fn a_null_variant_must_come_first() {
    let mut reg = ModelRegistry::new(None);
    let good = with_children(SchemaKind::Union, vec![node(SchemaKind::Null), node(SchemaKind::String)]);
    assert_eq!(
        build(&good, &mut reg),
        Ok(TypeDescriptor::Union(
            vec![("null".to_string(), 0), ("string".to_string(), 1)],
            vec![TypeDescriptor::Null, TypeDescriptor::String],
        ))
    );
    let bad = with_children(SchemaKind::Union, vec![node(SchemaKind::String), node(SchemaKind::Null)]);
    assert_eq!(build(&bad, &mut reg), Err(SchemaError::NullNotFirst));
    let no_null = with_children(SchemaKind::Union, vec![node(SchemaKind::Int), node(SchemaKind::Long)]);
    assert_eq!(
        build(&no_null, &mut reg),
        Ok(TypeDescriptor::Union(
            vec![("int".to_string(), 0), ("long".to_string(), 1)],
            vec![TypeDescriptor::Int, TypeDescriptor::Long],
        ))
    );
    assert_eq!(build(&node(SchemaKind::Union), &mut reg), Err(SchemaError::InvalidSchema));
    // a second null behind a first one is misplaced too
    let twice = with_children(
        SchemaKind::Union,
        vec![node(SchemaKind::Null), node(SchemaKind::String), node(SchemaKind::Null)],
    );
    assert_eq!(build(&twice, &mut reg), Err(SchemaError::NullNotFirst));
    let alone = with_children(SchemaKind::Union, vec![node(SchemaKind::Null)]);
    assert_eq!(
        build(&alone, &mut reg),
        Ok(TypeDescriptor::Union(vec![("null".to_string(), 0)], vec![TypeDescriptor::Null]))
    );
    // the null is found before any variant is built
    let late = with_children(
        SchemaKind::Union,
        vec![pair_schema(), node(SchemaKind::Null)],
    );
    assert_eq!(build(&late, &mut reg), Err(SchemaError::NullNotFirst));
    assert_eq!(reg.models.len(), 0);
}

#[test]
fn a_record_is_registered_once() {
    let mut reg = ModelRegistry::new(None);
    assert_eq!(build(&pair_schema(), &mut reg), Ok(TypeDescriptor::Record(0)));
    assert_eq!(reg.models.len(), 1);
    assert_eq!(reg.models[0].key, b"ns.Pair".to_vec());
    assert_eq!(reg.models[0].fingerprint, pair_schema().fingerprint());
    assert_eq!(
        reg.models[0].descriptor,
        RecordDescriptor {
            attributes: vec![
                (
                    "k".to_string(),
                    AttributeDescriptor { type_descriptor: TypeDescriptor::String, default: None }
                ),
                (
                    "v".to_string(),
                    AttributeDescriptor {
                        type_descriptor: TypeDescriptor::Union(
                            vec![("null".to_string(), 0), ("long".to_string(), 1)],
                            vec![TypeDescriptor::Null, TypeDescriptor::Long],
                        ),
                        default: None
                    }
                ),
            ],
        }
    );
    // the same schema again is the same model
    assert_eq!(build(&pair_schema(), &mut reg), Ok(TypeDescriptor::Record(0)));
    assert_eq!(reg.models.len(), 1);
}

#[test]
fn another_schema_under_a_registered_name_is_refused() {
    let mut reg = ModelRegistry::new(None);
    assert_eq!(build(&pair_schema(), &mut reg), Ok(TypeDescriptor::Record(0)));
    let other = record(
        "ns.Pair",
        r#"{"name":"ns.Pair","type":"record","fields":[{"name":"k","type":"long"}]}"#,
        vec![field("k", node(SchemaKind::Long), None)],
    );
    assert_eq!(build(&other, &mut reg), Err(SchemaError::FingerprintMismatch(0)));
    // nothing was overwritten
    assert_eq!(reg.models.len(), 1);
    assert_eq!(reg.models[0].fingerprint, pair_schema().fingerprint());
    assert_eq!(reg.models[0].descriptor.attributes.len(), 2);
    assert_eq!(
        AvromaticModel::validate_fingerprints(&other, &reg, 0),
        Err(SchemaError::FingerprintMismatch(0))
    );
    assert_eq!(
        AvromaticModel::validate_fingerprints(&pair_schema(), &reg, 0),
        Ok(TypeDescriptor::Record(0))
    );
}

#[test]
fn the_fingerprint_is_the_sha256_of_the_canonical_form() {
    let schema = SchemaNode { canonical_form: b"abc".to_vec(), ..node(SchemaKind::Null) };
    assert_eq!(
        schema.fingerprint(),
        vec![
            0xba, 0x78, 0x16, 0xbf, 0x8f, 0x01, 0xcf, 0xea, 0x41, 0x41, 0x40, 0xde, 0x5d, 0xae,
            0x22, 0x23, 0xb0, 0x03, 0x61, 0xa3, 0x96, 0x17, 0x7a, 0x9c, 0xb4, 0x10, 0xff, 0x61,
            0xf2, 0x00, 0x15, 0xad
        ]
    );
    let empty = node(SchemaKind::Null);
    assert_eq!(empty.fingerprint()[..4], [0xe3, 0xb0, 0xc4, 0x42]);
    assert_eq!(empty.fingerprint().len(), 32);
}

#[test]
fn nested_records_are_registered_before_the_record_that_holds_them() {
    let mut reg = ModelRegistry::new(None);
    let outer = record(
        "ns.Outer",
        "outer",
        vec![
            field("first", pair_schema(), None),
            field("second", with_children(SchemaKind::Array, vec![pair_schema()]), None),
        ],
    );
    assert_eq!(build(&outer, &mut reg), Ok(TypeDescriptor::Record(1)));
    assert_eq!(reg.models.len(), 2);
    assert_eq!(reg.lookup("ns.Pair"), Some(0));
    assert_eq!(reg.lookup("ns.Outer"), Some(1));
    assert_eq!(
        reg.models[1].descriptor.attributes[0].1.type_descriptor,
        TypeDescriptor::Record(0)
    );
    assert_eq!(
        reg.models[1].descriptor.attributes[1].1.type_descriptor,
        TypeDescriptor::Array(Box::new(TypeDescriptor::Record(0)))
    );
}

#[test]
fn the_pair_scenario_from_its_schema() {
    let mut reg = ModelRegistry::new(None);
    let d = build(&pair_schema(), &mut reg).unwrap();
    let data = HostValue::Mapping(vec![
        (HostValue::Symbol(b"k".to_vec()), HostValue::String(b"x".to_vec())),
        (
            HostValue::Symbol(b"v".to_vec()),
            HostValue::Number(HostNumber {
                integer: true,
                as_integer: Some(5),
                as_double: None,
                as_single: None,
            }),
        ),
    ]);
    let coerced = d.coerce(&data, &reg, &NoHooks).unwrap();
    let expected = AvromaticValue::Record(ModelStorage {
        attributes: vec![
            ("k".to_string(), AvromaticValue::String(b"x".to_vec())),
            ("v".to_string(), AvromaticValue::Union(1, Box::new(AvromaticValue::Long(5)))),
        ],
    });
    assert_eq!(coerced, expected);
    let bytes = d.serialize(&coerced, &reg, &NoHooks).unwrap();
    assert_eq!(bytes, vec![0x02, 0x78, 0x02, 0x0a]);
    assert_eq!(d.decode(&bytes, 0, &reg, &NoHooks), Ok((expected, 4)));
}

#[test]
fn an_extension_with_hooks_wraps_every_kind_it_is_registered_for() {
    let customs = CustomTypeRegistry {
        custom_types: vec![CustomTypeConfiguration {
            name: "ns.Pair".to_string(),
            to_avro: true,
            from_avro: true,
        }],
    };
    let mut reg = ModelRegistry::new(None);
    let d = TypeDescriptor::build(&pair_schema(), &mut reg, &customs, &NoHooks).unwrap();
    assert_eq!(
        d,
        TypeDescriptor::Custom(
            CustomTypeConfiguration { name: "ns.Pair".to_string(), to_avro: true, from_avro: true },
            Box::new(TypeDescriptor::Record(0))
        )
    );
    // the guard holds with a hooked extension registered
    let other = record("ns.Pair", "another", vec![field("k", node(SchemaKind::Long), None)]);
    assert_eq!(
        TypeDescriptor::build(&other, &mut reg, &customs, &NoHooks),
        Err(SchemaError::FingerprintMismatch(0))
    );
    assert_eq!(reg.models.len(), 1);
}

#[test]
fn a_name_declared_twice_stands_once() {
    let mut reg = ModelRegistry::new(None);
    let schema = record(
        "ns.Twice",
        "twice",
        vec![
            field("a", node(SchemaKind::Long), None),
            field("b", node(SchemaKind::String), None),
            field("a", node(SchemaKind::Boolean), Some(AvroValue::Boolean(true))),
        ],
    );
    assert_eq!(build(&schema, &mut reg), Ok(TypeDescriptor::Record(0)));
    assert_eq!(
        reg.models[0].descriptor,
        RecordDescriptor {
            attributes: vec![
                (
                    "a".to_string(),
                    AttributeDescriptor {
                        type_descriptor: TypeDescriptor::Boolean,
                        default: Some(AvromaticValue::True)
                    }
                ),
                (
                    "b".to_string(),
                    AttributeDescriptor { type_descriptor: TypeDescriptor::String, default: None }
                ),
            ],
        }
    );
}

#[test]
fn a_record_needs_a_name_and_fields() {
    let mut reg = ModelRegistry::new(None);
    assert_eq!(build(&node(SchemaKind::Record), &mut reg), Err(SchemaError::InvalidSchema));
    let nameless = SchemaNode { fields: Some(vec![]), ..node(SchemaKind::Record) };
    assert_eq!(build(&nameless, &mut reg), Err(SchemaError::InvalidSchema));
    let fieldless = SchemaNode { fullname: Some("A".to_string()), ..node(SchemaKind::Record) };
    assert_eq!(build(&fieldless, &mut reg), Err(SchemaError::InvalidSchema));
    assert_eq!(reg.models.len(), 0);
}

#[test]
fn defaults_are_resolved_when_the_record_is_built() {
    let mut reg = ModelRegistry::new(None);
    let schema = record(
        "ns.Defaults",
        "defaults",
        vec![
            field("n", node(SchemaKind::Long), Some(AvroValue::Long(7))),
            field("s", node(SchemaKind::String), Some(AvroValue::String("hi".to_string()))),
            field("b", node(SchemaKind::Boolean), Some(AvroValue::Boolean(false))),
            field(
                "u",
                with_children(SchemaKind::Union, vec![node(SchemaKind::Null), node(SchemaKind::Long)]),
                Some(AvroValue::Null),
            ),
        ],
    );
    assert_eq!(build(&schema, &mut reg), Ok(TypeDescriptor::Record(0)));
    let attributes = &reg.models[0].descriptor.attributes;
    assert_eq!(attributes[0].1.default, Some(AvromaticValue::Long(7)));
    assert_eq!(attributes[1].1.default, Some(AvromaticValue::String(b"hi".to_vec())));
    assert_eq!(attributes[2].1.default, Some(AvromaticValue::False));
    assert_eq!(attributes[3].1.default, Some(AvromaticValue::Null));
}

#[test]
fn a_default_of_the_wrong_type_fails_the_build() {
    let mut reg = ModelRegistry::new(None);
    let schema = record(
        "ns.Bad",
        "bad",
        vec![field("n", node(SchemaKind::Long), Some(AvroValue::String("x".to_string())))],
    );
    assert_eq!(build(&schema, &mut reg), Err(SchemaError::InvalidDefault));
    assert_eq!(reg.models.len(), 0);
}

#[test]
fn literals_resolve_by_type() {
    let reg = ModelRegistry::new(None);
    let resolve = |d: &TypeDescriptor, v: AvroValue| d.avro_to_attribute(&v, &reg, &NoHooks);
    assert_eq!(resolve(&TypeDescriptor::Null, AvroValue::Long(1)), Some(AvromaticValue::Null));
    assert_eq!(resolve(&TypeDescriptor::Boolean, AvroValue::Boolean(true)), Some(AvromaticValue::True));
    assert_eq!(resolve(&TypeDescriptor::Int, AvroValue::Int(-3)), Some(AvromaticValue::Long(-3)));
    assert_eq!(resolve(&TypeDescriptor::Int, AvroValue::Long((1 << 32) + 9)), None);
    assert_eq!(resolve(&TypeDescriptor::Int, AvroValue::Long(9)), Some(AvromaticValue::Long(9)));
    assert_eq!(resolve(&TypeDescriptor::Long, AvroValue::Int(3)), Some(AvromaticValue::Long(3)));
    assert_eq!(resolve(&TypeDescriptor::Long, AvroValue::String("3".to_string())), None);
    // a number of a JSON default, in the forms the host supplies
    let seven = || {
        AvroValue::Number(HostNumber {
            integer: true,
            as_integer: Some(7),
            as_double: Some(7.0f64.to_bits()),
            as_single: Some(7.0f32.to_bits()),
        })
    };
    let half = || {
        AvroValue::Number(HostNumber {
            integer: false,
            as_integer: Some(0),
            as_double: Some(0.5f64.to_bits()),
            as_single: Some(0.5f32.to_bits()),
        })
    };
    assert_eq!(resolve(&TypeDescriptor::Int, seven()), Some(AvromaticValue::Long(7)));
    assert_eq!(resolve(&TypeDescriptor::Long, seven()), Some(AvromaticValue::Long(7)));
    assert_eq!(resolve(&TypeDescriptor::Date, seven()), Some(AvromaticValue::Long(7)));
    assert_eq!(resolve(&TypeDescriptor::TimestampMicros, seven()), Some(AvromaticValue::Long(7)));
    assert_eq!(resolve(&TypeDescriptor::Long, half()), None);
    assert_eq!(
        resolve(&TypeDescriptor::Double, half()),
        Some(AvromaticValue::Double(0.5f64.to_bits()))
    );
    assert_eq!(
        resolve(&TypeDescriptor::Float, seven()),
        Some(AvromaticValue::Float(7.0f32.to_bits()))
    );
    assert_eq!(
        resolve(&TypeDescriptor::Bytes, AvroValue::String("ab".to_string())),
        Some(AvromaticValue::String(b"ab".to_vec()))
    );
    assert_eq!(resolve(&TypeDescriptor::Date, AvroValue::Date(3)), Some(AvromaticValue::Long(3)));
    assert_eq!(
        resolve(&TypeDescriptor::TimestampMillis, AvroValue::TimestampMillis(3)),
        Some(AvromaticValue::Long(3))
    );
    assert_eq!(resolve(&TypeDescriptor::TimestampMicros, AvroValue::TimestampMillis(3)), None);
    assert_eq!(
        resolve(&TypeDescriptor::TimestampMicros, AvroValue::Long(3)),
        Some(AvromaticValue::Long(3))
    );
    assert_eq!(resolve(&TypeDescriptor::Date, AvroValue::Long(1 << 40)), None);
    assert_eq!(
        resolve(&TypeDescriptor::Float, AvroValue::Float(1.5f32.to_bits())),
        Some(AvromaticValue::Float(1.5f32.to_bits()))
    );
    assert_eq!(
        resolve(&TypeDescriptor::Double, AvroValue::Double(1.5f64.to_bits())),
        Some(AvromaticValue::Double(1.5f64.to_bits()))
    );
    assert_eq!(
        resolve(&TypeDescriptor::Bytes, AvroValue::Bytes(vec![1, 2])),
        Some(AvromaticValue::String(vec![1, 2]))
    );
    assert_eq!(
        resolve(&TypeDescriptor::Fixed(2), AvroValue::Fixed(2, vec![1, 2])),
        Some(AvromaticValue::String(vec![1, 2]))
    );
    assert_eq!(
        resolve(&TypeDescriptor::Fixed(2), AvroValue::String("ab".to_string())),
        Some(AvromaticValue::String(b"ab".to_vec()))
    );
    assert_eq!(resolve(&TypeDescriptor::Fixed(3), AvroValue::String("ab".to_string())), None);
    let symbols = TypeDescriptor::Enum(vec!["A".to_string()]);
    assert_eq!(
        resolve(&symbols, AvroValue::Enum(0, "A".to_string())),
        Some(AvromaticValue::String(b"A".to_vec()))
    );
    assert_eq!(
        resolve(&symbols, AvroValue::String("A".to_string())),
        Some(AvromaticValue::String(b"A".to_vec()))
    );
}

#[test]
fn literal_containers_and_unions() {
    let reg = ModelRegistry::new(None);
    let d = TypeDescriptor::Array(Box::new(TypeDescriptor::Long));
    assert_eq!(
        d.avro_to_attribute(&AvroValue::Array(vec![AvroValue::Long(1), AvroValue::Long(2)]), &reg, &NoHooks),
        Some(AvromaticValue::Array(vec![AvromaticValue::Long(1), AvromaticValue::Long(2)]))
    );
    assert_eq!(
        d.avro_to_attribute(&AvroValue::Array(vec![AvroValue::Long(1), AvroValue::Null]), &reg, &NoHooks),
        None
    );
    let m = TypeDescriptor::Mapping(Box::new(TypeDescriptor::Long));
    assert_eq!(
        m.avro_to_attribute(
            &AvroValue::Mapping(vec![
                ("a".to_string(), AvroValue::Long(1)),
                ("b".to_string(), AvroValue::Long(2)),
                ("a".to_string(), AvroValue::Long(3)),
            ]),
            &reg,
            &NoHooks
        ),
        Some(AvromaticValue::Mapping(vec![
            (b"a".to_vec(), AvromaticValue::Long(3)),
            (b"b".to_vec(), AvromaticValue::Long(2)),
        ]))
    );
    // a JSON object under a map is its entries
    assert_eq!(
        m.avro_to_attribute(
            &AvroValue::Record(vec![("a".to_string(), AvroValue::Long(1))]),
            &reg,
            &NoHooks
        ),
        Some(AvromaticValue::Mapping(vec![(b"a".to_vec(), AvromaticValue::Long(1))]))
    );
    let u = TypeDescriptor::Union(
        vec![("null".to_string(), 0), ("long".to_string(), 1)],
        vec![TypeDescriptor::Null, TypeDescriptor::Long],
    );
    assert_eq!(
        u.avro_to_attribute(
            &AvroValue::Union("long".to_string(), Box::new(AvroValue::Long(4))),
            &reg,
            &NoHooks
        ),
        Some(AvromaticValue::Union(1, Box::new(AvromaticValue::Long(4))))
    );
    assert_eq!(
        u.avro_to_attribute(
            &AvroValue::Union("string".to_string(), Box::new(AvroValue::Long(4))),
            &reg,
            &NoHooks
        ),
        None
    );
    // a literal that is no union value resolves under the first variant that takes it
    let long_first = TypeDescriptor::Union(
        vec![("long".to_string(), 0), ("string".to_string(), 1)],
        vec![TypeDescriptor::Long, TypeDescriptor::String],
    );
    assert_eq!(
        long_first.avro_to_attribute(&AvroValue::String("s".to_string()), &reg, &NoHooks),
        Some(AvromaticValue::String(b"s".to_vec()))
    );
    assert_eq!(long_first.avro_to_attribute(&AvroValue::Boolean(true), &reg, &NoHooks), None);
}

#[test]
fn a_literal_record_resolves_under_its_model() {
    let mut reg = ModelRegistry::new(None);
    assert_eq!(build(&pair_schema(), &mut reg), Ok(TypeDescriptor::Record(0)));
    let d = TypeDescriptor::Record(0);
    let literal = AvroValue::Record(vec![
        ("v".to_string(), AvroValue::Union("long".to_string(), Box::new(AvroValue::Long(2)))),
        ("k".to_string(), AvroValue::String("x".to_string())),
    ]);
    assert_eq!(
        d.avro_to_attribute(&literal, &reg, &NoHooks),
        Some(AvromaticValue::Record(ModelStorage {
            attributes: vec![
                ("v".to_string(), AvromaticValue::Union(1, Box::new(AvromaticValue::Long(2)))),
                ("k".to_string(), AvromaticValue::String(b"x".to_vec())),
            ],
        }))
    );
    let unknown_field = AvroValue::Record(vec![("zz".to_string(), AvroValue::Null)]);
    assert_eq!(d.avro_to_attribute(&unknown_field, &reg, &NoHooks), None);
    assert_eq!(d.avro_to_attribute(&AvroValue::Null, &reg, &NoHooks), None);
    assert_eq!(TypeDescriptor::Record(9).avro_to_attribute(&literal, &reg, &NoHooks), None);
}

#[test]
fn the_registry_key_leaves_out_the_prefix() {
    let reg = ModelRegistry::new(Some("com.example".to_string()));
    assert_eq!(reg.registry_key("com.example.Pair"), b"Pair".to_vec());
    assert_eq!(reg.registry_key("com.exampleX"), b"X".to_vec());
    assert_eq!(reg.registry_key("com.example"), b"".to_vec());
    assert_eq!(reg.registry_key("org.other.Pair"), b"org.other.Pair".to_vec());
    assert_eq!(reg.registry_key("com"), b"com".to_vec());
    let plain = ModelRegistry::new(None);
    assert_eq!(plain.registry_key("com.example.Pair"), b"com.example.Pair".to_vec());
    let mut prefixed = ModelRegistry::new(Some("ns".to_string()));
    assert_eq!(build(&pair_schema(), &mut prefixed), Ok(TypeDescriptor::Record(0)));
    assert_eq!(prefixed.models[0].key, b"Pair".to_vec());
    assert!(prefixed.is_registered("ns.Pair"));
    assert!(prefixed.is_registered("Pair"));
    assert!(!prefixed.is_registered("ns.Other"));
}

#[test]
fn a_registered_extension_wraps_the_type() {
    let mut reg = ModelRegistry::new(None);
    let customs = CustomTypeRegistry {
        custom_types: vec![CustomTypeConfiguration {
            name: "ns.Ident".to_string(),
            to_avro: true,
            from_avro: true,
        }],
    };
    assert_eq!(customs.fetch("ns.Ident").map(|c| c.name), Some("ns.Ident".to_string()));
    assert_eq!(customs.fetch("ns.Other"), None);
    let schema = SchemaNode {
        fullname: Some("ns.Ident".to_string()),
        fixed_size: None,
        ..node(SchemaKind::String)
    };
    let d = TypeDescriptor::build(&schema, &mut reg, &customs, &Wrapping).unwrap();
    assert_eq!(
        d,
        TypeDescriptor::Custom(
            CustomTypeConfiguration { name: "ns.Ident".to_string(), to_avro: true, from_avro: true },
            Box::new(TypeDescriptor::String)
        )
    );
    // coercion hands the value to the hook and wraps what comes back
    let coerced = d.coerce(&HostValue::String(b"42".to_vec()), &reg, &Wrapping).unwrap();
    assert_eq!(coerced, AvromaticValue::Custom(Box::new(HostValue::Object(42))));
    // encoding asks the other hook and writes the underlying string
    let bytes = d.serialize(&coerced, &reg, &Wrapping).unwrap();
    assert_eq!(bytes, vec![0x04, 0x34, 0x32]);
    assert_eq!(d.decode(&bytes, 0, &reg, &Wrapping), Ok((coerced, 3)));
    // nil goes round the hooks
    assert_eq!(d.coerce(&HostValue::Nil, &reg, &Wrapping), Ok(AvromaticValue::Null));
    // a hook that fails fails the call
    assert!(d.coerce(&HostValue::String(b"x".to_vec()), &reg, &Wrapping).is_err());
    assert!(d.coerce(&HostValue::String(b"42".to_vec()), &reg, &NoHooks).is_err());
    assert!(d.decode(&[0x02, 0x78], 0, &reg, &Wrapping).is_err());
}

#[test]
fn an_extension_without_hooks_passes_values_through() {
    let reg = ModelRegistry::new(None);
    let d = TypeDescriptor::Custom(
        CustomTypeConfiguration { name: "ns.Plain".to_string(), to_avro: false, from_avro: false },
        Box::new(TypeDescriptor::Long),
    );
    let five = HostValue::Number(HostNumber {
        integer: true,
        as_integer: Some(5),
        as_double: None,
        as_single: None,
    });
    let coerced = d.coerce(&five, &reg, &NoHooks).unwrap();
    assert_eq!(coerced, AvromaticValue::Custom(Box::new(five.duplicate())));
    assert_eq!(d.serialize(&coerced, &reg, &NoHooks), Ok(vec![0x0a]));
    assert_eq!(d.decode(&[0x0a], 0, &reg, &NoHooks), Ok((coerced, 1)));
    assert_eq!(d.to_ruby(&AvromaticValue::Custom(Box::new(five.duplicate()))), Some(five));
}
