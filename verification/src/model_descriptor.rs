//! The descriptor of a model: a message with an optional key part and a
//! value part, each a record.
//!
//! Attribute metadata is looked up in the value part first and in the key
//! part after it. A field that both parts have must have the same type in
//! both.

use crate::builder::{build_fields, extends, plain_build, SchemaError};
use crate::codec::{encode_fields, decode_fields, EncodeError};
use crate::coercion::{coerce_spec, coerced};
use crate::custom_types::{CustomTypeHooks, CustomTypeRegistry};
use crate::de::decode_record;
use crate::descriptors::{
    record_settled,
    record_hook_free,
    record_handles_below,
    registry_hook_free,
    AttributeDescriptor,
    CustomView,
    DescriptorView,
    RecordDescriptor,
    RecordView,
    RegistryView,
    TypeDescriptor,
};
use crate::errors::{AvromaticError, ErrorView};
use crate::host::{handed, to_ruby_spec};
use crate::literal::{field_position, find_field, insert_attribute, storage_insert};
use crate::model_pool::ModelRegistry;
use crate::resolution::{resolve_datum_spec, stored};
use crate::schema::SchemaNode;
use crate::serializer::{serialize_record, written};
use crate::values::{AvromaticValue, HostValue, HostView, ModelStorage, ValueView};
use crate::varint::DecodeError;
use vstd::prelude::*;

verus! {

/// A schema as a model holds it.
#[derive(Debug, PartialEq, Eq)]
pub struct ModelSchema {
    pub schema: SchemaNode,
}

/// One part of a model: its schema and the record descriptor built from
/// it.
#[derive(Debug, PartialEq, Eq)]
pub struct ModelRecord {
    pub schema: ModelSchema,
    pub descriptor: RecordDescriptor,
}

/// The descriptor of a model.
#[derive(Debug, PartialEq, Eq)]
pub struct ModelDescriptorInner {
    pub key: Option<ModelRecord>,
    pub value: ModelRecord,
}

/// The record that a record schema compiles to, or the error, and the
/// registry afterwards.
pub open spec fn record_spec(
    schema: &SchemaNode,
    reg: RegistryView,
    prefix: Option<Seq<char>>,
    customs: Seq<CustomView>,
) -> crate::builder::BuiltRecord {
    match schema.fields {
        None => crate::builder::BuiltRecord {
            result: Err(SchemaError::InvalidSchema),
            registry: reg,
        },
        Some(fields) => build_fields(&fields, 0, Seq::empty(), reg, prefix, customs),
    }
}

/// The index of the first key field from `from` on whose name the value
/// part has with another type.
pub open spec fn first_conflict(key: RecordView, value: RecordView, from: nat) -> Option<nat>
    decreases key.len() - from,
{
    if from >= key.len() {
        None
    } else {
        let clash = match field_position(value, key[from as int].0, 0) {
            Some(index) => index < value.len() && value[index as int].1.type_descriptor
                != key[from as int].1.type_descriptor,
            None => false,
        };
        if clash {
            Some(from)
        } else {
            first_conflict(key, value, from + 1)
        }
    }
}

/// What coercing `host` for the attribute `name` of a record gives.
pub open spec fn record_coerce_spec(
    record: RecordView,
    name: Seq<char>,
    host: HostView,
    reg: RegistryView,
) -> Result<ValueView, ErrorView> {
    match field_position(record, name, 0) {
        None => Err(ErrorView::InvalidAttribute(name)),
        Some(index) => match coerce_spec(
            record[index as int].1.type_descriptor,
            host,
            reg,
            reg.len(),
        ) {
            Ok(value) => Ok(value),
            Err(e) => Err(e@),
        },
    }
}

/// What coercing `host` for the attribute `name` of a model gives: what
/// the value part gives, and where that fails, what the key part gives.
pub open spec fn model_coerce_spec(
    key: Option<RecordView>,
    value: RecordView,
    name: Seq<char>,
    host: HostView,
    reg: RegistryView,
) -> Result<ValueView, ErrorView> {
    match record_coerce_spec(value, name, host, reg) {
        Ok(coerced) => Ok(coerced),
        Err(e) => match key {
            Some(record) => record_coerce_spec(record, name, host, reg),
            None => Err(e),
        },
    }
}

/// The attribute that a model has under `name`: that of the value part,
/// and where the value part has none, that of the key part.
pub open spec fn attribute_of(key: Option<RecordView>, value: RecordView, name: Seq<char>) -> Option<
    crate::descriptors::AttributeView,
> {
    match field_position(value, name, 0) {
        Some(index) => Some(value[index as int].1),
        None => match key {
            Some(record) => match field_position(record, name, 0) {
                Some(index) => Some(record[index as int].1),
                None => None,
            },
            None => None,
        },
    }
}

/// The attributes that bytes give under a model's value record, the
/// bytes having been written under `writer`. A writer of the model's own
/// fingerprint wrote what is read as it is. Any other writer is compiled
/// with a registry of its own and no extension, and what is read under it
/// is resolved to the model's record; a writer that does not compile
/// resolves nothing.
pub open spec fn deserialize_value_spec(
    read: RecordView,
    own: &SchemaNode,
    rreg: RegistryView,
    prefix: Option<Seq<char>>,
    writer: &SchemaNode,
    data: Seq<u8>,
) -> Result<Seq<(Seq<char>, ValueView)>, DecodeError> {
    if writer.fingerprint_spec() == own.fingerprint_spec() {
        match decode_fields(read, 0, data, 0, Seq::empty(), rreg, rreg.len()) {
            Err(e) => Err(e),
            Ok((attributes, _)) => Ok(attributes),
        }
    } else {
        let compiled = record_spec(writer, Seq::empty(), prefix, Seq::empty());
        match compiled.result {
            Err(_) => Err(DecodeError::Unresolvable),
            Ok(written) => resolve_datum_spec(written, compiled.registry, read, rreg, data),
        }
    }
}

/// The name of a descriptor's kind.
pub open spec fn typesym_text(d: DescriptorView) -> Seq<char> {
    match d {
        DescriptorView::Boolean => "boolean"@,
        DescriptorView::Enum(_) => "enum"@,
        DescriptorView::Fixed(_) => "fixed"@,
        DescriptorView::Float => "float"@,
        DescriptorView::Double => "double"@,
        DescriptorView::Int => "int"@,
        DescriptorView::Long => "long"@,
        DescriptorView::Null => "null"@,
        DescriptorView::String => "string"@,
        DescriptorView::Bytes => "bytes"@,
        DescriptorView::Date => "date"@,
        DescriptorView::TimestampMicros => "timestamp-micros"@,
        DescriptorView::TimestampMillis => "timestamp-millis"@,
        DescriptorView::Array(_) => "array"@,
        DescriptorView::Mapping(_) => "map"@,
        DescriptorView::Record(_) => "record"@,
        DescriptorView::Union(_, _) => "union"@,
        DescriptorView::Custom(_, _) => "custom"@,
    }
}

/// What was coerced, errors by their models.
pub open spec fn coerced_view(r: Result<AvromaticValue, AvromaticError>) -> Result<
    ValueView,
    ErrorView,
> {
    match r {
        Ok(value) => Ok(value@),
        Err(e) => Err(e@),
    }
}

/// The host value of the attribute `name` of a record, where the record
/// has the attribute and the value is of its kind.
pub open spec fn record_to_ruby_spec(record: RecordView, name: Seq<char>, value: ValueView) -> Option<
    HostView,
> {
    match field_position(record, name, 0) {
        None => None,
        Some(index) => to_ruby_spec(record[index as int].1.type_descriptor, value),
    }
}

/// `base` with the attributes of `extra` from `from` on put in, one after
/// the other.
pub open spec fn storage_merge(
    base: Seq<(Seq<char>, ValueView)>,
    extra: Seq<(Seq<char>, ValueView)>,
    from: nat,
) -> Seq<(Seq<char>, ValueView)>
    decreases extra.len() - from,
{
    if from >= extra.len() {
        base
    } else {
        storage_merge(
            storage_insert(base, extra[from as int].0, extra[from as int].1, 0),
            extra,
            from + 1,
        )
    }
}

impl AttributeDescriptor {
    /// Coerces a host value to the attribute's type.
    pub fn coerce<H: CustomTypeHooks>(&self, value: &HostValue, registry: &ModelRegistry, hooks: &H) -> (r:
        Result<AvromaticValue, AvromaticError>)
        ensures
            self@.type_descriptor.settled(registry@) ==> coerced(r)
                == coerce_spec(self@.type_descriptor, value@, registry@, registry@.len()),
            value@ is Nil ==> coerced(r) == Ok::<ValueView, AvromaticError>(ValueView::Null),
    {
        self.type_descriptor.coerce(value, registry, hooks)
    }

    /// The host value of a value of the attribute's type.
    pub fn to_ruby(&self, value: &AvromaticValue) -> (r: Option<HostValue>)
        ensures
            handed(r) == to_ruby_spec(self@.type_descriptor, value@),
    {
        self.type_descriptor.to_ruby(value)
    }

    /// The default as a host value: nil where there is none.
    pub fn default(&self) -> (r: HostValue)
        ensures
            r@ == match self@.default {
                Some(value) => match to_ruby_spec(self@.type_descriptor, value) {
                    Some(host) => host,
                    None => HostView::Nil,
                },
                None => HostView::Nil,
            },
    {
        match &self.default {
            Some(value) => match self.to_ruby(value) {
                Some(host) => host,
                None => HostValue::Nil,
            },
            None => HostValue::Nil,
        }
    }

    /// Whether the attribute may be left out: its type is a union that
    /// begins with null.
    pub fn is_optional(&self) -> (r: bool)
        ensures
            r == (self@.type_descriptor matches DescriptorView::Union(_, variants)
                && variants.len() > 0 && variants[0] == DescriptorView::Null),
    {
        match &self.type_descriptor {
            TypeDescriptor::Union(_, variants) => {
                assert(self@.type_descriptor->Union_1.len() == variants.len());
                if variants.len() > 0 {
                    assert(self@.type_descriptor->Union_1[0] == variants[0]@);
                    matches!(variants[0], TypeDescriptor::Null)
                } else {
                    false
                }
            },
            _ => false,
        }
    }

    /// The name of the attribute's kind of type.
    pub fn typesym(&self) -> (r: String)
        ensures
            r@ == typesym_text(self@.type_descriptor),
    {
        match &self.type_descriptor {
            TypeDescriptor::Boolean => String::from_str("boolean"),
            TypeDescriptor::Enum(_) => String::from_str("enum"),
            TypeDescriptor::Fixed(_) => String::from_str("fixed"),
            TypeDescriptor::Float => String::from_str("float"),
            TypeDescriptor::Double => String::from_str("double"),
            TypeDescriptor::Int => String::from_str("int"),
            TypeDescriptor::Long => String::from_str("long"),
            TypeDescriptor::Null => String::from_str("null"),
            TypeDescriptor::String => String::from_str("string"),
            TypeDescriptor::Bytes => String::from_str("bytes"),
            TypeDescriptor::Date => String::from_str("date"),
            TypeDescriptor::TimestampMicros => String::from_str("timestamp-micros"),
            TypeDescriptor::TimestampMillis => String::from_str("timestamp-millis"),
            TypeDescriptor::Array(_) => String::from_str("array"),
            TypeDescriptor::Mapping(_) => String::from_str("map"),
            TypeDescriptor::Record(_) => String::from_str("record"),
            TypeDescriptor::Union(_, _) => String::from_str("union"),
            TypeDescriptor::Custom(_, _) => String::from_str("custom"),
        }
    }

    /// Whether the attribute is a boolean: of boolean type, or of a union
    /// of null and boolean, in that order.
    pub fn is_boolean(&self) -> (r: bool)
        ensures
            r == match self@.type_descriptor {
                DescriptorView::Boolean => true,
                DescriptorView::Union(_, variants) => variants.len() == 2 && variants[0]
                    == DescriptorView::Null && variants[1] == DescriptorView::Boolean,
                _ => false,
            },
    {
        match &self.type_descriptor {
            TypeDescriptor::Boolean => true,
            TypeDescriptor::Union(_, variants) => {
                assert(self@.type_descriptor->Union_1.len() == variants.len());
                if variants.len() == 2 {
                    assert(self@.type_descriptor->Union_1[0] == variants[0]@);
                    assert(self@.type_descriptor->Union_1[1] == variants[1]@);
                    matches!(variants[0], TypeDescriptor::Null) && matches!(
                        variants[1],
                        TypeDescriptor::Boolean
                    )
                } else {
                    false
                }
            },
            _ => false,
        }
    }

    /// Writes a value of the attribute's type in the wire format.
    pub fn serialize<H: CustomTypeHooks>(
        &self,
        value: &AvromaticValue,
        registry: &ModelRegistry,
        hooks: &H,
    ) -> (r: Result<Vec<u8>, EncodeError>)
        ensures
            self@.type_descriptor.settled(registry@) ==> written(r)
                == crate::codec::encode_spec(
                self@.type_descriptor,
                value@,
                registry@,
                registry@.len(),
            ),
    {
        self.type_descriptor.serialize(value, registry, hooks)
    }
}

impl RecordDescriptor {
    /// Coerces a host value for the attribute `key`.
    pub fn coerce<H: CustomTypeHooks>(
        &self,
        key: &str,
        value: &HostValue,
        registry: &ModelRegistry,
        hooks: &H,
    ) -> (r: Result<AvromaticValue, AvromaticError>)
        ensures
            record_settled(self@, registry@) ==> coerced_view(r)
                == record_coerce_spec(self@, key@, value@, registry@),
            field_position(self@, key@, 0) is None ==> coerced_view(r) == Err::<
                ValueView,
                ErrorView,
            >(ErrorView::InvalidAttribute(key@)),
            value@ is Nil && field_position(self@, key@, 0) is Some ==> coerced_view(r) == Ok::<
                ValueView,
                ErrorView,
            >(ValueView::Null),
    {
        let name = String::from_str(key);
        match find_field(self, &name) {
            None => Err(AvromaticError::InvalidAttribute { name }),
            Some(index) => {
                assert(self@[index as int] == (
                    self.attributes[index as int].0@,
                    self.attributes[index as int].1@,
                ));
                self.attributes[index].1.coerce(value, registry, hooks)
            },
        }
    }

    /// The host value of a value of the attribute `key`.
    pub fn to_ruby(&self, key: &str, value: &AvromaticValue) -> (r: Option<HostValue>)
        ensures
            handed(r) == record_to_ruby_spec(self@, key@, value@),
    {
        let name = String::from_str(key);
        match find_field(self, &name) {
            None => None,
            Some(index) => {
                assert(self@[index as int] == (
                    self.attributes[index as int].0@,
                    self.attributes[index as int].1@,
                ));
                self.attributes[index].1.to_ruby(value)
            },
        }
    }

    /// Writes the record's fields, in declared order, each the stored
    /// value under its name, a missing one as null.
    pub fn serialize<H: CustomTypeHooks>(
        &self,
        values: &ModelStorage,
        registry: &ModelRegistry,
        hooks: &H,
    ) -> (r: Result<Vec<u8>, EncodeError>)
        ensures
            record_settled(self@, registry@) ==> written(r)
                == encode_fields(self@, 0, values@, registry@, registry@.len()),
    {
        serialize_record(values, self, registry, hooks, registry.models.len())
    }

    /// Reads the record's fields, in declared order, from `pos` on.
    pub fn deserialize<H: CustomTypeHooks>(
        &self,
        bytes: &[u8],
        pos: usize,
        registry: &ModelRegistry,
        hooks: &H,
    ) -> (r: Result<(ModelStorage, usize), DecodeError>)
        ensures
            record_settled(self@, registry@) ==> match r {
                Ok((storage, end)) => decode_fields(
                    self@,
                    0,
                    bytes@,
                    pos as int,
                    Seq::empty(),
                    registry@,
                    registry@.len(),
                ) == Ok::<(Seq<(Seq<char>, ValueView)>, int), DecodeError>((storage@, end as int)),
                Err(e) => decode_fields(
                    self@,
                    0,
                    bytes@,
                    pos as int,
                    Seq::empty(),
                    registry@,
                    registry@.len(),
                ) == Err::<(Seq<(Seq<char>, ValueView)>, int), DecodeError>(e),
            },
    {
        decode_record(self, bytes, pos, registry, hooks, registry.models.len())
    }
}

impl ModelRecord {
    /// One part of a model, built from its schema.
    pub fn new<H: CustomTypeHooks>(
        schema: ModelSchema,
        registry: &mut ModelRegistry,
        custom_types: &CustomTypeRegistry,
        hooks: &H,
    ) -> (r: Result<ModelRecord, SchemaError>)
        ensures
            old(registry).wf() ==> final(registry).wf(),
            final(registry).prefix == old(registry).prefix,
            extends(old(registry)@, final(registry)@),
            r matches Ok(part) ==> part.schema == schema && record_handles_below(
                part.descriptor@,
                final(registry)@.len(),
            ),
            plain_build(old(registry)@, custom_types@) ==> {
                let all = record_spec(
                    &schema.schema,
                    old(registry)@,
                    old(registry).prefix_spec(),
                    custom_types@,
                );
                &&& final(registry)@ == all.registry
                &&& registry_hook_free(final(registry)@)
                &&& match all.result {
                    Ok(record) => r matches Ok(part) && part.descriptor@ == record
                        && record_hook_free(record),
                    Err(e) => r == Err::<ModelRecord, SchemaError>(e),
                }
            },
    {
        match RecordDescriptor::build(&schema.schema, registry, custom_types, hooks) {
            Ok(descriptor) => Ok(ModelRecord { schema, descriptor }),
            Err(e) => Err(e),
        }
    }
}

/// The index of the first key field whose name the value part has with
/// another type.
pub fn find_conflict(key: &RecordDescriptor, value: &RecordDescriptor) -> (r: Option<usize>)
    ensures
        match r {
            Some(index) => first_conflict(key@, value@, 0) == Some(index as nat),
            None => first_conflict(key@, value@, 0) is None,
        },
{
    let mut i: usize = 0;
    while i < key.attributes.len()
        invariant
            i <= key.attributes.len(),
            key@.len() == key.attributes.len(),
            value@.len() == value.attributes.len(),
            first_conflict(key@, value@, 0) == first_conflict(key@, value@, i as nat),
        decreases key.attributes.len() - i,
    {
        let field = &key.attributes[i];
        assert(key@[i as int] == (field.0@, field.1@));
        if let Some(index) = find_field(value, &field.0) {
            let other = &value.attributes[index];
            assert(value@[index as int] == (other.0@, other.1@));
            if !other.1.type_descriptor.same(&field.1.type_descriptor) {
                return Some(i);
            }
        }
        i += 1;
    }
    None
}

impl ModelDescriptorInner {
    /// Whether the model's records refer only to models of the registry.
    pub open spec fn fits(&self, registry: &ModelRegistry) -> bool {
        &&& record_handles_below(self.value.descriptor@, registry@.len())
        &&& match self.key {
            Some(key) => record_handles_below(key.descriptor@, registry@.len()),
            None => true,
        }
    }

    /// Whether the model holds no custom type.
    pub open spec fn hook_free(&self) -> bool {
        &&& record_hook_free(self.value.descriptor@)
        &&& match self.key {
            Some(key) => record_hook_free(key.descriptor@),
            None => true,
        }
    }

    /// Whether no hook can be asked on the way through the model under a
    /// registry.
    pub open spec fn settled(&self, registry: RegistryView) -> bool {
        &&& record_settled(self.value.descriptor@, registry)
        &&& match self.key {
            Some(key) => record_settled(key.descriptor@, registry),
            None => true,
        }
    }

    /// The descriptor of a model, built from its schemas: the key part
    /// first, where there is one, then the value part. A field that both
    /// parts have must have the same type in both.
    pub fn new<H: CustomTypeHooks>(
        key_schema: Option<ModelSchema>,
        value_schema: ModelSchema,
        nested_models: &mut ModelRegistry,
        custom_types: &CustomTypeRegistry,
        hooks: &H,
    ) -> (r: Result<ModelDescriptorInner, SchemaError>)
        ensures
            old(nested_models).wf() ==> final(nested_models).wf(),
            final(nested_models).prefix == old(nested_models).prefix,
            extends(old(nested_models)@, final(nested_models)@),
            r matches Ok(model) ==> {
                &&& model.fits(final(nested_models))
                &&& model.value.schema == value_schema
                &&& match model.key {
                    Some(key) => key_schema == Some(key.schema) && first_conflict(
                        key.descriptor@,
                        model.value.descriptor@,
                        0,
                    ) is None,
                    None => key_schema is None,
                }
            },
            plain_build(old(nested_models)@, custom_types@) ==> {
                let prefix = old(nested_models).prefix_spec();
                let first = match key_schema {
                    Some(schema) => record_spec(
                        &schema.schema,
                        old(nested_models)@,
                        prefix,
                        custom_types@,
                    ),
                    None => crate::builder::BuiltRecord {
                        result: Ok(Seq::empty()),
                        registry: old(nested_models)@,
                    },
                };
                &&& registry_hook_free(final(nested_models)@)
                &&& (r matches Ok(model) ==> model.hook_free())
                &&& match first.result {
                    Err(e) => r == Err::<ModelDescriptorInner, SchemaError>(e)
                        && final(nested_models)@ == first.registry,
                    Ok(key) => {
                        let second = record_spec(
                            &value_schema.schema,
                            first.registry,
                            prefix,
                            custom_types@,
                        );
                        final(nested_models)@ == second.registry && match second.result {
                            Err(e) => r == Err::<ModelDescriptorInner, SchemaError>(e),
                            Ok(value) => match first_conflict(key, value, 0) {
                                Some(index) => r == Err::<ModelDescriptorInner, SchemaError>(
                                    SchemaError::ConflictingField(index as usize),
                                ),
                                None => r matches Ok(model) && model.value.descriptor@ == value && (
                                match model.key {
                                    Some(part) => part.descriptor@ == key,
                                    None => true,
                                }),
                            },
                        }
                    },
                }
            },
    {
        let ghost before = nested_models@;
        let key = match key_schema {
            None => None,
            Some(schema) => match ModelRecord::new(schema, nested_models, custom_types, hooks) {
                Err(e) => {
                    return Err(e);
                },
                Ok(part) => Some(part),
            },
        };
        let ghost middle = nested_models@;
        let value = match ModelRecord::new(value_schema, nested_models, custom_types, hooks) {
            Err(e) => {
                return Err(e);
            },
            Ok(part) => part,
        };
        proof {
            if let Some(part) = &key {
                assert forall|i: int| 0 <= i < part.descriptor@.len() implies (
                #[trigger] part.descriptor@[i]).1.type_descriptor.handles_below(
                    nested_models@.len(),
                ) by {
                    crate::builder::handles_below_rises(
                        part.descriptor@[i].1.type_descriptor,
                        middle.len(),
                        nested_models@.len(),
                    );
                }
            }
        }
        if let Some(part) = &key {
            if let Some(index) = find_conflict(&part.descriptor, &value.descriptor) {
                return Err(SchemaError::ConflictingField(index));
            }
        } else {
            assert(first_conflict(Seq::empty(), value.descriptor@, 0) is None);
        }
        Ok(ModelDescriptorInner { key, value })
    }

    /// Coerces a host value for the attribute `key`: under the value
    /// part, and where that fails, under the key part.
    pub fn coerce<H: CustomTypeHooks>(
        &self,
        key: &str,
        value: &HostValue,
        registry: &ModelRegistry,
        hooks: &H,
    ) -> (r: Result<AvromaticValue, AvromaticError>)
        ensures
            self.settled(registry@) ==> coerced_view(r)
                == model_coerce_spec(
                self.key_record(),
                self.value.descriptor@,
                key@,
                value@,
                registry@,
            ),
            attribute_of(self.key_record(), self.value.descriptor@, key@) is None ==> coerced_view(
                r,
            ) == Err::<ValueView, ErrorView>(ErrorView::InvalidAttribute(key@)),
            value@ is Nil && attribute_of(self.key_record(), self.value.descriptor@, key@)
                is Some ==> coerced_view(r) == Ok::<ValueView, ErrorView>(ValueView::Null),
    {
        match self.value.descriptor.coerce(key, value, registry, hooks) {
            Ok(coerced) => Ok(coerced),
            Err(e) => match &self.key {
                Some(part) => part.descriptor.coerce(key, value, registry, hooks),
                None => Err(e),
            },
        }
    }

    /// The host value of a value of the attribute `key`: under the key
    /// part, and where that gives none, under the value part; nil where
    /// neither gives one.
    pub fn to_ruby(&self, key: &str, value: &AvromaticValue) -> (r: HostValue)
        ensures
            r@ == match (match self.key {
                Some(part) => record_to_ruby_spec(part.descriptor@, key@, value@),
                None => None,
            }) {
                Some(host) => host,
                None => match record_to_ruby_spec(self.value.descriptor@, key@, value@) {
                    Some(host) => host,
                    None => HostView::Nil,
                },
            },
    {
        let first = match &self.key {
            Some(part) => part.descriptor.to_ruby(key, value),
            None => None,
        };
        match first {
            Some(host) => host,
            None => match self.value.descriptor.to_ruby(key, value) {
                Some(host) => host,
                None => HostValue::Nil,
            },
        }
    }

    /// Appends the key part of `attributes`, in the wire format, to
    /// `buf`. A model without key schema has no key.
    pub fn serialize_key<H: CustomTypeHooks>(
        &self,
        attributes: &ModelStorage,
        buf: &mut Vec<u8>,
        registry: &ModelRegistry,
        hooks: &H,
    ) -> (r: Result<(), EncodeError>)
        ensures
            r is Err ==> final(buf)@ == old(buf)@,
            self.key is None ==> r == Err::<(), EncodeError>(EncodeError::NoKeySchema),
            self.settled(registry@) ==> match self.key {
                None => true,
                Some(part) => match encode_fields(
                    part.descriptor@,
                    0,
                    attributes@,
                    registry@,
                    registry@.len(),
                ) {
                    Ok(bytes) => r is Ok && final(buf)@ == old(buf)@ + bytes,
                    Err(e) => r == Err::<(), EncodeError>(e),
                },
            },
    {
        match &self.key {
            None => Err(EncodeError::NoKeySchema),
            Some(part) => match part.descriptor.serialize(attributes, registry, hooks) {
                Ok(bytes) => {
                    buf.extend_from_slice(bytes.as_slice());
                    Ok(())
                },
                Err(e) => Err(e),
            },
        }
    }

    /// Appends the value part of `attributes`, in the wire format, to
    /// `buf`.
    pub fn serialize_value<H: CustomTypeHooks>(
        &self,
        attributes: &ModelStorage,
        buf: &mut Vec<u8>,
        registry: &ModelRegistry,
        hooks: &H,
    ) -> (r: Result<(), EncodeError>)
        ensures
            r is Err ==> final(buf)@ == old(buf)@,
            self.settled(registry@) ==> match encode_fields(
                self.value.descriptor@,
                0,
                attributes@,
                registry@,
                registry@.len(),
            ) {
                Ok(bytes) => r is Ok && final(buf)@ == old(buf)@ + bytes,
                Err(e) => r == Err::<(), EncodeError>(e),
            },
    {
        match self.value.descriptor.serialize(attributes, registry, hooks) {
            Ok(bytes) => {
                buf.extend_from_slice(bytes.as_slice());
                Ok(())
            },
            Err(e) => Err(e),
        }
    }

    /// The attributes of a message read from its key bytes and its value
    /// bytes: those of the value, with those of the key put in.
    pub fn deserialize_message<H: CustomTypeHooks>(
        &self,
        key: &[u8],
        value: &[u8],
        registry: &ModelRegistry,
        hooks: &H,
    ) -> (r: Result<ModelStorage, DecodeError>)
        ensures
            self.key is None ==> r == Err::<ModelStorage, DecodeError>(DecodeError::NoKeySchema),
            self.settled(registry@) ==> match self.key {
                None => true,
                Some(part) => match decode_fields(
                    part.descriptor@,
                    0,
                    key@,
                    0,
                    Seq::empty(),
                    registry@,
                    registry@.len(),
                ) {
                    Err(e) => r == Err::<ModelStorage, DecodeError>(e),
                    Ok((key_attributes, _)) => match decode_fields(
                        self.value.descriptor@,
                        0,
                        value@,
                        0,
                        Seq::empty(),
                        registry@,
                        registry@.len(),
                    ) {
                        Err(e) => r == Err::<ModelStorage, DecodeError>(e),
                        Ok((attributes, _)) => r matches Ok(storage) && storage@ == storage_merge(
                            attributes,
                            key_attributes,
                            0,
                        ),
                    },
                },
            },
    {
        let part = match &self.key {
            None => {
                return Err(DecodeError::NoKeySchema);
            },
            Some(part) => part,
        };
        let key_storage = match part.descriptor.deserialize(key, 0, registry, hooks) {
            Err(e) => {
                return Err(e);
            },
            Ok((storage, _)) => storage,
        };
        let storage = match self.value.descriptor.deserialize(value, 0, registry, hooks) {
            Err(e) => {
                return Err(e);
            },
            Ok((storage, _)) => storage,
        };
        Ok(merge_storage(storage, key_storage))
    }

    /// The attributes of a message read from its value bytes.
    pub fn deserialize_datum<H: CustomTypeHooks>(
        &self,
        data: &[u8],
        registry: &ModelRegistry,
        hooks: &H,
    ) -> (r: Result<ModelStorage, DecodeError>)
        ensures
            self.settled(registry@) ==> match decode_fields(
                self.value.descriptor@,
                0,
                data@,
                0,
                Seq::empty(),
                registry@,
                registry@.len(),
            ) {
                Err(e) => r == Err::<ModelStorage, DecodeError>(e),
                Ok((attributes, _)) => r matches Ok(storage) && storage@ == attributes,
            },
    {
        match self.value.descriptor.deserialize(data, 0, registry, hooks) {
            Err(e) => Err(e),
            Ok((storage, _)) => Ok(storage),
        }
    }

    /// The attributes of a message read from bytes that were written
    /// under `writer_schema`. Where that schema has the fingerprint of the
    /// model's own value schema, the bytes are decoded as they are. Else
    /// the writer's schema is compiled, with a registry of its own and no
    /// extension, the bytes are read under it, and what was read is
    /// resolved to the model's own record.
    ///
    /// Where no custom type of the model has a hook the result is exactly
    /// what `deserialize_value_spec` states.
    pub fn deserialize_value<H: CustomTypeHooks>(
        &self,
        data: &[u8],
        writer_schema: &ModelSchema,
        registry: &ModelRegistry,
        hooks: &H,
    ) -> (r: Result<ModelStorage, DecodeError>)
        ensures
            self.settled(registry@) ==> stored(r)
                == deserialize_value_spec(
                self.value.descriptor@,
                &self.value.schema.schema,
                registry@,
                registry.prefix_spec(),
                &writer_schema.schema,
                data@,
            ),
            writer_schema.schema.fingerprint_spec() != self.value.schema.schema.fingerprint_spec()
                && writer_schema.schema.fields is None ==> r == Err::<ModelStorage, DecodeError>(
                DecodeError::Unresolvable,
            ),
    {
        let written_under = writer_schema.schema.fingerprint();
        let own = self.value.schema.schema.fingerprint();
        if crate::values::bytes_equal(written_under.as_slice(), own.as_slice()) {
            self.deserialize_datum(data, registry, hooks)
        } else {
            let prefix = match &registry.prefix {
                Some(p) => Some(p.clone()),
                None => None,
            };
            let mut scratch = ModelRegistry::new(prefix);
            let custom_types = CustomTypeRegistry::new();
            let none = crate::custom_types::NoHooks;
            assert(scratch@ =~= Seq::empty());
            assert(custom_types@ =~= Seq::empty());
            match RecordDescriptor::build(
                &writer_schema.schema,
                &mut scratch,
                &custom_types,
                &none,
            ) {
                Err(_) => Err(DecodeError::Unresolvable),
                Ok(written) => crate::resolution::resolve_datum(
                    &written,
                    &scratch,
                    &self.value.descriptor,
                    registry,
                    data,
                    hooks,
                ),
            }
        }
    }

    /// The fields of the key part, then those of the value part, each
    /// with its name.
    pub fn each_field(&self) -> (r: Vec<(&String, &AttributeDescriptor)>)
        ensures
            r.len() == self.value.descriptor@.len() + (match self.key {
                Some(part) => part.descriptor@.len(),
                None => 0,
            }),
            forall|i: int|
                0 <= i < r.len() ==> ((#[trigger] r[i]).0@, r[i].1@) == (match self.key {
                    Some(part) => (part.descriptor@ + self.value.descriptor@)[i],
                    None => self.value.descriptor@[i],
                }),
    {
        let mut out = self.each_key_field();
        let ghost head = out.len();
        let fields = &self.value.descriptor.attributes;
        let mut i: usize = 0;
        while i < fields.len()
            invariant
                i <= fields.len(),
                *fields == self.value.descriptor.attributes,
                self.value.descriptor@.len() == fields.len(),
                head == (match self.key {
                    Some(part) => part.descriptor@.len(),
                    None => 0,
                }),
                out.len() == head + i,
                forall|j: int|
                    0 <= j < out.len() ==> ((#[trigger] out[j]).0@, out[j].1@) == (match self.key {
                        Some(part) => (part.descriptor@ + self.value.descriptor@)[j],
                        None => self.value.descriptor@[j],
                    }),
            decreases fields.len() - i,
        {
            out.push((&fields[i].0, &fields[i].1));
            i += 1;
        }
        out
    }

    /// The fields of the key part, each with its name.
    pub fn each_key_field(&self) -> (r: Vec<(&String, &AttributeDescriptor)>)
        ensures
            r.len() == (match self.key {
                Some(part) => part.descriptor@.len(),
                None => 0,
            }),
            forall|i: int|
                0 <= i < r.len() ==> ((#[trigger] r[i]).0@, r[i].1@)
                    == self.key->Some_0.descriptor@[i],
    {
        let mut out: Vec<(&String, &AttributeDescriptor)> = Vec::new();
        if let Some(part) = &self.key {
            let fields = &part.descriptor.attributes;
            let mut i: usize = 0;
            while i < fields.len()
                invariant
                    i <= fields.len(),
                    self.key == Some(*part),
                    *fields == part.descriptor.attributes,
                    part.descriptor@.len() == fields.len(),
                    out.len() == i,
                    forall|j: int|
                        0 <= j < i ==> ((#[trigger] out[j]).0@, out[j].1@) == part.descriptor@[j],
                decreases fields.len() - i,
            {
                out.push((&fields[i].0, &fields[i].1));
                i += 1;
            }
        }
        out
    }

    /// The fields of the value part, each with its name.
    pub fn each_value_field(&self) -> (r: Vec<(&String, &AttributeDescriptor)>)
        ensures
            r.len() == self.value.descriptor@.len(),
            forall|i: int|
                0 <= i < r.len() ==> ((#[trigger] r[i]).0@, r[i].1@) == self.value.descriptor@[i],
    {
        let mut out: Vec<(&String, &AttributeDescriptor)> = Vec::new();
        let fields = &self.value.descriptor.attributes;
        let mut i: usize = 0;
        while i < fields.len()
            invariant
                i <= fields.len(),
                *fields == self.value.descriptor.attributes,
                self.value.descriptor@.len() == fields.len(),
                out.len() == i,
                forall|j: int|
                    0 <= j < i ==> ((#[trigger] out[j]).0@, out[j].1@) == self.value.descriptor@[j],
            decreases fields.len() - i,
        {
            out.push((&fields[i].0, &fields[i].1));
            i += 1;
        }
        out
    }

    /// The attribute that has the name: that of the value part, and
    /// where the value part has none, that of the key part.
    pub fn get_attribute(&self, name: &str) -> (r: Option<&AttributeDescriptor>)
        ensures
            match r {
                Some(attribute) => attribute_of(self.key_record(), self.value.descriptor@, name@)
                    == Some(attribute@),
                None => attribute_of(self.key_record(), self.value.descriptor@, name@) is None,
            },
    {
        let wanted = String::from_str(name);
        match find_field(&self.value.descriptor, &wanted) {
            Some(index) => {
                let field = &self.value.descriptor.attributes[index];
                assert(self.value.descriptor@[index as int] == (field.0@, field.1@));
                Some(&field.1)
            },
            None => match &self.key {
                None => None,
                Some(part) => match find_field(&part.descriptor, &wanted) {
                    None => None,
                    Some(index) => {
                        let field = &part.descriptor.attributes[index];
                        assert(part.descriptor@[index as int] == (field.0@, field.1@));
                        Some(&field.1)
                    },
                },
            },
        }
    }

    /// The schema of the value part.
    pub fn value_schema(&self) -> (r: &ModelSchema)
        ensures
            *r == self.value.schema,
    {
        &self.value.schema
    }
}

impl ModelDescriptorInner {
    /// The key part's fields, as the contracts speak of them.
    pub open spec fn key_record(&self) -> Option<RecordView> {
        match self.key {
            Some(part) => Some(part.descriptor@),
            None => None,
        }
    }

    /// All fields: those of the key part, then those of the value part.
    pub open spec fn all_fields(&self) -> RecordView {
        match self.key {
            Some(part) => part.descriptor@ + self.value.descriptor@,
            None => self.value.descriptor@,
        }
    }
}

/// `base` with the attributes of `extra` put in, one after the other.
pub fn merge_storage(base: ModelStorage, extra: ModelStorage) -> (r: ModelStorage)
    ensures
        r@ == storage_merge(base@, extra@, 0),
        crate::values::names_unique(base@) ==> crate::values::names_unique(r@),
{
    let ghost whole = storage_merge(base@, extra@, 0);
    let ghost mut acc = base@;
    let mut attributes = base.attributes;
    let mut i: usize = 0;
    while i < extra.attributes.len()
        invariant
            i <= extra.attributes.len(),
            crate::values::names_unique(base@) ==> crate::values::names_unique(acc),
            extra@.len() == extra.attributes.len(),
            acc.len() == attributes.len(),
            forall|j: int|
                0 <= j < attributes.len() ==> acc[j] == ((#[trigger] attributes[j]).0@, attributes[j].1@),
            whole == storage_merge(acc, extra@, i as nat),
        decreases extra.attributes.len() - i,
    {
        let entry = &extra.attributes[i];
        assert(extra@[i as int] == (entry.0@, entry.1@));
        let updated = insert_attribute(
            &mut attributes,
            entry.0.clone(),
            entry.1.duplicate(),
            Ghost(acc),
        );
        proof {
            acc = updated@;
        }
        i += 1;
    }
    let r = ModelStorage { attributes };
    assert(r@ =~= acc);
    r
}

} // verus!
