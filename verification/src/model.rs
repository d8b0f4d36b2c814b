//! The attributes of a model instance: building them from host data,
//! setting and getting single attributes, and framing the encoded
//! message.

use crate::codec::{attribute_value, encode_fields, decode_fields, EncodeError};
use crate::coercion::{bad_coercion, data_value, lookup};
use crate::custom_types::CustomTypeHooks;
use crate::descriptors::{
    AttributeDescriptor,
    DescriptorView,
    RecordView,
    RegistryView,
};
use crate::errors::{bad_coercion_of, AvromaticError, ErrorView, TypeName};
use crate::framing::{be_value, frame, framed, unframe, HEADER_LEN};
use crate::host::to_ruby_spec;
use crate::literal::{insert_attribute, storage_insert};
use crate::model_descriptor::{
    model_coerce_spec,
    record_to_ruby_spec,
    storage_merge,
    ModelDescriptorInner,
    ModelSchema,
};
use crate::model_pool::ModelRegistry;
use crate::serializer::find_attribute;
use crate::values::{bytes_equal, AvromaticValue, HostValue, HostView, ModelStorage, ValueView};
use crate::varint::DecodeError;
use vstd::prelude::*;
use vstd::slice::{slice_subrange, slice_to_vec};
use vstd::utf8::encode_utf8;

verus! {

/// What the host has configured for a model.
#[derive(Clone, Copy, Debug, PartialEq, Eq)]
pub struct AvromaticConfiguration {
    pub mutable: bool,
    pub has_key_schema: bool,
    pub has_value_schema: bool,
}

impl AvromaticConfiguration {
    /// Whether instances of the model can be changed once built.
    pub fn is_mutable(&self) -> (r: bool)
        ensures
            r == self.mutable,
    {
        self.mutable
    }

    /// Whether the model is a nested one: it has a value schema and no
    /// key schema.
    pub fn is_nested_model(&self) -> (r: bool)
        ensures
            r == (!self.has_key_schema && self.has_value_schema),
    {
        !self.has_key_schema && self.has_value_schema
    }
}

/// The attribute storage of one model instance.
#[derive(Debug, PartialEq, Eq)]
pub struct AvromaticModelAttributes {
    pub storage: ModelStorage,
}

/// What a call of a method that the model does not define asks for.
#[derive(Debug, PartialEq, Eq)]
pub enum MethodCall {
    /// `name?`: whether the attribute is true.
    Predicate(Vec<u8>),
    /// `name`: the attribute's value.
    Getter(Vec<u8>),
    /// `name=` on a mutable model: a new value for the attribute.
    Setter(Vec<u8>),
    /// `name=` on an immutable model.
    PrivateSetter,
}

/// The model of a `MethodCall`.
pub enum MethodCallView {
    Predicate(Seq<u8>),
    Getter(Seq<u8>),
    Setter(Seq<u8>),
    PrivateSetter,
}

impl View for MethodCall {
    type V = MethodCallView;

    open spec fn view(&self) -> MethodCallView {
        match self {
            MethodCall::Predicate(name) => MethodCallView::Predicate(name@),
            MethodCall::Getter(name) => MethodCallView::Getter(name@),
            MethodCall::Setter(name) => MethodCallView::Setter(name@),
            MethodCall::PrivateSetter => MethodCallView::PrivateSetter,
        }
    }
}

/// What a method name asks for: a name that ends in `?` a predicate, one
/// that ends in `=` a setter, which an immutable model keeps private, any
/// other a getter.
pub open spec fn classify_spec(name: Seq<u8>, mutable: bool) -> MethodCallView {
    if name.len() > 0 && name.last() == 63 {
        MethodCallView::Predicate(name.drop_last())
    } else if !(name.len() > 0 && name.last() == 61) {
        MethodCallView::Getter(name)
    } else if !mutable {
        MethodCallView::PrivateSetter
    } else {
        MethodCallView::Setter(name.drop_last())
    }
}

/// The index of the first field from `from` on whose name the bytes
/// spell.
pub open spec fn spelled_position(record: RecordView, name: Seq<u8>, from: nat) -> Option<nat>
    decreases record.len() - from,
{
    if from >= record.len() {
        None
    } else if encode_utf8(record[from as int].0) == name {
        Some(from)
    } else {
        spelled_position(record, name, from + 1)
    }
}

/// The attribute whose name the bytes spell: that of the value part, and
/// where the value part has none, that of the key part.
pub open spec fn spelled_attribute(key: Option<RecordView>, value: RecordView, name: Seq<u8>) -> Option<
    crate::descriptors::AttributeView,
> {
    match spelled_position(value, name, 0) {
        Some(index) => Some(value[index as int].1),
        None => match key {
            Some(record) => match spelled_position(record, name, 0) {
                Some(index) => Some(record[index as int].1),
                None => None,
            },
            None => None,
        },
    }
}

/// Whether a model answers a method that it does not define: a
/// predicate where the attribute is a boolean, a setter where the model
/// is mutable and has the attribute, a getter where it has the attribute.
pub open spec fn responds_spec(
    key: Option<RecordView>,
    value: RecordView,
    name: Seq<u8>,
    mutable: bool,
) -> bool {
    match classify_spec(name, true) {
        MethodCallView::Predicate(stem) => match spelled_attribute(key, value, stem) {
            Some(attribute) => match attribute.type_descriptor {
                DescriptorView::Boolean => true,
                DescriptorView::Union(_, variants) => variants.len() == 2 && variants[0]
                    == DescriptorView::Null && variants[1] == DescriptorView::Boolean,
                _ => false,
            },
            None => false,
        },
        MethodCallView::Setter(stem) => mutable && spelled_attribute(key, value, stem) is Some,
        MethodCallView::Getter(stem) => spelled_attribute(key, value, stem) is Some,
        MethodCallView::PrivateSetter => false,
    }
}

/// The attributes of a new instance after the fields from `from` on:
/// each field the coerced value that `data` holds under its name, its
/// default where the name is missing, `Null` where there is no default.
pub open spec fn initialize_spec(
    fields: RecordView,
    from: nat,
    data: Seq<(HostView, HostView)>,
    acc: Seq<(Seq<char>, ValueView)>,
    key: Option<RecordView>,
    value: RecordView,
    reg: RegistryView,
) -> Result<Seq<(Seq<char>, ValueView)>, ErrorView>
    decreases fields.len() - from,
{
    if from >= fields.len() {
        Ok(acc)
    } else {
        let name = fields[from as int].0;
        match data_value(data, name, data.len()) {
            Some(given) => match model_coerce_spec(key, value, name, given, reg) {
                Err(e) => Err(e),
                Ok(coerced) => initialize_spec(
                    fields,
                    from + 1,
                    data,
                    storage_insert(acc, name, coerced, 0),
                    key,
                    value,
                    reg,
                ),
            },
            None => initialize_spec(
                fields,
                from + 1,
                data,
                storage_insert(
                    acc,
                    name,
                    match fields[from as int].1.default {
                        Some(default) => default,
                        None => ValueView::Null,
                    },
                    0,
                ),
                key,
                value,
                reg,
            ),
        }
    }
}

/// The host value of the attribute `name` of a model.
pub open spec fn model_to_ruby_spec(
    key: Option<RecordView>,
    value: RecordView,
    name: Seq<char>,
    stored: ValueView,
) -> HostView {
    match (match key {
        Some(record) => record_to_ruby_spec(record, name, stored),
        None => None,
    }) {
        Some(host) => host,
        None => match record_to_ruby_spec(value, name, stored) {
            Some(host) => host,
            None => HostView::Nil,
        },
    }
}

/// `entries` with `value` under `key`: in the place of an entry with that
/// key, at the end where there is none.
pub open spec fn hash_store_spec(
    entries: Seq<(HostView, HostView)>,
    key: HostView,
    value: HostView,
    from: nat,
) -> Seq<(HostView, HostView)>
    decreases entries.len() - from,
{
    if from >= entries.len() {
        entries.push((key, value))
    } else if entries[from as int].0 == key {
        entries.update(from as int, (key, value))
    } else {
        hash_store_spec(entries, key, value, from + 1)
    }
}

/// The host mapping of the fields from `from` on, behind `acc`: each
/// field's name as a symbol or a string, and the host value of what is
/// stored under it.
pub open spec fn attribute_hash_spec(
    fields: RecordView,
    from: nat,
    storage: Seq<(Seq<char>, ValueView)>,
    symbols: bool,
    acc: Seq<(HostView, HostView)>,
) -> Seq<(HostView, HostView)>
    decreases fields.len() - from,
{
    if from >= fields.len() {
        acc
    } else {
        let name = fields[from as int].0;
        let key = if symbols {
            HostView::Symbol(encode_utf8(name))
        } else {
            HostView::String(encode_utf8(name))
        };
        let host = match to_ruby_spec(
            fields[from as int].1.type_descriptor,
            attribute_value(storage, name, 0),
        ) {
            Some(host) => host,
            None => HostView::Nil,
        };
        attribute_hash_spec(fields, from + 1, storage, symbols, hash_store_spec(acc, key, host, 0))
    }
}

/// What a method name asks for.
pub fn classify_method(name: &str, mutable: bool) -> (r: MethodCall)
    ensures
        r@ == classify_spec(encode_utf8(name@), mutable),
{
    let bytes = name.as_bytes();
    let n = bytes.len();
    if n > 0 && bytes[n - 1] == 63 {
        let stem = slice_to_vec(slice_subrange(bytes, 0, n - 1));
        assert(stem@ =~= bytes@.drop_last());
        MethodCall::Predicate(stem)
    } else if !(n > 0 && bytes[n - 1] == 61) {
        MethodCall::Getter(slice_to_vec(bytes))
    } else if !mutable {
        MethodCall::PrivateSetter
    } else {
        let stem = slice_to_vec(slice_subrange(bytes, 0, n - 1));
        assert(stem@ =~= bytes@.drop_last());
        MethodCall::Setter(stem)
    }
}

/// The index of the field of a record whose name the bytes spell.
pub fn find_spelled_field(record: &crate::descriptors::RecordDescriptor, name: &[u8]) -> (r: Option<
    usize,
>)
    ensures
        match r {
            Some(index) => spelled_position(record@, name@, 0) == Some(index as nat) && index
                < record.attributes.len(),
            None => spelled_position(record@, name@, 0) is None,
        },
{
    let fields = &record.attributes;
    let mut i: usize = 0;
    while i < fields.len()
        invariant
            i <= fields.len(),
            *fields == record.attributes,
            record@.len() == fields.len(),
            spelled_position(record@, name@, 0) == spelled_position(record@, name@, i as nat),
        decreases fields.len() - i,
    {
        assert(record@[i as int] == (fields[i as int].0@, fields[i as int].1@));
        if bytes_equal(fields[i].0.as_str().as_bytes(), name) {
            return Some(i);
        }
        i += 1;
    }
    None
}

/// The attribute whose name the bytes spell: that of the value part, and
/// where the value part has none, that of the key part.
pub fn find_spelled<'a>(descriptor: &'a ModelDescriptorInner, name: &[u8]) -> (r: Option<
    &'a AttributeDescriptor,
>)
    ensures
        match r {
            Some(attribute) => spelled_attribute(
                descriptor.key_record(),
                descriptor.value.descriptor@,
                name@,
            ) == Some(attribute@),
            None => spelled_attribute(descriptor.key_record(), descriptor.value.descriptor@, name@)
                is None,
        },
{
    match find_spelled_field(&descriptor.value.descriptor, name) {
        Some(index) => {
            let field = &descriptor.value.descriptor.attributes[index];
            assert(descriptor.value.descriptor@[index as int] == (field.0@, field.1@));
            Some(&field.1)
        },
        None => match &descriptor.key {
            None => None,
            Some(part) => match find_spelled_field(&part.descriptor, name) {
                None => None,
                Some(index) => {
                    let field = &part.descriptor.attributes[index];
                    assert(part.descriptor@[index as int] == (field.0@, field.1@));
                    Some(&field.1)
                },
            },
        },
    }
}

/// Whether a model answers a method that it does not define.
pub fn respond_to_missing(descriptor: &ModelDescriptorInner, name: &str, mutable: bool) -> (r: bool)
    ensures
        r == responds_spec(
            descriptor.key_record(),
            descriptor.value.descriptor@,
            encode_utf8(name@),
            mutable,
        ),
{
    match classify_method(name, true) {
        MethodCall::Predicate(stem) => match find_spelled(descriptor, stem.as_slice()) {
            Some(attribute) => attribute.is_boolean(),
            None => false,
        },
        MethodCall::Setter(stem) => mutable && find_spelled(descriptor, stem.as_slice()).is_some(),
        MethodCall::Getter(stem) => find_spelled(descriptor, stem.as_slice()).is_some(),
        MethodCall::PrivateSetter => false,
    }
}

/// Puts `value` under `key`, which is a string or a symbol: in the place
/// of an entry with that key, at the end where there is none.
pub(crate) fn hash_store(
    entries: &mut Vec<(HostValue, HostValue)>,
    key: HostValue,
    value: HostValue,
    Ghost(views): Ghost<Seq<(HostView, HostView)>>,
) -> (r: Ghost<Seq<(HostView, HostView)>>)
    requires
        key@ is String || key@ is Symbol,
        views.len() == old(entries).len(),
        forall|j: int|
            0 <= j < old(entries).len() ==> views[j] == (
                (#[trigger] old(entries)[j]).0@,
                old(entries)[j].1@,
            ),
    ensures
        r@ == hash_store_spec(views, key@, value@, 0),
        r@.len() == final(entries).len(),
        forall|j: int|
            0 <= j < final(entries).len() ==> r@[j] == (
                (#[trigger] final(entries)[j]).0@,
                final(entries)[j].1@,
            ),
{
    let mut i: usize = 0;
    while i < entries.len()
        invariant
            i <= entries.len(),
            key@ is String || key@ is Symbol,
            *entries == *old(entries),
            views.len() == entries.len(),
            forall|j: int|
                0 <= j < entries.len() ==> views[j] == ((#[trigger] entries[j]).0@, entries[j].1@),
            hash_store_spec(views, key@, value@, 0) == hash_store_spec(
                views,
                key@,
                value@,
                i as nat,
            ),
        decreases entries.len() - i,
    {
        let same = match (&entries[i].0, &key) {
            (HostValue::String(a), HostValue::String(b)) => bytes_equal(a.as_slice(), b.as_slice()),
            (HostValue::Symbol(a), HostValue::Symbol(b)) => bytes_equal(a.as_slice(), b.as_slice()),
            _ => false,
        };
        assert(same == (views[i as int].0 == key@));
        if same {
            let ghost replaced = views.update(i as int, (key@, value@));
            entries.set(i, (key, value));
            return Ghost(replaced);
        }
        i += 1;
    }
    let ghost pushed = views.push((key@, value@));
    entries.push((key, value));
    Ghost(pushed)
}

/// The host mapping of the fields, each under its name as a symbol or a
/// string.
pub(crate) fn hash_of_fields(
    fields: &Vec<(&String, &AttributeDescriptor)>,
    storage: &ModelStorage,
    symbols: bool,
    Ghost(record): Ghost<RecordView>,
) -> (r: HostValue)
    requires
        record.len() == fields.len(),
        forall|i: int| 0 <= i < fields.len() ==> ((#[trigger] fields[i]).0@, fields[i].1@) == record[i],
    ensures
        r@ == HostView::Mapping(attribute_hash_spec(record, 0, storage@, symbols, Seq::empty())),
{
    let ghost whole = attribute_hash_spec(record, 0, storage@, symbols, Seq::empty());
    let ghost mut acc: Seq<(HostView, HostView)> = Seq::empty();
    let mut out: Vec<(HostValue, HostValue)> = Vec::new();
    let mut i: usize = 0;
    while i < fields.len()
        invariant
            i <= fields.len(),
            record.len() == fields.len(),
            forall|i: int|
                0 <= i < fields.len() ==> ((#[trigger] fields[i]).0@, fields[i].1@) == record[i],
            acc.len() == out.len(),
            forall|j: int| 0 <= j < out.len() ==> acc[j] == ((#[trigger] out[j]).0@, out[j].1@),
            whole == attribute_hash_spec(record, i as nat, storage@, symbols, acc),
        decreases fields.len() - i,
    {
        let name = fields[i].0;
        let attribute = fields[i].1;
        assert((name@, attribute@) == record[i as int]);
        let spelled = slice_to_vec(name.as_str().as_bytes());
        let key = if symbols {
            HostValue::Symbol(spelled)
        } else {
            HostValue::String(spelled)
        };
        let null = AvromaticValue::Null;
        let stored: &AvromaticValue = match find_attribute(storage, name) {
            Some(value) => value,
            None => &null,
        };
        let host = match attribute.to_ruby(stored) {
            Some(host) => host,
            None => HostValue::Nil,
        };
        let updated = hash_store(&mut out, key, host, Ghost(acc));
        proof {
            acc = updated@;
        }
        i += 1;
    }
    let r = HostValue::Mapping(out);
    assert(r@->Mapping_0 =~= acc);
    r
}

impl AvromaticModelAttributes {
    /// The attributes of a new instance, from the mapping that the host
    /// hands to the constructor: nil stands for an empty mapping. Each
    /// field, those of the key part first, takes the coerced value that
    /// the mapping holds under its name, else its default, else null.
    pub fn initialize<H: CustomTypeHooks>(
        descriptor: &ModelDescriptorInner,
        data: &HostValue,
        registry: &ModelRegistry,
        hooks: &H,
    ) -> (r: Result<AvromaticModelAttributes, AvromaticError>)
        ensures
            r matches Ok(built) ==> crate::values::names_unique(built.storage@),
            !(data@ is Nil || data@ is Mapping) ==> (r matches Err(e) && e@ == bad_coercion_of(
                data@,
                TypeName::Record,
            )@),
            descriptor.settled(registry@) && (data@ is Nil
                || data@ is Mapping) ==> match initialize_spec(
                descriptor.all_fields(),
                0,
                if data@ is Mapping {
                    data@->Mapping_0
                } else {
                    Seq::empty()
                },
                Seq::empty(),
                descriptor.key_record(),
                descriptor.value.descriptor@,
                registry@,
            ) {
                Ok(attributes) => r matches Ok(built) && built.storage@ == attributes,
                Err(e) => r matches Err(error) && error@ == e,
            },
    {
        let none: Vec<(HostValue, HostValue)> = Vec::new();
        let entries: &Vec<(HostValue, HostValue)> = match data {
            HostValue::Nil => {
                assert(HostValue::Mapping(none)@->Mapping_0 =~= Seq::<(HostView, HostView)>::empty());
                &none
            },
            HostValue::Mapping(entries) => entries,
            _ => {
                return Err(bad_coercion(data, TypeName::Record));
            },
        };
        let ghost views = HostValue::Mapping(*entries)@->Mapping_0;
        let ghost plain = descriptor.settled(registry@);
        let fields = descriptor.each_field();
        let ghost record = descriptor.all_fields();
        let ghost whole = initialize_spec(
            record,
            0,
            views,
            Seq::empty(),
            descriptor.key_record(),
            descriptor.value.descriptor@,
            registry@,
        );
        let ghost mut acc: Seq<(Seq<char>, ValueView)> = Seq::empty();
        let mut attributes: Vec<(String, AvromaticValue)> = Vec::new();
        let mut i: usize = 0;
        while i < fields.len()
            invariant
                plain == (descriptor.settled(registry@)),
                views == HostValue::Mapping(*entries)@->Mapping_0,
                views.len() == entries.len(),
                data@ is Nil || data@ is Mapping,
                views == (if data@ is Mapping {
                    data@->Mapping_0
                } else {
                    Seq::empty()
                }),
                record == descriptor.all_fields(),
                record.len() == fields.len(),
                forall|j: int|
                    0 <= j < fields.len() ==> ((#[trigger] fields[j]).0@, fields[j].1@) == record[j],
                whole == initialize_spec(
                    record,
                    0,
                    views,
                    Seq::empty(),
                    descriptor.key_record(),
                    descriptor.value.descriptor@,
                    registry@,
                ),
                i <= fields.len(),
                crate::values::names_unique(acc),
                acc.len() == attributes.len(),
                forall|j: int|
                    0 <= j < attributes.len() ==> acc[j] == (
                        (#[trigger] attributes[j]).0@,
                        attributes[j].1@,
                    ),
                plain ==> whole == initialize_spec(
                    record,
                    i as nat,
                    views,
                    acc,
                    descriptor.key_record(),
                    descriptor.value.descriptor@,
                    registry@,
                ),
            decreases fields.len() - i,
        {
            let name = fields[i].0;
            let attribute = fields[i].1;
            assert((name@, attribute@) == record[i as int]);
            let stored = match lookup(entries, name) {
                Some(given) => match descriptor.coerce(name.as_str(), given, registry, hooks) {
                    Err(e) => {
                        assert(plain ==> initialize_spec(
                            record,
                            i as nat,
                            views,
                            acc,
                            descriptor.key_record(),
                            descriptor.value.descriptor@,
                            registry@,
                        ) == Err::<Seq<(Seq<char>, ValueView)>, ErrorView>(e@));
                        return Err(e);
                    },
                    Ok(stored) => stored,
                },
                None => match &attribute.default {
                    Some(default) => default.duplicate(),
                    None => AvromaticValue::Null,
                },
            };
            let updated = insert_attribute(&mut attributes, name.clone(), stored, Ghost(acc));
            proof {
                acc = updated@;
            }
            i += 1;
        }
        let storage = ModelStorage { attributes };
        assert(storage@ =~= acc);
        Ok(AvromaticModelAttributes { storage })
    }

    /// Coerces a host value for the attribute `key` and stores it. Where
    /// coercion fails nothing is stored.
    pub fn set_attribute<H: CustomTypeHooks>(
        &mut self,
        descriptor: &ModelDescriptorInner,
        key: &str,
        value: &HostValue,
        registry: &ModelRegistry,
        hooks: &H,
    ) -> (r: Result<(), AvromaticError>)
        ensures
            r is Err ==> final(self).storage@ == old(self).storage@,
            crate::values::names_unique(old(self).storage@) ==> crate::values::names_unique(
                final(self).storage@,
            ),
            descriptor.settled(registry@) ==> match model_coerce_spec(
                descriptor.key_record(),
                descriptor.value.descriptor@,
                key@,
                value@,
                registry@,
            ) {
                Ok(coerced) => r is Ok && final(self).storage@ == storage_insert(
                    old(self).storage@,
                    key@,
                    coerced,
                    0,
                ),
                Err(e) => r matches Err(error) && error@ == e,
            },
    {
        match descriptor.coerce(key, value, registry, hooks) {
            Err(e) => Err(e),
            Ok(coerced) => {
                let ghost views = self.storage@;
                let updated = insert_attribute(
                    &mut self.storage.attributes,
                    String::from_str(key),
                    coerced,
                    Ghost(views),
                );
                assert(self.storage@ =~= updated@);
                Ok(())
            },
        }
    }

    /// The host value of the attribute `key`: nil where nothing is
    /// stored under it.
    pub fn get_attribute(&self, descriptor: &ModelDescriptorInner, key: &str) -> (r: HostValue)
        ensures
            r@ == model_to_ruby_spec(
                descriptor.key_record(),
                descriptor.value.descriptor@,
                key@,
                attribute_value(self.storage@, key@, 0),
            ),
    {
        let name = String::from_str(key);
        match find_attribute(&self.storage, &name) {
            Some(value) => descriptor.to_ruby(key, value),
            None => descriptor.to_ruby(key, &AvromaticValue::Null),
        }
    }

    /// Whether the attribute `key` is true: stored as true, or as true
    /// under the second branch of a union.
    pub fn is_attribute_true(&self, key: &str) -> (r: bool)
        ensures
            r == match attribute_value(self.storage@, key@, 0) {
                ValueView::True => true,
                ValueView::Union(index, inner) => index == 1 && *inner == ValueView::True,
                _ => false,
            },
    {
        let name = String::from_str(key);
        match find_attribute(&self.storage, &name) {
            None => false,
            Some(stored) => match stored {
                AvromaticValue::True => true,
                AvromaticValue::Union(index, inner) => {
                    assert(stored@ == ValueView::Union(*index as nat, Box::new(inner@)));
                    let inner_true = match &**inner {
                        AvromaticValue::True => true,
                        _ => false,
                    };
                    *index == 1 && inner_true
                },
                _ => false,
            },
        }
    }

    /// All attributes as a host mapping with symbols for keys: the fields
    /// of the key part, then those of the value part.
    pub fn attribute_hash(&self, descriptor: &ModelDescriptorInner) -> (r: HostValue)
        ensures
            r@ == HostView::Mapping(
                attribute_hash_spec(descriptor.all_fields(), 0, self.storage@, true, Seq::empty()),
            ),
    {
        let fields = descriptor.each_field();
        hash_of_fields(&fields, &self.storage, true, Ghost(descriptor.all_fields()))
    }

    /// The attributes of the key part as a host mapping with strings for
    /// keys.
    pub fn attribute_hash_for_key(&self, descriptor: &ModelDescriptorInner) -> (r: HostValue)
        ensures
            r@ == HostView::Mapping(
                attribute_hash_spec(
                    match descriptor.key_record() {
                        Some(record) => record,
                        None => Seq::empty(),
                    },
                    0,
                    self.storage@,
                    false,
                    Seq::empty(),
                ),
            ),
    {
        let fields = descriptor.each_key_field();
        let ghost record = match descriptor.key_record() {
            Some(record) => record,
            None => Seq::empty(),
        };
        hash_of_fields(&fields, &self.storage, false, Ghost(record))
    }

    /// The attributes of the value part as a host mapping with strings
    /// for keys.
    pub fn attribute_hash_for_value(&self, descriptor: &ModelDescriptorInner) -> (r: HostValue)
        ensures
            r@ == HostView::Mapping(
                attribute_hash_spec(
                    descriptor.value.descriptor@,
                    0,
                    self.storage@,
                    false,
                    Seq::empty(),
                ),
            ),
    {
        let fields = descriptor.each_value_field();
        hash_of_fields(&fields, &self.storage, false, Ghost(descriptor.value.descriptor@))
    }

    /// The framed key of the message: the frame's head with the id of the
    /// key schema, then the key part in the wire format.
    pub fn serialize_key<H: CustomTypeHooks>(
        &self,
        descriptor: &ModelDescriptorInner,
        schema_id: i64,
        registry: &ModelRegistry,
        hooks: &H,
    ) -> (r: Result<Vec<u8>, EncodeError>)
        ensures
            descriptor.key is None ==> r == Err::<Vec<u8>, EncodeError>(EncodeError::NoKeySchema),
            r matches Ok(message) ==> message@.len() >= HEADER_LEN && message@.subrange(
                0,
                HEADER_LEN as int,
            ) == seq![0u8] + crate::framing::be_bytes(schema_id as i32),
            descriptor.settled(registry@) ==> match descriptor.key {
                None => true,
                Some(part) => match encode_fields(
                    part.descriptor@,
                    0,
                    self.storage@,
                    registry@,
                    registry@.len(),
                ) {
                    Ok(bytes) => r matches Ok(message) && message@ == framed(
                        schema_id as i32,
                        bytes,
                    ),
                    Err(e) => r == Err::<Vec<u8>, EncodeError>(e),
                },
            },
    {
        let mut payload: Vec<u8> = Vec::new();
        match descriptor.serialize_key(&self.storage, &mut payload, registry, hooks) {
            Err(e) => Err(e),
            Ok(()) => {
                assert(payload@ =~= Seq::<u8>::empty() + payload@);
                let message = frame(schema_id, payload.as_slice());
                assert(message@.subrange(0, HEADER_LEN as int) =~= seq![0u8]
                    + crate::framing::be_bytes(schema_id as i32));
                Ok(message)
            },
        }
    }

    /// The framed value of the message: the frame's head with the id of
    /// the value schema, then the value part in the wire format.
    pub fn serialize_value<H: CustomTypeHooks>(
        &self,
        descriptor: &ModelDescriptorInner,
        schema_id: i64,
        registry: &ModelRegistry,
        hooks: &H,
    ) -> (r: Result<Vec<u8>, EncodeError>)
        ensures
            r matches Ok(message) ==> message@.len() >= HEADER_LEN && message@.subrange(
                0,
                HEADER_LEN as int,
            ) == seq![0u8] + crate::framing::be_bytes(schema_id as i32),
            descriptor.settled(registry@) ==> match encode_fields(
                descriptor.value.descriptor@,
                0,
                self.storage@,
                registry@,
                registry@.len(),
            ) {
                Ok(bytes) => r matches Ok(message) && message@ == framed(schema_id as i32, bytes),
                Err(e) => r == Err::<Vec<u8>, EncodeError>(e),
            },
    {
        let mut payload: Vec<u8> = Vec::new();
        match descriptor.serialize_value(&self.storage, &mut payload, registry, hooks) {
            Err(e) => Err(e),
            Ok(()) => {
                assert(payload@ =~= Seq::<u8>::empty() + payload@);
                let message = frame(schema_id, payload.as_slice());
                assert(message@.subrange(0, HEADER_LEN as int) =~= seq![0u8]
                    + crate::framing::be_bytes(schema_id as i32));
                Ok(message)
            },
        }
    }

    /// The id of the schema under which a framed message was written;
    /// `None` where the message is shorter than its head.
    pub fn writer_schema_id(bytes: &[u8]) -> (r: Option<i32>)
        ensures
            match r {
                Some(id) => bytes.len() >= HEADER_LEN && id == be_value(bytes@.subrange(1, 5)),
                None => bytes.len() < HEADER_LEN,
            },
    {
        match unframe(bytes) {
            Some((id, _)) => Some(id),
            None => None,
        }
    }

    /// The instance that a framed value holds, written under
    /// `writer_schema`.
    pub fn decode_value<H: CustomTypeHooks>(
        descriptor: &ModelDescriptorInner,
        bytes: &[u8],
        writer_schema: &ModelSchema,
        registry: &ModelRegistry,
        hooks: &H,
    ) -> (r: Result<AvromaticModelAttributes, DecodeError>)
        ensures
            bytes.len() < HEADER_LEN ==> r == Err::<AvromaticModelAttributes, DecodeError>(
                DecodeError::TruncatedFrame,
            ),
            descriptor.settled(registry@) && bytes.len()
                >= HEADER_LEN ==> match crate::model_descriptor::deserialize_value_spec(
                descriptor.value.descriptor@,
                &descriptor.value.schema.schema,
                registry@,
                registry.prefix_spec(),
                &writer_schema.schema,
                bytes@.subrange(HEADER_LEN as int, bytes.len() as int),
            ) {
                Err(e) => r == Err::<AvromaticModelAttributes, DecodeError>(e),
                Ok(attributes) => r matches Ok(built) && built.storage@ == attributes,
            },
    {
        if bytes.len() < 5 {
            return Err(DecodeError::TruncatedFrame);
        }
        let payload = slice_subrange(bytes, 5, bytes.len());
        match descriptor.deserialize_value(payload, writer_schema, registry, hooks) {
            Err(e) => Err(e),
            Ok(storage) => Ok(AvromaticModelAttributes { storage }),
        }
    }

    /// The instance that a framed key and a framed value hold.
    pub fn decode_message<H: CustomTypeHooks>(
        descriptor: &ModelDescriptorInner,
        key: &[u8],
        value: &[u8],
        registry: &ModelRegistry,
        hooks: &H,
    ) -> (r: Result<AvromaticModelAttributes, DecodeError>)
        ensures
            key.len() < HEADER_LEN || value.len() < HEADER_LEN ==> r == Err::<
                AvromaticModelAttributes,
                DecodeError,
            >(DecodeError::TruncatedFrame),
            descriptor.settled(registry@) && key.len() >= HEADER_LEN
                && value.len() >= HEADER_LEN ==> match descriptor.key {
                None => r == Err::<AvromaticModelAttributes, DecodeError>(DecodeError::NoKeySchema),
                Some(part) => match decode_fields(
                    part.descriptor@,
                    0,
                    key@.subrange(HEADER_LEN as int, key.len() as int),
                    0,
                    Seq::empty(),
                    registry@,
                    registry@.len(),
                ) {
                    Err(e) => r == Err::<AvromaticModelAttributes, DecodeError>(e),
                    Ok((key_attributes, _)) => match decode_fields(
                        descriptor.value.descriptor@,
                        0,
                        value@.subrange(HEADER_LEN as int, value.len() as int),
                        0,
                        Seq::empty(),
                        registry@,
                        registry@.len(),
                    ) {
                        Err(e) => r == Err::<AvromaticModelAttributes, DecodeError>(e),
                        Ok((attributes, _)) => r matches Ok(built) && built.storage@
                            == storage_merge(attributes, key_attributes, 0),
                    },
                },
            },
    {
        if key.len() < 5 || value.len() < 5 {
            return Err(DecodeError::TruncatedFrame);
        }
        let key_payload = slice_subrange(key, 5, key.len());
        let value_payload = slice_subrange(value, 5, value.len());
        match descriptor.deserialize_message(key_payload, value_payload, registry, hooks) {
            Err(e) => Err(e),
            Ok(storage) => Ok(AvromaticModelAttributes { storage }),
        }
    }
}

} // verus!
