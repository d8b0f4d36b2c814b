//! Resolving a schema literal, such as a field's default, into an
//! intermediate value under a type descriptor.

use crate::codec::entries_insert;
use crate::custom_types::CustomTypeHooks;
use crate::de::insert_entry;
use crate::descriptors::{
    record_settled,
    CustomTypeConfiguration,
    DescriptorView,
    RecordDescriptor,
    RecordView,
    RegistryView,
    TypeDescriptor,
};
use crate::host::to_ruby_spec;
use crate::model_pool::ModelRegistry;
use crate::schema::AvroValue;
use crate::values::{names_unique, AvromaticValue, HostNumber, HostValue, ModelStorage, ValueView};
use vstd::prelude::*;
use vstd::slice::slice_to_vec;
use vstd::utf8::encode_utf8;

verus! {

/// The index that a union's reference map gives for `name`, among its
/// first `upto` entries: that of the last entry with the name.
pub open spec fn reference_index(refs: Seq<(Seq<char>, usize)>, name: Seq<char>, upto: nat) -> Option<
    usize,
>
    decreases upto,
{
    if upto == 0 || upto > refs.len() {
        None
    } else if refs[upto - 1].0 == name {
        Some(refs[upto - 1].1)
    } else {
        reference_index(refs, name, (upto - 1) as nat)
    }
}

/// The index of the first field from `from` on that has the name.
pub open spec fn field_position(record: RecordView, name: Seq<char>, from: nat) -> Option<nat>
    decreases record.len() - from,
{
    if from >= record.len() {
        None
    } else if record[from as int].0 == name {
        Some(from)
    } else {
        field_position(record, name, from + 1)
    }
}

/// `storage` with `value` under `name`: in the place of an attribute with
/// that name, at the end where there is none.
pub open spec fn storage_insert(
    storage: Seq<(Seq<char>, ValueView)>,
    name: Seq<char>,
    value: ValueView,
    from: nat,
) -> Seq<(Seq<char>, ValueView)>
    decreases storage.len() - from,
{
    if from >= storage.len() {
        storage.push((name, value))
    } else if storage[from as int].0 == name {
        storage.update(from as int, (name, value))
    } else {
        storage_insert(storage, name, value, from + 1)
    }
}

/// Putting an attribute into a storage that holds no name twice leaves a
/// storage that holds no name twice.
pub proof fn storage_insert_keeps(
    storage: Seq<(Seq<char>, ValueView)>,
    name: Seq<char>,
    value: ValueView,
    from: nat,
)
    requires
        names_unique(storage),
        forall|i: int| 0 <= i < from && i < storage.len() ==> (#[trigger] storage[i]).0 != name,
    ensures
        names_unique(storage_insert(storage, name, value, from)),
        storage_insert(storage, name, value, from).len() >= storage.len(),
        (forall|i: int| 0 <= i < storage.len() ==> (#[trigger] storage[i]).1.well_formed())
            && value.well_formed() ==> forall|i: int|
            0 <= i < storage_insert(storage, name, value, from).len() ==> (
            #[trigger] storage_insert(storage, name, value, from)[i]).1.well_formed(),
    decreases storage.len() - from,
{
    let after = storage_insert(storage, name, value, from);
    if from >= storage.len() {
        assert forall|i: int, j: int| 0 <= i < j < after.len() implies (#[trigger] after[i]).0 != (
        #[trigger] after[j]).0 by {
            if j < storage.len() {
                assert(after[i] == storage[i] && after[j] == storage[j]);
            } else {
                assert(after[i] == storage[i]);
            }
        }
    } else if storage[from as int].0 == name {
        assert forall|i: int, j: int| 0 <= i < j < after.len() implies (#[trigger] after[i]).0 != (
        #[trigger] after[j]).0 by {
            assert(after[i].0 == storage[i].0 && after[j].0 == storage[j].0);
        }
    } else {
        storage_insert_keeps(storage, name, value, from + 1);
    }
}

/// The whole number that a literal is: an int, a long, or a number that
/// the host gives as an integer.
pub open spec fn whole_number(value: &AvroValue) -> Option<i64> {
    match value {
        AvroValue::Int(n) => Some(*n as i64),
        AvroValue::Long(n) => Some(*n),
        AvroValue::Number(HostNumber { integer: true, as_integer: Some(n), .. }) => Some(*n),
        _ => None,
    }
}

/// What a literal without inner values resolves to under a descriptor
/// without inner descriptors.
pub open spec fn attribute_scalar_spec(d: DescriptorView, value: &AvroValue) -> Option<ValueView> {
    match d {
        DescriptorView::Null => Some(ValueView::Null),
        DescriptorView::Boolean => match value {
            AvroValue::Boolean(b) => Some(
                if *b {
                    ValueView::True
                } else {
                    ValueView::False
                },
            ),
            _ => None,
        },
        DescriptorView::Bytes => match value {
            AvroValue::Bytes(bytes) => Some(ValueView::String(bytes@)),
            AvroValue::String(text) => Some(ValueView::String(encode_utf8(text@))),
            _ => None,
        },
        DescriptorView::Fixed(size) => match value {
            AvroValue::Fixed(_, bytes) => Some(ValueView::String(bytes@)),
            AvroValue::String(text) => if encode_utf8(text@).len() == size {
                Some(ValueView::String(encode_utf8(text@)))
            } else {
                None
            },
            _ => None,
        },
        DescriptorView::Enum(_) => match value {
            AvroValue::Enum(_, text) => Some(ValueView::String(encode_utf8(text@))),
            AvroValue::String(text) => Some(ValueView::String(encode_utf8(text@))),
            _ => None,
        },
        DescriptorView::String => match value {
            AvroValue::String(text) => Some(ValueView::String(encode_utf8(text@))),
            _ => None,
        },
        DescriptorView::Int => match whole_number(value) {
            Some(n) => if crate::varint::fits_int(n) {
                Some(ValueView::Long(n))
            } else {
                None
            },
            None => None,
        },
        DescriptorView::Date => match value {
            AvroValue::Date(n) => Some(ValueView::Long(*n as i64)),
            _ => match whole_number(value) {
                Some(n) => if crate::varint::fits_int(n) {
                    Some(ValueView::Long(n))
                } else {
                    None
                },
                None => None,
            },
        },
        DescriptorView::Long => match whole_number(value) {
            Some(n) => Some(ValueView::Long(n)),
            None => None,
        },
        DescriptorView::TimestampMicros => match value {
            AvroValue::TimestampMicros(n) => Some(ValueView::Long(*n)),
            _ => match whole_number(value) {
                Some(n) => Some(ValueView::Long(n)),
                None => None,
            },
        },
        DescriptorView::TimestampMillis => match value {
            AvroValue::TimestampMillis(n) => Some(ValueView::Long(*n)),
            _ => match whole_number(value) {
                Some(n) => Some(ValueView::Long(n)),
                None => None,
            },
        },
        DescriptorView::Float => match value {
            AvroValue::Float(bits) => Some(ValueView::Float(*bits)),
            AvroValue::Number(HostNumber { as_single: Some(bits), .. }) => Some(
                ValueView::Float(*bits),
            ),
            _ => None,
        },
        DescriptorView::Double => match value {
            AvroValue::Double(bits) => Some(ValueView::Double(*bits)),
            AvroValue::Number(HostNumber { as_double: Some(bits), .. }) => Some(
                ValueView::Double(*bits),
            ),
            _ => None,
        },
        _ => None,
    }
}

/// What the literal resolves to under `d`; `None` where it is not of the
/// kind that `d` describes. Record handles are followed only below
/// `level`.
///
/// A literal union value resolves under the branch that its reference
/// names and carries that branch's index; any other literal under a union
/// resolves under the first variant that takes it, and carries no tag.
/// Under a custom descriptor the literal resolves under the underlying
/// type and is wrapped in its host form, as an extension without hooks
/// does; what a hook makes of it this function cannot say.
pub open spec fn attribute_spec(d: DescriptorView, value: &AvroValue, reg: RegistryView, level: nat) -> Option<
    ValueView,
>
    decreases level, 1nat, d, 0nat,
{
    match d {
        DescriptorView::Array(inner) => match value {
            AvroValue::Array(items) => match attribute_items(
                *inner,
                items@,
                0,
                Seq::empty(),
                reg,
                level,
            ) {
                Some(values) => Some(ValueView::Array(values)),
                None => None,
            },
            _ => None,
        },
        DescriptorView::Mapping(inner) => match value {
            AvroValue::Mapping(entries) | AvroValue::Record(entries) => match attribute_entries(
                *inner,
                entries@,
                0,
                Seq::empty(),
                reg,
                level,
            ) {
                Some(values) => Some(ValueView::Mapping(values)),
                None => None,
            },
            _ => None,
        },
        DescriptorView::Union(refs, variants) => match value {
            AvroValue::Union(reference, inner) => match reference_index(
                refs,
                reference@,
                refs.len(),
            ) {
                Some(index) => if index < variants.len() {
                    match attribute_spec(variants[index as int], &**inner, reg, level) {
                        Some(resolved) => Some(
                            ValueView::Union(index as nat, Box::new(resolved)),
                        ),
                        None => None,
                    }
                } else {
                    None
                },
                None => None,
            },
            _ => attribute_first_variant(variants, 0, value, reg, level),
        },
        DescriptorView::Record(handle) => match value {
            AvroValue::Record(fields) => if handle < level && handle < reg.len() {
                match attribute_fields(
                    reg[handle as int].record,
                    fields@,
                    0,
                    Seq::empty(),
                    reg,
                    handle as nat,
                ) {
                    Some(storage) => Some(ValueView::Record(storage)),
                    None => None,
                }
            } else {
                None
            },
            _ => None,
        },
        DescriptorView::Custom(_, inner) => match attribute_spec(*inner, value, reg, level) {
            None => None,
            Some(raw) => match to_ruby_spec(*inner, raw) {
                None => None,
                Some(host) => Some(ValueView::Custom(Box::new(host))),
            },
        },
        _ => attribute_scalar_spec(d, value),
    }
}

/// The items from `from` on, resolved and put behind `acc`.
pub open spec fn attribute_items(
    inner: DescriptorView,
    items: Seq<AvroValue>,
    from: nat,
    acc: Seq<ValueView>,
    reg: RegistryView,
    level: nat,
) -> Option<Seq<ValueView>>
    decreases level, 1nat, inner, items.len() - from + 1,
{
    if from >= items.len() {
        Some(acc)
    } else {
        match attribute_spec(inner, &items[from as int], reg, level) {
            None => None,
            Some(value) => attribute_items(inner, items, from + 1, acc.push(value), reg, level),
        }
    }
}

/// The entries from `from` on, resolved and put into `acc`.
pub open spec fn attribute_entries(
    inner: DescriptorView,
    entries: Seq<(String, AvroValue)>,
    from: nat,
    acc: Seq<(Seq<u8>, ValueView)>,
    reg: RegistryView,
    level: nat,
) -> Option<Seq<(Seq<u8>, ValueView)>>
    decreases level, 1nat, inner, entries.len() - from + 1,
{
    if from >= entries.len() {
        Some(acc)
    } else {
        match attribute_spec(inner, &entries[from as int].1, reg, level) {
            None => None,
            Some(value) => attribute_entries(
                inner,
                entries,
                from + 1,
                entries_insert(acc, encode_utf8(entries[from as int].0@), value, 0),
                reg,
                level,
            ),
        }
    }
}

/// What the literal resolves to under the first variant from `from` on
/// that takes it.
pub open spec fn attribute_first_variant(
    variants: Seq<DescriptorView>,
    from: nat,
    value: &AvroValue,
    reg: RegistryView,
    level: nat,
) -> Option<ValueView>
    decreases level, 1nat, variants, variants.len() - from + 1,
{
    if from >= variants.len() {
        None
    } else {
        match attribute_spec(variants[from as int], value, reg, level) {
            Some(resolved) => Some(resolved),
            None => attribute_first_variant(variants, from + 1, value, reg, level),
        }
    }
}

/// The fields of a literal record from the `from`th on, each resolved
/// under the model's field of its name and put into `acc`.
pub open spec fn attribute_fields(
    record: RecordView,
    fields: Seq<(String, AvroValue)>,
    from: nat,
    acc: Seq<(Seq<char>, ValueView)>,
    reg: RegistryView,
    level: nat,
) -> Option<Seq<(Seq<char>, ValueView)>>
    decreases level + 1, 0nat, record, fields.len() - from,
{
    if from >= fields.len() {
        Some(acc)
    } else {
        let name = fields[from as int].0@;
        match field_position(record, name, 0) {
            None => None,
            Some(index) => if index < record.len() {
                match attribute_spec(
                    record[index as int].1.type_descriptor,
                    &fields[from as int].1,
                    reg,
                    level,
                ) {
                    None => None,
                    Some(value) => attribute_fields(
                        record,
                        fields,
                        from + 1,
                        storage_insert(acc, name, value, 0),
                        reg,
                        level,
                    ),
                }
            } else {
                None
            },
        }
    }
}

/// What was resolved, as the contracts speak of it.
pub open spec fn resolved(r: Option<AvromaticValue>) -> Option<ValueView> {
    match r {
        Some(value) => Some(value@),
        None => None,
    }
}

/// The whole number that a literal is.
pub fn whole_number_of(value: &AvroValue) -> (r: Option<i64>)
    ensures
        r == whole_number(value),
{
    match value {
        AvroValue::Int(n) => Some(*n as i64),
        AvroValue::Long(n) => Some(*n),
        AvroValue::Number(HostNumber { integer: true, as_integer: Some(n), .. }) => Some(*n),
        _ => None,
    }
}

/// A whole number as a long.
pub fn long_literal(value: &AvroValue) -> (r: Option<AvromaticValue>)
    ensures
        resolved(r) == match whole_number(value) {
            Some(n) => Some(ValueView::Long(n)),
            None => None,
        },
{
    match whole_number_of(value) {
        Some(n) => Some(AvromaticValue::Long(n)),
        None => None,
    }
}

/// A whole number that fits 32 bits as an int.
pub fn int_literal(value: &AvroValue) -> (r: Option<AvromaticValue>)
    ensures
        resolved(r) == match whole_number(value) {
            Some(n) => if crate::varint::fits_int(n) {
                Some(ValueView::Long(n))
            } else {
                None
            },
            None => None,
        },
{
    match whole_number_of(value) {
        Some(n) => {
            if crate::varint::is_int(n) {
                Some(AvromaticValue::Long(n))
            } else {
                None
            }
        },
        None => None,
    }
}

/// The bytes of a text.
pub fn text_bytes(text: &String) -> (r: Vec<u8>)
    ensures
        r@ == encode_utf8(text@),
{
    slice_to_vec(text.as_str().as_bytes())
}

/// Puts `value` under `name`: in the place of an attribute with that
/// name, at the end where there is none.
pub(crate) fn insert_attribute(
    attributes: &mut Vec<(String, AvromaticValue)>,
    name: String,
    value: AvromaticValue,
    Ghost(views): Ghost<Seq<(Seq<char>, ValueView)>>,
) -> (r: Ghost<Seq<(Seq<char>, ValueView)>>)
    requires
        views.len() == old(attributes).len(),
        forall|j: int|
            0 <= j < old(attributes).len() ==> views[j] == (
                (#[trigger] old(attributes)[j]).0@,
                old(attributes)[j].1@,
            ),
    ensures
        r@ == storage_insert(views, name@, value@, 0),
        names_unique(views) ==> names_unique(r@),
        r@.len() == final(attributes).len(),
        forall|j: int|
            0 <= j < final(attributes).len() ==> r@[j] == (
                (#[trigger] final(attributes)[j]).0@,
                final(attributes)[j].1@,
            ),
{
    proof {
        if names_unique(views) {
            storage_insert_keeps(views, name@, value@, 0);
        }
    }
    let mut i: usize = 0;
    while i < attributes.len()
        invariant
            i <= attributes.len(),
            *attributes == *old(attributes),
            names_unique(views) ==> names_unique(storage_insert(views, name@, value@, 0)),
            views.len() == attributes.len(),
            forall|j: int|
                0 <= j < attributes.len() ==> views[j] == (
                    (#[trigger] attributes[j]).0@,
                    attributes[j].1@,
                ),
            storage_insert(views, name@, value@, 0) == storage_insert(
                views,
                name@,
                value@,
                i as nat,
            ),
        decreases attributes.len() - i,
    {
        if attributes[i].0 == name {
            let ghost replaced = views.update(i as int, (name@, value@));
            attributes.set(i, (name, value));
            return Ghost(replaced);
        }
        i += 1;
    }
    let ghost pushed = views.push((name@, value@));
    attributes.push((name, value));
    Ghost(pushed)
}

/// The index that a union's reference map gives for `name`.
pub fn find_reference(refs: &Vec<(String, usize)>, name: &String) -> (r: Option<usize>)
    ensures
        r == reference_index(
            Seq::new(refs.len() as nat, |i: int| (refs[i].0@, refs[i].1)),
            name@,
            refs.len() as nat,
        ),
{
    let ghost views = Seq::new(refs.len() as nat, |i: int| (refs[i].0@, refs[i].1));
    let mut i: usize = refs.len();
    while i > 0
        invariant
            i <= refs.len(),
            views == Seq::new(refs.len() as nat, |i: int| (refs[i].0@, refs[i].1)),
            reference_index(views, name@, refs.len() as nat) == reference_index(
                views,
                name@,
                i as nat,
            ),
        decreases i,
    {
        if refs[i - 1].0 == *name {
            return Some(refs[i - 1].1);
        }
        i -= 1;
    }
    None
}

/// The index of the field with the name.
pub fn find_field(record: &RecordDescriptor, name: &String) -> (r: Option<usize>)
    ensures
        match r {
            Some(index) => field_position(record@, name@, 0) == Some(index as nat) && index
                < record.attributes.len(),
            None => field_position(record@, name@, 0) is None,
        },
{
    let mut i: usize = 0;
    while i < record.attributes.len()
        invariant
            i <= record.attributes.len(),
            record@.len() == record.attributes.len(),
            field_position(record@, name@, 0) == field_position(record@, name@, i as nat),
        decreases record.attributes.len() - i,
    {
        assert(record@[i as int].0 == record.attributes[i as int].0@);
        if record.attributes[i].0 == *name {
            return Some(i);
        }
        i += 1;
    }
    None
}

/// A custom value from the host form of a resolved literal: what the
/// `from_avro` hook makes of it.
pub fn custom_attribute<H: CustomTypeHooks>(
    raw: Option<HostValue>,
    custom: &CustomTypeConfiguration,
    hooks: &H,
) -> (r: Option<AvromaticValue>)
    ensures
        raw is None ==> r is None,
        r matches Some(value) ==> value is Custom,
        match raw {
            Some(host) => !custom.deserialize_applies(&host) ==> (r matches Some(value) && value@
                == ValueView::Custom(Box::new(host@))),
            None => true,
        },
{
    match raw {
        None => None,
        Some(host) => match custom.deserialize(&host, hooks) {
            None => None,
            Some(wrapped) => Some(AvromaticValue::Custom(Box::new(wrapped))),
        },
    }
}

impl TypeDescriptor {
    /// Resolves a literal without inner values.
    pub(crate) fn scalar_attribute(&self, value: &AvroValue) -> (r: Option<AvromaticValue>)
        requires
            self.is_scalar(),
        ensures
            resolved(r) == attribute_scalar_spec(self@, value),
    {
        match self {
            TypeDescriptor::Null => Some(AvromaticValue::Null),
            TypeDescriptor::Boolean => match value {
                AvroValue::Boolean(b) => Some(
                    if *b {
                        AvromaticValue::True
                    } else {
                        AvromaticValue::False
                    },
                ),
                _ => None,
            },
            TypeDescriptor::Bytes => match value {
                AvroValue::Bytes(bytes) => Some(
                    AvromaticValue::String(crate::values::clone_bytes(bytes)),
                ),
                AvroValue::String(text) => Some(AvromaticValue::String(text_bytes(text))),
                _ => None,
            },
            TypeDescriptor::Fixed(size) => match value {
                AvroValue::Fixed(_, bytes) => Some(
                    AvromaticValue::String(crate::values::clone_bytes(bytes)),
                ),
                AvroValue::String(text) => {
                    let bytes = text_bytes(text);
                    if bytes.len() == *size {
                        Some(AvromaticValue::String(bytes))
                    } else {
                        None
                    }
                },
                _ => None,
            },
            TypeDescriptor::Enum(_) => match value {
                AvroValue::Enum(_, text) => Some(AvromaticValue::String(text_bytes(text))),
                AvroValue::String(text) => Some(AvromaticValue::String(text_bytes(text))),
                _ => None,
            },
            TypeDescriptor::String => match value {
                AvroValue::String(text) => Some(AvromaticValue::String(text_bytes(text))),
                _ => None,
            },
            TypeDescriptor::Int => int_literal(value),
            TypeDescriptor::Date => match value {
                AvroValue::Date(n) => Some(AvromaticValue::Long(*n as i64)),
                _ => int_literal(value),
            },
            TypeDescriptor::Long => long_literal(value),
            TypeDescriptor::TimestampMicros => match value {
                AvroValue::TimestampMicros(n) => Some(AvromaticValue::Long(*n)),
                _ => long_literal(value),
            },
            TypeDescriptor::TimestampMillis => match value {
                AvroValue::TimestampMillis(n) => Some(AvromaticValue::Long(*n)),
                _ => long_literal(value),
            },
            TypeDescriptor::Float => match value {
                AvroValue::Float(bits) => Some(AvromaticValue::Float(*bits)),
                AvroValue::Number(HostNumber { as_single: Some(bits), .. }) => Some(
                    AvromaticValue::Float(*bits),
                ),
                _ => None,
            },
            TypeDescriptor::Double => match value {
                AvroValue::Double(bits) => Some(AvromaticValue::Double(*bits)),
                AvroValue::Number(HostNumber { as_double: Some(bits), .. }) => Some(
                    AvromaticValue::Double(*bits),
                ),
                _ => None,
            },
            _ => None,
        }
    }

    /// Resolves a schema literal into an intermediate value.
    ///
    /// Where no custom type of the tree has a hook the result is exactly
    /// what `attribute_spec` states. Where one has, its hooks decide.
    pub fn avro_to_attribute<H: CustomTypeHooks>(
        &self,
        value: &AvroValue,
        registry: &ModelRegistry,
        hooks: &H,
    ) -> (r: Option<AvromaticValue>)
        ensures
            self@.settled(registry@) ==> resolved(r)
                == attribute_spec(self@, value, registry@, registry@.len()),
            self.is_scalar() ==> resolved(r) == attribute_spec(
                self@,
                value,
                registry@,
                registry@.len(),
            ),
    {
        self.attribute_below(value, registry, hooks, registry.models.len())
    }

    /// As `avro_to_attribute`, following record handles only below
    /// `level`.
    pub(crate) fn attribute_below<H: CustomTypeHooks>(
        &self,
        value: &AvroValue,
        registry: &ModelRegistry,
        hooks: &H,
        level: usize,
    ) -> (r: Option<AvromaticValue>)
        requires
            level <= registry@.len(),
        ensures
            self@.settled(registry@) ==> resolved(r)
                == attribute_spec(self@, value, registry@, level as nat),
            self.is_scalar() ==> resolved(r) == attribute_spec(self@, value, registry@, level as nat),
        decreases level, 1nat, self, 0nat,
    {
        let ghost plain = self@.settled(registry@);
        match self {
            TypeDescriptor::Array(inner) => match value {
                AvroValue::Array(items) => {
                    let ghost whole = attribute_items(
                        inner@,
                        items@,
                        0,
                        Seq::empty(),
                        registry@,
                        level as nat,
                    );
                    let ghost mut acc: Seq<ValueView> = Seq::empty();
                    let mut out: Vec<AvromaticValue> = Vec::new();
                    let mut i: usize = 0;
                    while i < items.len()
                        invariant
                            level <= registry@.len(),
                            self is Array,
                            self->Array_0 == *inner,
                            plain == (self@.settled(registry@)),
                            plain ==> inner@.settled(registry@),
                            *value == AvroValue::Array(*items),
                            whole == attribute_items(
                                inner@,
                                items@,
                                0,
                                Seq::empty(),
                                registry@,
                                level as nat,
                            ),
                            i <= items.len(),
                            acc.len() == out.len(),
                            forall|j: int| 0 <= j < out.len() ==> acc[j] == (#[trigger] out[j])@,
                            plain ==> whole == attribute_items(
                                inner@,
                                items@,
                                i as nat,
                                acc,
                                registry@,
                                level as nat,
                            ),
                        decreases items.len() - i,
                    {
                        match inner.attribute_below(&items[i], registry, hooks, level) {
                            None => {
                                return None;
                            },
                            Some(item) => {
                                proof {
                                    acc = acc.push(item@);
                                }
                                out.push(item);
                            },
                        }
                        i += 1;
                    }
                    let r = AvromaticValue::Array(out);
                    assert(r@->Array_0 =~= acc);
                    Some(r)
                },
                _ => None,
            },
            TypeDescriptor::Mapping(inner) => match value {
                AvroValue::Mapping(entries) | AvroValue::Record(entries) => {
                    let ghost whole = attribute_entries(
                        inner@,
                        entries@,
                        0,
                        Seq::empty(),
                        registry@,
                        level as nat,
                    );
                    let ghost mut acc: Seq<(Seq<u8>, ValueView)> = Seq::empty();
                    let mut out: Vec<(Vec<u8>, AvromaticValue)> = Vec::new();
                    let mut i: usize = 0;
                    while i < entries.len()
                        invariant
                            level <= registry@.len(),
                            self is Mapping,
                            self->Mapping_0 == *inner,
                            plain == (self@.settled(registry@)),
                            plain ==> inner@.settled(registry@),
                            *value == AvroValue::Mapping(*entries) || *value == AvroValue::Record(
                                *entries,
                            ),
                            whole == attribute_entries(
                                inner@,
                                entries@,
                                0,
                                Seq::empty(),
                                registry@,
                                level as nat,
                            ),
                            i <= entries.len(),
                            acc.len() == out.len(),
                            forall|j: int|
                                0 <= j < out.len() ==> acc[j] == ((#[trigger] out[j]).0@, out[j].1@),
                            plain ==> whole == attribute_entries(
                                inner@,
                                entries@,
                                i as nat,
                                acc,
                                registry@,
                                level as nat,
                            ),
                        decreases entries.len() - i,
                    {
                        match inner.attribute_below(&entries[i].1, registry, hooks, level) {
                            None => {
                                return None;
                            },
                            Some(item) => {
                                let key = text_bytes(&entries[i].0);
                                let updated = insert_entry(&mut out, key, item, Ghost(acc));
                                proof {
                                    acc = updated@;
                                }
                            },
                        }
                        i += 1;
                    }
                    let r = AvromaticValue::Mapping(out);
                    assert(r@->Mapping_0 =~= acc);
                    Some(r)
                },
                _ => None,
            },
            TypeDescriptor::Union(refs, variants) => {
                assert(decreases_to!(self => self->Union_1));
                assert(self@->Union_1 =~= Seq::new(variants.len() as nat, |i: int| variants[i]@));
                assert(self@->Union_0 =~= Seq::new(
                    refs.len() as nat,
                    |i: int| (refs[i].0@, refs[i].1),
                ));
                assert(self@.settled(registry@) ==> forall|i: int|
    0 <= i < variants.len() ==> (#[trigger] variants[i])@.settled(registry@)) by {
    if self@.settled(registry@) {
        assert forall|i: int| 0 <= i < variants.len() implies (
        #[trigger] variants[i])@.settled(registry@) by {
            assert(self@->Union_1[i].hook_free());
            assert(self@.record_free() ==> self@->Union_1[i].record_free());
        }
    }
}
                match value {
                    AvroValue::Union(reference, inner) => match find_reference(refs, reference) {
                        Some(index) => {
                            if index < variants.len() {
                                match variants[index].attribute_below(
                                    inner,
                                    registry,
                                    hooks,
                                    level,
                                ) {
                                    Some(resolved) => Some(
                                        AvromaticValue::Union(index, Box::new(resolved)),
                                    ),
                                    None => None,
                                }
                            } else {
                                None
                            }
                        },
                        None => None,
                    },
                    _ => {
                        let ghost views = Seq::new(variants.len() as nat, |i: int| variants[i]@);
                        let mut i: usize = 0;
                        while i < variants.len()
                            invariant
                                level <= registry@.len(),
                                self is Union,
                                self->Union_1 == *variants,
                                plain == (self@.settled(registry@)),
                                plain ==> forall|i: int|
                                    0 <= i < variants.len() ==> (
                                    #[trigger] variants[i])@.settled(registry@),
                                views == Seq::new(variants.len() as nat, |i: int| variants[i]@),
                                self@->Union_1 == views,
                                !(value is Union),
                                i <= variants.len(),
                                plain ==> attribute_first_variant(views, 0, value, registry@, level as nat)
                                    == attribute_first_variant(
                                    views,
                                    i as nat,
                                    value,
                                    registry@,
                                    level as nat,
                                ),
                            decreases variants.len() - i,
                        {
                            assert(decreases_to!(self->Union_1 => variants[i as int]));
                            match variants[i].attribute_below(value, registry, hooks, level) {
                                Some(resolved) => {
                                    return Some(resolved);
                                },
                                None => {},
                            }
                            i += 1;
                        }
                        None
                    },
                }
            },
            TypeDescriptor::Record(handle) => match value {
                AvroValue::Record(fields) => {
                    if *handle < level {
                        let model = &registry.models[*handle];
                        assert(registry@[*handle as int] == model@);
                        match record_attributes(
                            &model.descriptor,
                            fields,
                            registry,
                            hooks,
                            *handle,
                        ) {
                            Some(storage) => Some(AvromaticValue::Record(storage)),
                            None => None,
                        }
                    } else {
                        None
                    }
                },
                _ => None,
            },
            TypeDescriptor::Custom(custom, inner) => match inner.attribute_below(
                value,
                registry,
                hooks,
                level,
            ) {
                None => None,
                Some(raw) => custom_attribute(inner.to_ruby(&raw), custom, hooks),
            },
            _ => self.scalar_attribute(value),
        }
    }
}

/// The storage of a literal record: each field resolved under the model's
/// field of its name.
pub(crate) fn record_attributes<H: CustomTypeHooks>(
    record: &RecordDescriptor,
    fields: &Vec<(String, AvroValue)>,
    registry: &ModelRegistry,
    hooks: &H,
    level: usize,
) -> (r: Option<ModelStorage>)
    requires
        level <= registry@.len(),
    ensures
        record_settled(record@, registry@) ==> match r {
            Some(storage) => attribute_fields(
                record@,
                fields@,
                0,
                Seq::empty(),
                registry@,
                level as nat,
            ) == Some(storage@),
            None => attribute_fields(record@, fields@, 0, Seq::empty(), registry@, level as nat) is None,
        },
    decreases level + 1, 0nat, record, 0nat,
{
    let ghost plain = record_settled(record@, registry@);
    let ghost whole = attribute_fields(record@, fields@, 0, Seq::empty(), registry@, level as nat);
    let ghost mut acc: Seq<(Seq<char>, ValueView)> = Seq::empty();
    let mut attributes: Vec<(String, AvromaticValue)> = Vec::new();
    let mut i: usize = 0;
    while i < fields.len()
        invariant
            level <= registry@.len(),
            plain == (record_settled(record@, registry@)),
            whole == attribute_fields(record@, fields@, 0, Seq::empty(), registry@, level as nat),
            i <= fields.len(),
            record@.len() == record.attributes.len(),
            acc.len() == attributes.len(),
            forall|j: int|
                0 <= j < attributes.len() ==> acc[j] == ((#[trigger] attributes[j]).0@, attributes[j].1@),
            plain ==> whole == attribute_fields(record@, fields@, i as nat, acc, registry@, level as nat),
        decreases fields.len() - i,
    {
        let index = match find_field(record, &fields[i].0) {
            None => {
                return None;
            },
            Some(index) => index,
        };
        let field = &record.attributes[index];
        assert(record@[index as int] == (field.0@, field.1@));
        match field.1.type_descriptor.attribute_below(&fields[i].1, registry, hooks, level) {
            None => {
                return None;
            },
            Some(value) => {
                let updated = insert_attribute(
                    &mut attributes,
                    fields[i].0.clone(),
                    value,
                    Ghost(acc),
                );
                proof {
                    acc = updated@;
                }
            },
        }
        i += 1;
    }
    let storage = ModelStorage { attributes };
    assert(storage@ =~= acc);
    Some(storage)
}

} // verus!
