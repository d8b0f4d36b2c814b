//! The invariant of intermediate values, kept by what makes them: a map
//! holds no key twice and a record no name twice, in values that are read
//! from bytes, coerced from host values, resolved from literals, and
//! resolved from what another schema wrote.
//!
//! A record takes its names from its model, so the models of the
//! registry must hold no field name twice; a record may take a default of
//! its model or the storage of a host instance, so those must be well
//! formed themselves. Building keeps a registry so.

use crate::codec::{
    attribute_value,
    decode_blocks,
    decode_entries,
    decode_entry_blocks,
    decode_fields,
    decode_items,
    decode_spec,
    entries_insert,
    entries_insert_keeps,
};
use crate::coercion::{
    coerce_entries,
    coerce_fields,
    coerce_first_variant,
    coerce_items,
    coerce_spec,
    data_value,
};
use crate::builder::{
    build_fields,
    build_spec,
    build_variants,
    fields_unique,
    null_misplaced,
    record_insert,
    record_insert_keeps,
};
use crate::descriptors::{
    AttributeView,
    CustomView,
    DescriptorView,
    ModelView,
    RecordView,
    RegistryView,
};
use crate::literal::{
    attribute_entries,
    attribute_fields,
    attribute_first_variant,
    attribute_items,
    attribute_spec,
    field_position,
    reference_index,
    storage_insert,
    storage_insert_keeps,
};
use crate::model_pool::{lookup_spec, registry_key_spec};
use crate::resolution::{
    resolve_entries,
    resolve_fields,
    resolve_first_variant,
    resolve_items,
    resolve_spec,
};
use crate::schema::{AvroValue, SchemaField, SchemaKind, SchemaNode};
use crate::values::{HostView, ValueView};
use vstd::prelude::*;

verus! {

/// Whether a record holds no field name twice and only well-formed
/// defaults.
pub open spec fn record_sound(record: RecordView) -> bool {
    &&& fields_unique(record)
    &&& forall|i: int|
        0 <= i < record.len() ==> ((#[trigger] record[i]).1.default matches Some(value)
            ==> value.well_formed())
}

/// Whether every model of the registry is sound.
pub open spec fn registry_sound(reg: RegistryView) -> bool {
    forall|h: int| 0 <= h < reg.len() ==> record_sound((#[trigger] reg[h]).record)
}

/// Whether the storages of the model instances in a host value are well
/// formed.
pub open spec fn host_sound(host: HostView) -> bool
    decreases host,
{
    match host {
        HostView::Array(items) => forall|i: int|
            0 <= i < items.len() ==> host_sound(#[trigger] items[i]),
        HostView::Mapping(entries) => forall|i: int|
            0 <= i < entries.len() ==> host_sound((#[trigger] entries[i]).1),
        HostView::Model(_, storage) => ValueView::Record(storage).well_formed(),
        _ => true,
    }
}

/// Whether the first `count` attributes are those of the first `count`
/// fields, by name, and well formed.
pub open spec fn follows(
    acc: Seq<(Seq<char>, ValueView)>,
    record: RecordView,
    count: nat,
) -> bool {
    &&& acc.len() == count
    &&& count <= record.len()
    &&& forall|i: int|
        0 <= i < count ==> (#[trigger] acc[i]).0 == record[i].0 && acc[i].1.well_formed()
}

proof fn follows_is_well_formed(acc: Seq<(Seq<char>, ValueView)>, record: RecordView)
    requires
        record_sound(record),
        follows(acc, record, acc.len()),
    ensures
        ValueView::Record(acc).well_formed(),
{
    assert forall|i: int, j: int| 0 <= i < j < acc.len() implies (#[trigger] acc[i]).0 != (
    #[trigger] acc[j]).0 by {
        assert(record[i].0 != record[j].0);
    }
}

/// What is read from bytes is well formed, where the models are sound.
pub proof fn decoded_is_well_formed(
    d: DescriptorView,
    bytes: Seq<u8>,
    pos: int,
    reg: RegistryView,
    level: nat,
)
    requires
        registry_sound(reg),
    ensures
        decode_spec(d, bytes, pos, reg, level) matches Ok((value, _)) ==> value.well_formed(),
    decreases level, 1nat, d, 0nat, 0nat,
{
    match d {
        DescriptorView::Array(inner) => {
            blocks_well_formed(*inner, bytes, pos, Seq::empty(), reg, level);
        },
        DescriptorView::Mapping(inner) => {
            entry_blocks_well_formed(*inner, bytes, pos, Seq::empty(), reg, level);
        },
        DescriptorView::Union(_, variants) => {
            match crate::varint::long_at(bytes, pos) {
                Ok((index, start)) => {
                    if 0 <= index < variants.len() {
                        decoded_is_well_formed(variants[index as int], bytes, start, reg, level);
                    }
                },
                Err(_) => {},
            }
        },
        DescriptorView::Record(handle) => {
            if handle < level && handle < reg.len() {
                let record = reg[handle as int].record;
                fields_well_formed(record, 0, bytes, pos, Seq::empty(), reg, handle as nat);
                match decode_fields(record, 0, bytes, pos, Seq::empty(), reg, handle as nat) {
                    Ok((storage, _)) => {
                        follows_is_well_formed(storage, record);
                    },
                    Err(_) => {},
                }
            }
        },
        _ => {},
    }
}

proof fn blocks_well_formed(
    inner: DescriptorView,
    bytes: Seq<u8>,
    pos: int,
    acc: Seq<ValueView>,
    reg: RegistryView,
    level: nat,
)
    requires
        registry_sound(reg),
        forall|i: int| 0 <= i < acc.len() ==> (#[trigger] acc[i]).well_formed(),
    ensures
        decode_blocks(inner, bytes, pos, acc, reg, level) matches Ok((items, _)) ==> forall|i: int|
            0 <= i < items.len() ==> (#[trigger] items[i]).well_formed(),
    decreases level, 1nat, inner, 2 + bytes.len() - pos, 0nat,
{
    match crate::varint::len_at(bytes, pos) {
        Err(_) => {},
        Ok((count, start)) => {
            if count != 0 {
                items_well_formed(inner, bytes, start, count as nat, acc, reg, level);
                match decode_items(inner, bytes, start, count as nat, acc, reg, level) {
                    Err(_) => {},
                    Ok((items, end)) => {
                        if pos < end <= bytes.len() {
                            blocks_well_formed(inner, bytes, end, items, reg, level);
                        }
                    },
                }
            }
        },
    }
}

proof fn items_well_formed(
    inner: DescriptorView,
    bytes: Seq<u8>,
    pos: int,
    count: nat,
    acc: Seq<ValueView>,
    reg: RegistryView,
    level: nat,
)
    requires
        registry_sound(reg),
        forall|i: int| 0 <= i < acc.len() ==> (#[trigger] acc[i]).well_formed(),
    ensures
        decode_items(inner, bytes, pos, count, acc, reg, level) matches Ok((items, _))
            ==> forall|i: int| 0 <= i < items.len() ==> (#[trigger] items[i]).well_formed(),
    decreases level, 1nat, inner, 1nat, count,
{
    if count != 0 {
        decoded_is_well_formed(inner, bytes, pos, reg, level);
        match decode_spec(inner, bytes, pos, reg, level) {
            Err(_) => {},
            Ok((item, next)) => {
                let more = acc.push(item);
                assert forall|i: int| 0 <= i < more.len() implies (#[trigger] more[i]).well_formed() by {
                    if i < acc.len() {
                        assert(more[i] == acc[i]);
                    }
                }
                items_well_formed(inner, bytes, next, (count - 1) as nat, more, reg, level);
            },
        }
    }
}

proof fn entry_blocks_well_formed(
    inner: DescriptorView,
    bytes: Seq<u8>,
    pos: int,
    acc: Seq<(Seq<u8>, ValueView)>,
    reg: RegistryView,
    level: nat,
)
    requires
        registry_sound(reg),
        ValueView::Mapping(acc).well_formed(),
    ensures
        decode_entry_blocks(inner, bytes, pos, acc, reg, level) matches Ok((entries, _))
            ==> ValueView::Mapping(entries).well_formed(),
    decreases level, 1nat, inner, 2 + bytes.len() - pos, 0nat,
{
    match crate::varint::len_at(bytes, pos) {
        Err(_) => {},
        Ok((count, start)) => {
            if count != 0 {
                entries_well_formed(inner, bytes, start, count as nat, acc, reg, level);
                match decode_entries(inner, bytes, start, count as nat, acc, reg, level) {
                    Err(_) => {},
                    Ok((entries, end)) => {
                        if pos < end <= bytes.len() {
                            entry_blocks_well_formed(inner, bytes, end, entries, reg, level);
                        }
                    },
                }
            }
        },
    }
}

proof fn entries_well_formed(
    inner: DescriptorView,
    bytes: Seq<u8>,
    pos: int,
    count: nat,
    acc: Seq<(Seq<u8>, ValueView)>,
    reg: RegistryView,
    level: nat,
)
    requires
        registry_sound(reg),
        ValueView::Mapping(acc).well_formed(),
    ensures
        decode_entries(inner, bytes, pos, count, acc, reg, level) matches Ok((entries, _))
            ==> ValueView::Mapping(entries).well_formed(),
    decreases level, 1nat, inner, 1nat, count,
{
    if count != 0 {
        match crate::codec::text_at(bytes, pos) {
            Err(_) => {},
            Ok((key, start)) => {
                decoded_is_well_formed(inner, bytes, start, reg, level);
                match decode_spec(inner, bytes, start, reg, level) {
                    Err(_) => {},
                    Ok((value, next)) => {
                        entries_insert_keeps(acc, key, value, 0);
                        entries_well_formed(
                            inner,
                            bytes,
                            next,
                            (count - 1) as nat,
                            entries_insert(acc, key, value, 0),
                            reg,
                            level,
                        );
                    },
                }
            },
        }
    }
}

proof fn fields_well_formed(
    record: RecordView,
    from: nat,
    bytes: Seq<u8>,
    pos: int,
    acc: Seq<(Seq<char>, ValueView)>,
    reg: RegistryView,
    level: nat,
)
    requires
        registry_sound(reg),
        follows(acc, record, from),
    ensures
        decode_fields(record, from, bytes, pos, acc, reg, level) matches Ok((storage, _))
            ==> follows(storage, record, storage.len()),
    decreases level + 1, 0nat, record, record.len() - from,
{
    if from < record.len() {
        decoded_is_well_formed(record[from as int].1.type_descriptor, bytes, pos, reg, level);
        match decode_spec(record[from as int].1.type_descriptor, bytes, pos, reg, level) {
            Err(_) => {},
            Ok((value, next)) => {
                let more = acc.push((record[from as int].0, value));
                assert forall|i: int| 0 <= i < from + 1 implies (#[trigger] more[i]).0
                    == record[i].0 && more[i].1.well_formed() by {
                    if i < from {
                        assert(more[i] == acc[i]);
                    }
                }
                fields_well_formed(record, from + 1, bytes, next, more, reg, level);
            },
        }
    }
}

/// What is coerced from a host value is well formed, where the models and
/// the host value are sound.
pub proof fn coerced_is_well_formed(d: DescriptorView, host: HostView, reg: RegistryView, level: nat)
    requires
        registry_sound(reg),
        host_sound(host),
    ensures
        coerce_spec(d, host, reg, level) matches Ok(value) ==> value.well_formed(),
    decreases level, 1nat, d, 0nat,
{
    if !(host is Nil) {
        match d {
            DescriptorView::Array(inner) => {
                if let HostView::Array(items) = host {
                    coerced_items_well_formed(*inner, items, 0, Seq::empty(), reg, level);
                }
            },
            DescriptorView::Mapping(inner) => {
                if let HostView::Mapping(data) = host {
                    coerced_entries_well_formed(*inner, data, 0, Seq::empty(), reg, level);
                }
            },
            DescriptorView::Union(_, variants) => {
                coerced_variant_well_formed(variants, 0, host, reg, level);
            },
            DescriptorView::Record(handle) => {
                if handle < level && handle < reg.len() {
                    if let HostView::Mapping(data) = host {
                        let record = reg[handle as int].record;
                        coerced_fields_well_formed(record, 0, data, Seq::empty(), reg, handle as nat);
                        match coerce_fields(record, 0, data, Seq::empty(), reg, handle as nat) {
                            Ok(storage) => {
                                follows_is_well_formed(storage, record);
                            },
                            Err(_) => {},
                        }
                    }
                }
            },
            _ => {},
        }
    }
}

proof fn coerced_items_well_formed(
    inner: DescriptorView,
    items: Seq<HostView>,
    from: nat,
    acc: Seq<ValueView>,
    reg: RegistryView,
    level: nat,
)
    requires
        registry_sound(reg),
        forall|i: int| 0 <= i < items.len() ==> host_sound(#[trigger] items[i]),
        forall|i: int| 0 <= i < acc.len() ==> (#[trigger] acc[i]).well_formed(),
    ensures
        coerce_items(inner, items, from, acc, reg, level) matches Ok(values) ==> forall|i: int|
            0 <= i < values.len() ==> (#[trigger] values[i]).well_formed(),
    decreases level, 1nat, inner, items.len() - from + 1,
{
    if from < items.len() {
        coerced_is_well_formed(inner, items[from as int], reg, level);
        match coerce_spec(inner, items[from as int], reg, level) {
            Err(_) => {},
            Ok(value) => {
                let more = acc.push(value);
                assert forall|i: int| 0 <= i < more.len() implies (#[trigger] more[i]).well_formed() by {
                    if i < acc.len() {
                        assert(more[i] == acc[i]);
                    }
                }
                coerced_items_well_formed(inner, items, from + 1, more, reg, level);
            },
        }
    }
}

proof fn coerced_entries_well_formed(
    inner: DescriptorView,
    data: Seq<(HostView, HostView)>,
    from: nat,
    acc: Seq<(Seq<u8>, ValueView)>,
    reg: RegistryView,
    level: nat,
)
    requires
        registry_sound(reg),
        forall|i: int| 0 <= i < data.len() ==> host_sound((#[trigger] data[i]).1),
        ValueView::Mapping(acc).well_formed(),
    ensures
        coerce_entries(inner, data, from, acc, reg, level) matches Ok(entries)
            ==> ValueView::Mapping(entries).well_formed(),
    decreases level, 1nat, inner, data.len() - from + 1,
{
    if from < data.len() {
        match crate::coercion::text_of(data[from as int].0) {
            None => {},
            Some(key) => {
                coerced_is_well_formed(inner, data[from as int].1, reg, level);
                match coerce_spec(inner, data[from as int].1, reg, level) {
                    Err(_) => {},
                    Ok(value) => {
                        entries_insert_keeps(acc, key, value, 0);
                        coerced_entries_well_formed(
                            inner,
                            data,
                            from + 1,
                            entries_insert(acc, key, value, 0),
                            reg,
                            level,
                        );
                    },
                }
            },
        }
    }
}

proof fn coerced_variant_well_formed(
    variants: Seq<DescriptorView>,
    from: nat,
    host: HostView,
    reg: RegistryView,
    level: nat,
)
    requires
        registry_sound(reg),
        host_sound(host),
    ensures
        coerce_first_variant(variants, from, host, reg, level) matches Ok(value)
            ==> value.well_formed(),
    decreases level, 1nat, variants, variants.len() - from + 1,
{
    if from < variants.len() {
        coerced_is_well_formed(variants[from as int], host, reg, level);
        if coerce_spec(variants[from as int], host, reg, level) is Err {
            coerced_variant_well_formed(variants, from + 1, host, reg, level);
        }
    }
}

proof fn given_is_sound(data: Seq<(HostView, HostView)>, name: Seq<char>, upto: nat)
    requires
        forall|i: int| 0 <= i < data.len() ==> host_sound((#[trigger] data[i]).1),
    ensures
        data_value(data, name, upto) matches Some(given) ==> host_sound(given),
    decreases upto,
{
    if !(upto == 0 || upto > data.len()) {
        if crate::coercion::text_of(data[upto - 1].0) != Some(vstd::utf8::encode_utf8(name)) {
            given_is_sound(data, name, (upto - 1) as nat);
        }
    }
}

proof fn coerced_fields_well_formed(
    record: RecordView,
    from: nat,
    data: Seq<(HostView, HostView)>,
    acc: Seq<(Seq<char>, ValueView)>,
    reg: RegistryView,
    level: nat,
)
    requires
        registry_sound(reg),
        record_sound(record),
        forall|i: int| 0 <= i < data.len() ==> host_sound((#[trigger] data[i]).1),
        follows(acc, record, from),
    ensures
        coerce_fields(record, from, data, acc, reg, level) matches Ok(storage) ==> follows(
            storage,
            record,
            storage.len(),
        ),
    decreases level + 1, 0nat, record, record.len() - from,
{
    if from < record.len() {
        let name = record[from as int].0;
        given_is_sound(data, name, data.len());
        match data_value(data, name, data.len()) {
            Some(given) => {
                coerced_is_well_formed(record[from as int].1.type_descriptor, given, reg, level);
                match coerce_spec(record[from as int].1.type_descriptor, given, reg, level) {
                    Err(_) => {},
                    Ok(value) => {
                        let more = acc.push((name, value));
                        assert forall|i: int| 0 <= i < from + 1 implies (#[trigger] more[i]).0
                            == record[i].0 && more[i].1.well_formed() by {
                            if i < from {
                                assert(more[i] == acc[i]);
                            }
                        }
                        coerced_fields_well_formed(record, from + 1, data, more, reg, level);
                    },
                }
            },
            None => {
                let value = match record[from as int].1.default {
                    Some(value) => value,
                    None => ValueView::Null,
                };
                let more = acc.push((name, value));
                assert forall|i: int| 0 <= i < from + 1 implies (#[trigger] more[i]).0
                    == record[i].0 && more[i].1.well_formed() by {
                    if i < from {
                        assert(more[i] == acc[i]);
                    }
                }
                coerced_fields_well_formed(record, from + 1, data, more, reg, level);
            },
        }
    }
}

/// What a literal resolves to is well formed.
pub proof fn attribute_is_well_formed(d: DescriptorView, value: &AvroValue, reg: RegistryView, level: nat)
    ensures
        attribute_spec(d, value, reg, level) matches Some(resolved) ==> resolved.well_formed(),
    decreases level, 1nat, d, 0nat,
{
    match d {
        DescriptorView::Array(inner) => {
            if let AvroValue::Array(items) = value {
                attribute_items_well_formed(*inner, items@, 0, Seq::empty(), reg, level);
            }
        },
        DescriptorView::Mapping(inner) => {
            match value {
                AvroValue::Mapping(entries) | AvroValue::Record(entries) => {
                    attribute_entries_well_formed(*inner, entries@, 0, Seq::empty(), reg, level);
                },
                _ => {},
            }
        },
        DescriptorView::Union(refs, variants) => {
            match value {
                AvroValue::Union(reference, inner) => {
                    match reference_index(refs, reference@, refs.len()) {
                        Some(index) => {
                            if index < variants.len() {
                                attribute_is_well_formed(
                                    variants[index as int],
                                    &**inner,
                                    reg,
                                    level,
                                );
                            }
                        },
                        None => {},
                    }
                },
                _ => {
                    attribute_variant_well_formed(variants, 0, value, reg, level);
                },
            }
        },
        DescriptorView::Record(handle) => {
            if let AvroValue::Record(fields) = value {
                if handle < level && handle < reg.len() {
                    attribute_fields_well_formed(
                        reg[handle as int].record,
                        fields@,
                        0,
                        Seq::empty(),
                        reg,
                        handle as nat,
                    );
                }
            }
        },
        _ => {},
    }
}

proof fn attribute_items_well_formed(
    inner: DescriptorView,
    items: Seq<AvroValue>,
    from: nat,
    acc: Seq<ValueView>,
    reg: RegistryView,
    level: nat,
)
    requires
        forall|i: int| 0 <= i < acc.len() ==> (#[trigger] acc[i]).well_formed(),
    ensures
        attribute_items(inner, items, from, acc, reg, level) matches Some(values) ==> forall|i: int|
            0 <= i < values.len() ==> (#[trigger] values[i]).well_formed(),
    decreases level, 1nat, inner, items.len() - from + 1,
{
    if from < items.len() {
        attribute_is_well_formed(inner, &items[from as int], reg, level);
        match attribute_spec(inner, &items[from as int], reg, level) {
            None => {},
            Some(value) => {
                let more = acc.push(value);
                assert forall|i: int| 0 <= i < more.len() implies (#[trigger] more[i]).well_formed() by {
                    if i < acc.len() {
                        assert(more[i] == acc[i]);
                    }
                }
                attribute_items_well_formed(inner, items, from + 1, more, reg, level);
            },
        }
    }
}

proof fn attribute_entries_well_formed(
    inner: DescriptorView,
    entries: Seq<(String, AvroValue)>,
    from: nat,
    acc: Seq<(Seq<u8>, ValueView)>,
    reg: RegistryView,
    level: nat,
)
    requires
        ValueView::Mapping(acc).well_formed(),
    ensures
        attribute_entries(inner, entries, from, acc, reg, level) matches Some(values)
            ==> ValueView::Mapping(values).well_formed(),
    decreases level, 1nat, inner, entries.len() - from + 1,
{
    if from < entries.len() {
        attribute_is_well_formed(inner, &entries[from as int].1, reg, level);
        match attribute_spec(inner, &entries[from as int].1, reg, level) {
            None => {},
            Some(value) => {
                let key = vstd::utf8::encode_utf8(entries[from as int].0@);
                entries_insert_keeps(acc, key, value, 0);
                attribute_entries_well_formed(
                    inner,
                    entries,
                    from + 1,
                    entries_insert(acc, key, value, 0),
                    reg,
                    level,
                );
            },
        }
    }
}

proof fn attribute_variant_well_formed(
    variants: Seq<DescriptorView>,
    from: nat,
    value: &AvroValue,
    reg: RegistryView,
    level: nat,
)
    ensures
        attribute_first_variant(variants, from, value, reg, level) matches Some(resolved)
            ==> resolved.well_formed(),
    decreases level, 1nat, variants, variants.len() - from + 1,
{
    if from < variants.len() {
        attribute_is_well_formed(variants[from as int], value, reg, level);
        if attribute_spec(variants[from as int], value, reg, level) is None {
            attribute_variant_well_formed(variants, from + 1, value, reg, level);
        }
    }
}

proof fn attribute_fields_well_formed(
    record: RecordView,
    fields: Seq<(String, AvroValue)>,
    from: nat,
    acc: Seq<(Seq<char>, ValueView)>,
    reg: RegistryView,
    level: nat,
)
    requires
        ValueView::Record(acc).well_formed(),
    ensures
        attribute_fields(record, fields, from, acc, reg, level) matches Some(storage)
            ==> ValueView::Record(storage).well_formed(),
    decreases level + 1, 0nat, record, fields.len() - from,
{
    if from < fields.len() {
        let name = fields[from as int].0@;
        match field_position(record, name, 0) {
            None => {},
            Some(index) => {
                if index < record.len() {
                    attribute_is_well_formed(
                        record[index as int].1.type_descriptor,
                        &fields[from as int].1,
                        reg,
                        level,
                    );
                    match attribute_spec(
                        record[index as int].1.type_descriptor,
                        &fields[from as int].1,
                        reg,
                        level,
                    ) {
                        None => {},
                        Some(value) => {
                            storage_insert_keeps(acc, name, value, 0);
                            attribute_fields_well_formed(
                                record,
                                fields,
                                from + 1,
                                storage_insert(acc, name, value, 0),
                                reg,
                                level,
                            );
                        },
                    }
                }
            },
        }
    }
}

proof fn stored_is_well_formed(storage: Seq<(Seq<char>, ValueView)>, name: Seq<char>, from: nat)
    requires
        forall|i: int| 0 <= i < storage.len() ==> (#[trigger] storage[i]).1.well_formed(),
    ensures
        attribute_value(storage, name, from).well_formed(),
    decreases storage.len() - from,
{
    if from < storage.len() && storage[from as int].0 != name {
        stored_is_well_formed(storage, name, from + 1);
    }
}

/// What a well-formed value resolves to under a reader's type is well
/// formed, where the reader's models are sound.
pub proof fn resolved_is_well_formed(
    w: DescriptorView,
    r: DescriptorView,
    v: ValueView,
    wreg: RegistryView,
    wlevel: nat,
    rreg: RegistryView,
    rlevel: nat,
)
    requires
        registry_sound(rreg),
        v.well_formed(),
    ensures
        resolve_spec(w, r, v, wreg, wlevel, rreg, rlevel) matches Some(resolved)
            ==> resolved.well_formed(),
    decreases wlevel, 1nat, w, r, 0nat,
{
    match r {
        DescriptorView::Custom(_, inner) => {},
        _ => match w {
            DescriptorView::Union(_, written) => {
                if let ValueView::Union(index, inner) = v {
                    if index < written.len() {
                        resolved_is_well_formed(
                            written[index as int],
                            r,
                            *inner,
                            wreg,
                            wlevel,
                            rreg,
                            rlevel,
                        );
                    }
                }
            },
            _ => match r {
                DescriptorView::Union(_, variants) => {
                    resolved_variant_well_formed(w, variants, 0, v, wreg, wlevel, rreg, rlevel);
                },
                _ => match w {
                    DescriptorView::Array(written) => {
                        if let (DescriptorView::Array(read), ValueView::Array(items)) = (r, v) {
                            resolved_items_well_formed(
                                *written,
                                *read,
                                items,
                                0,
                                Seq::empty(),
                                wreg,
                                wlevel,
                                rreg,
                                rlevel,
                            );
                        }
                    },
                    DescriptorView::Mapping(written) => {
                        if let (DescriptorView::Mapping(read), ValueView::Mapping(entries)) = (r, v) {
                            resolved_entries_well_formed(
                                *written,
                                *read,
                                entries,
                                0,
                                Seq::empty(),
                                wreg,
                                wlevel,
                                rreg,
                                rlevel,
                            );
                        }
                    },
                    DescriptorView::Record(written) => {
                        if let (DescriptorView::Record(read), ValueView::Record(storage)) = (r, v) {
                            if written < wlevel && written < wreg.len() && read < rlevel && read
                                < rreg.len() {
                                let record = rreg[read as int].record;
                                resolved_fields_well_formed(
                                    wreg[written as int].record,
                                    record,
                                    0,
                                    storage,
                                    Seq::empty(),
                                    wreg,
                                    written as nat,
                                    rreg,
                                    read as nat,
                                );
                                match resolve_fields(
                                    wreg[written as int].record,
                                    record,
                                    0,
                                    storage,
                                    Seq::empty(),
                                    wreg,
                                    written as nat,
                                    rreg,
                                    read as nat,
                                ) {
                                    Some(resolved) => {
                                        follows_is_well_formed(resolved, record);
                                    },
                                    None => {},
                                }
                            }
                        }
                    },
                    _ => {},
                },
            },
        },
    }
}

proof fn resolved_variant_well_formed(
    w: DescriptorView,
    variants: Seq<DescriptorView>,
    from: nat,
    v: ValueView,
    wreg: RegistryView,
    wlevel: nat,
    rreg: RegistryView,
    rlevel: nat,
)
    requires
        registry_sound(rreg),
        v.well_formed(),
    ensures
        resolve_first_variant(w, variants, from, v, wreg, wlevel, rreg, rlevel) matches Some(
            resolved,
        ) ==> resolved.well_formed(),
    decreases wlevel, 1nat, w, variants, variants.len() - from + 1,
{
    if from < variants.len() {
        resolved_is_well_formed(w, variants[from as int], v, wreg, wlevel, rreg, rlevel);
        if resolve_spec(w, variants[from as int], v, wreg, wlevel, rreg, rlevel) is None {
            resolved_variant_well_formed(w, variants, from + 1, v, wreg, wlevel, rreg, rlevel);
        }
    }
}

proof fn resolved_items_well_formed(
    w: DescriptorView,
    r: DescriptorView,
    items: Seq<ValueView>,
    from: nat,
    acc: Seq<ValueView>,
    wreg: RegistryView,
    wlevel: nat,
    rreg: RegistryView,
    rlevel: nat,
)
    requires
        registry_sound(rreg),
        forall|i: int| 0 <= i < items.len() ==> (#[trigger] items[i]).well_formed(),
        forall|i: int| 0 <= i < acc.len() ==> (#[trigger] acc[i]).well_formed(),
    ensures
        resolve_items(w, r, items, from, acc, wreg, wlevel, rreg, rlevel) matches Some(values)
            ==> forall|i: int| 0 <= i < values.len() ==> (#[trigger] values[i]).well_formed(),
    decreases wlevel, 1nat, w, r, items.len() - from + 1,
{
    if from < items.len() {
        resolved_is_well_formed(w, r, items[from as int], wreg, wlevel, rreg, rlevel);
        match resolve_spec(w, r, items[from as int], wreg, wlevel, rreg, rlevel) {
            None => {},
            Some(value) => {
                let more = acc.push(value);
                assert forall|i: int| 0 <= i < more.len() implies (#[trigger] more[i]).well_formed() by {
                    if i < acc.len() {
                        assert(more[i] == acc[i]);
                    }
                }
                resolved_items_well_formed(w, r, items, from + 1, more, wreg, wlevel, rreg, rlevel);
            },
        }
    }
}

proof fn resolved_entries_well_formed(
    w: DescriptorView,
    r: DescriptorView,
    entries: Seq<(Seq<u8>, ValueView)>,
    from: nat,
    acc: Seq<(Seq<u8>, ValueView)>,
    wreg: RegistryView,
    wlevel: nat,
    rreg: RegistryView,
    rlevel: nat,
)
    requires
        registry_sound(rreg),
        ValueView::Mapping(entries).well_formed(),
        acc.len() == from,
        from <= entries.len(),
        forall|i: int|
            0 <= i < from ==> (#[trigger] acc[i]).0 == entries[i].0 && acc[i].1.well_formed(),
    ensures
        resolve_entries(w, r, entries, from, acc, wreg, wlevel, rreg, rlevel) matches Some(values)
            ==> ValueView::Mapping(values).well_formed(),
    decreases wlevel, 1nat, w, r, entries.len() - from + 1,
{
    if from < entries.len() {
        resolved_is_well_formed(w, r, entries[from as int].1, wreg, wlevel, rreg, rlevel);
        match resolve_spec(w, r, entries[from as int].1, wreg, wlevel, rreg, rlevel) {
            None => {},
            Some(value) => {
                let more = acc.push((entries[from as int].0, value));
                assert forall|i: int| 0 <= i < from + 1 implies (#[trigger] more[i]).0
                    == entries[i].0 && more[i].1.well_formed() by {
                    if i < from {
                        assert(more[i] == acc[i]);
                    }
                }
                resolved_entries_well_formed(
                    w,
                    r,
                    entries,
                    from + 1,
                    more,
                    wreg,
                    wlevel,
                    rreg,
                    rlevel,
                );
            },
        }
    } else {
        assert forall|i: int, j: int| 0 <= i < j < acc.len() implies (#[trigger] acc[i]).0 != (
        #[trigger] acc[j]).0 by {
            assert(entries[i].0 != entries[j].0);
        }
    }
}

proof fn resolved_fields_well_formed(
    written: RecordView,
    read: RecordView,
    from: nat,
    storage: Seq<(Seq<char>, ValueView)>,
    acc: Seq<(Seq<char>, ValueView)>,
    wreg: RegistryView,
    wlevel: nat,
    rreg: RegistryView,
    rlevel: nat,
)
    requires
        registry_sound(rreg),
        record_sound(read),
        forall|i: int| 0 <= i < storage.len() ==> (#[trigger] storage[i]).1.well_formed(),
        follows(acc, read, from),
    ensures
        resolve_fields(written, read, from, storage, acc, wreg, wlevel, rreg, rlevel) matches Some(
            resolved,
        ) ==> follows(resolved, read, resolved.len()),
    decreases wlevel + 1, 0nat, written, read, read.len() - from,
{
    if from < read.len() {
        let name = read[from as int].0;
        let taken = match field_position(written, name, 0) {
            Some(index) => if index < written.len() {
                resolve_spec(
                    written[index as int].1.type_descriptor,
                    read[from as int].1.type_descriptor,
                    attribute_value(storage, name, 0),
                    wreg,
                    wlevel,
                    rreg,
                    rlevel,
                )
            } else {
                None
            },
            None => read[from as int].1.default,
        };
        match field_position(written, name, 0) {
            Some(index) => {
                if index < written.len() {
                    stored_is_well_formed(storage, name, 0);
                    resolved_is_well_formed(
                        written[index as int].1.type_descriptor,
                        read[from as int].1.type_descriptor,
                        attribute_value(storage, name, 0),
                        wreg,
                        wlevel,
                        rreg,
                        rlevel,
                    );
                }
            },
            None => {},
        }
        if let Some(value) = taken {
            let more = acc.push((name, value));
            assert forall|i: int| 0 <= i < from + 1 implies (#[trigger] more[i]).0 == read[i].0
                && more[i].1.well_formed() by {
                if i < from {
                    assert(more[i] == acc[i]);
                }
            }
            resolved_fields_well_formed(
                written,
                read,
                from + 1,
                storage,
                more,
                wreg,
                wlevel,
                rreg,
                rlevel,
            );
        }
    }
}

/// Building keeps the registry sound: every model that is registered on
/// the way holds no field name twice and only well-formed defaults.
pub proof fn build_keeps_sound(
    schema: &SchemaNode,
    reg: RegistryView,
    prefix: Option<Seq<char>>,
    customs: Seq<CustomView>,
)
    requires
        registry_sound(reg),
    ensures
        registry_sound(build_spec(schema, reg, prefix, customs).registry),
    decreases schema, 0nat,
{
    match schema.kind {
        SchemaKind::Array | SchemaKind::Mapping => {
            if let Some(children) = schema.children {
                if children.len() == 1 {
                    build_keeps_sound(&children[0], reg, prefix, customs);
                }
            }
        },
        SchemaKind::Union => {
            if let Some(variants) = schema.children {
                if !null_misplaced(&variants, 0) {
                    variants_keep_sound(&variants, 0, Seq::empty(), reg, prefix, customs);
                }
            }
        },
        SchemaKind::Record => {
            if let Some(name) = schema.fullname {
                let key = registry_key_spec(prefix, name@);
                if lookup_spec(reg, key, 0) is None {
                    if let Some(fields) = schema.fields {
                        fields_keep_sound(&fields, 0, Seq::empty(), reg, prefix, customs);
                        let built = build_fields(&fields, 0, Seq::empty(), reg, prefix, customs);
                        if let Ok(record) = built.result {
                            let model = ModelView {
                                key,
                                fingerprint: schema.fingerprint_spec(),
                                record,
                            };
                            let after = built.registry.push(model);
                            assert forall|h: int| 0 <= h < after.len() implies record_sound(
                                (#[trigger] after[h]).record,
                            ) by {
                                if h < built.registry.len() {
                                    assert(after[h] == built.registry[h]);
                                }
                            }
                        }
                    }
                }
            }
        },
        _ => {},
    }
}

proof fn variants_keep_sound(
    variants: &Vec<SchemaNode>,
    from: nat,
    acc: Seq<DescriptorView>,
    reg: RegistryView,
    prefix: Option<Seq<char>>,
    customs: Seq<CustomView>,
)
    requires
        registry_sound(reg),
    ensures
        registry_sound(build_variants(variants, from, acc, reg, prefix, customs).registry),
    decreases variants, variants.len() - from + 1,
{
    if from < variants.len() {
        build_keeps_sound(&variants[from as int], reg, prefix, customs);
        let built = build_spec(&variants[from as int], reg, prefix, customs);
        if let Ok(d) = built.result {
            variants_keep_sound(variants, from + 1, acc.push(d), built.registry, prefix, customs);
        }
    }
}

proof fn inserted_is_sound(record: RecordView, name: Seq<char>, attribute: AttributeView)
    requires
        record_sound(record),
        attribute.default matches Some(value) ==> value.well_formed(),
    ensures
        record_sound(record_insert(record, name, attribute, 0)),
{
    record_insert_keeps(record, name, attribute, 0);
    let after = record_insert(record, name, attribute, 0);
    assert(fields_unique(record));
    assert forall|i: int| 0 <= i < after.len() implies ((#[trigger] after[i]).1.default matches Some(
        value,
    ) ==> value.well_formed()) by {
        if after[i] != (name, attribute) {
            assert(after[i] == record[i]);
        }
    }
    assert(fields_unique(after));
}

proof fn fields_keep_sound(
    fields: &Vec<SchemaField>,
    from: nat,
    acc: RecordView,
    reg: RegistryView,
    prefix: Option<Seq<char>>,
    customs: Seq<CustomView>,
)
    requires
        registry_sound(reg),
        record_sound(acc),
    ensures
        registry_sound(build_fields(fields, from, acc, reg, prefix, customs).registry),
        build_fields(fields, from, acc, reg, prefix, customs).result matches Ok(record)
            ==> record_sound(record),
    decreases fields, fields.len() - from + 1,
{
    if from < fields.len() {
        let field = &fields[from as int];
        build_keeps_sound(&field.schema, reg, prefix, customs);
        let built = build_spec(&field.schema, reg, prefix, customs);
        if let Ok(d) = built.result {
            match field.default {
                None => {
                    let attribute = AttributeView { type_descriptor: d, default: None };
                    inserted_is_sound(acc, field.name@, attribute);
                    fields_keep_sound(
                        fields,
                        from + 1,
                        record_insert(acc, field.name@, attribute, 0),
                        built.registry,
                        prefix,
                        customs,
                    );
                },
                Some(literal) => {
                    attribute_is_well_formed(d, &literal, built.registry, built.registry.len());
                    if let Some(value) = attribute_spec(
                        d,
                        &literal,
                        built.registry,
                        built.registry.len(),
                    ) {
                        let attribute = AttributeView { type_descriptor: d, default: Some(value) };
                        inserted_is_sound(acc, field.name@, attribute);
                        fields_keep_sound(
                            fields,
                            from + 1,
                            record_insert(acc, field.name@, attribute, 0),
                            built.registry,
                            prefix,
                            customs,
                        );
                    }
                },
            }
        }
    }
}

} // verus!
