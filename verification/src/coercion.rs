//! The coercion engine: from loosely typed host values to intermediate
//! values, as a type descriptor directs.
//!
//! A host nil becomes `Null` under every descriptor. A union takes the
//! first variant, in declared order, under which the value coerces. A
//! record takes an instance of its model as it is, and builds a new
//! storage from a mapping.

use crate::codec::{entries_insert, symbol_position};
use crate::custom_types::CustomTypeHooks;
use crate::de::insert_entry;
use crate::descriptors::{
    record_settled,
    registry_hook_free,
    CustomTypeConfiguration,
    DescriptorView,
    RecordDescriptor,
    RecordView,
    RegistryView,
    TypeDescriptor,
};
use crate::errors::{bad_coercion_of, AvromaticError, HostKind, TypeName};
use crate::model_pool::ModelRegistry;
use crate::util::{div_toward_zero, scaled, RDateTime, RTime};
use crate::varint::{fits_int, is_int};
use crate::values::{
    bytes_equal,
    clone_bytes,
    AvromaticValue,
    HostNumber,
    HostValue,
    HostView,
    ModelStorage,
    ValueView,
};
use vstd::prelude::*;
use vstd::utf8::encode_utf8;

verus! {

/// The bytes of a string-like host value: a string or a symbol.
pub open spec fn text_of(host: HostView) -> Option<Seq<u8>> {
    match host {
        HostView::String(bytes) => Some(bytes),
        HostView::Symbol(bytes) => Some(bytes),
        _ => None,
    }
}

/// The value that a host mapping holds under `name`, among its first
/// `upto` entries: that of the last entry whose key spells the name.
pub open spec fn data_value(data: Seq<(HostView, HostView)>, name: Seq<char>, upto: nat) -> Option<
    HostView,
>
    decreases upto,
{
    if upto == 0 || upto > data.len() {
        None
    } else if text_of(data[upto - 1].0) == Some(encode_utf8(name)) {
        Some(data[upto - 1].1)
    } else {
        data_value(data, name, (upto - 1) as nat)
    }
}

/// The day count that a host value stands for: that of a date, the
/// whole days of a date-time or a time, or a bare number.
pub open spec fn day_count(host: HostView) -> Option<i64> {
    match host {
        HostView::Date(days) => Some(days),
        HostView::DateTime(seconds) => Some(div_toward_zero(seconds as int, 86400) as i64),
        HostView::Time(seconds, _) => Some(div_toward_zero(seconds as int, 86400) as i64),
        HostView::Number(HostNumber { as_integer: Some(n), .. }) => Some(n),
        _ => None,
    }
}

/// A date: a day count that fits 32 bits.
pub open spec fn coerce_date_spec(host: HostView) -> Result<ValueView, AvromaticError> {
    match day_count(host) {
        Some(days) => if fits_int(days) {
            Ok(ValueView::Long(days))
        } else {
            Err(bad_coercion_of(host, TypeName::Date))
        },
        None => Err(bad_coercion_of(host, TypeName::Date)),
    }
}

/// A timestamp in units of which a second has `per_second`: a bare
/// number, or the count for a date-time or a time. A pure date is none.
pub open spec fn coerce_timestamp_spec(host: HostView, per_second: i64, name: TypeName) -> Result<
    ValueView,
    AvromaticError,
> {
    let counted = match host {
        HostView::Number(HostNumber { as_integer: Some(n), .. }) => Some(n),
        HostView::DateTime(seconds) => scaled(seconds, per_second, 0),
        HostView::Time(seconds, micros) => scaled(
            seconds,
            per_second,
            div_toward_zero(micros as int, 1000000int / (per_second as int)) as i64,
        ),
        _ => None,
    };
    match counted {
        Some(n) => Ok(ValueView::Long(n)),
        None => Err(bad_coercion_of(host, name)),
    }
}

/// What a host value without inner values coerces to under a descriptor
/// without inner descriptors.
pub open spec fn coerce_scalar_spec(d: DescriptorView, host: HostView) -> Result<
    ValueView,
    AvromaticError,
> {
    match d {
        DescriptorView::Null => if host is Nil {
            Ok(ValueView::Null)
        } else {
            Err(bad_coercion_of(host, TypeName::Null))
        },
        DescriptorView::Boolean => match host {
            HostView::Boolean(b) => Ok(
                if b {
                    ValueView::True
                } else {
                    ValueView::False
                },
            ),
            _ => Err(bad_coercion_of(host, TypeName::Boolean)),
        },
        DescriptorView::String | DescriptorView::Bytes => match text_of(host) {
            Some(bytes) => Ok(ValueView::String(bytes)),
            None => Err(bad_coercion_of(host, TypeName::String)),
        },
        DescriptorView::Enum(symbols) => match text_of(host) {
            Some(bytes) => if symbol_position(symbols, bytes, 0) is Some {
                Ok(ValueView::String(bytes))
            } else {
                Err(bad_coercion_of(host, TypeName::Enum))
            },
            None => Err(bad_coercion_of(host, TypeName::Enum)),
        },
        DescriptorView::Fixed(size) => match host {
            HostView::String(bytes) => if bytes.len() == size {
                Ok(ValueView::String(bytes))
            } else {
                Err(bad_coercion_of(host, TypeName::Fixed(size)))
            },
            _ => Err(bad_coercion_of(host, TypeName::Fixed(size))),
        },
        DescriptorView::Int => match host {
            HostView::Number(HostNumber { integer: true, as_integer: Some(n), .. }) => if fits_int(
                n,
            ) {
                Ok(ValueView::Long(n))
            } else {
                Err(bad_coercion_of(host, TypeName::Integer))
            },
            _ => Err(bad_coercion_of(host, TypeName::Integer)),
        },
        DescriptorView::Long => match host {
            HostView::Number(HostNumber { integer: true, as_integer: Some(n), .. }) => Ok(
                ValueView::Long(n),
            ),
            _ => Err(bad_coercion_of(host, TypeName::Integer)),
        },
        DescriptorView::Float => match host {
            HostView::Number(HostNumber { as_single: Some(bits), .. }) => Ok(ValueView::Float(bits)),
            _ => Err(bad_coercion_of(host, TypeName::Float)),
        },
        DescriptorView::Double => match host {
            HostView::Number(HostNumber { as_double: Some(bits), .. }) => Ok(
                ValueView::Double(bits),
            ),
            _ => Err(bad_coercion_of(host, TypeName::Double)),
        },
        DescriptorView::Date => coerce_date_spec(host),
        DescriptorView::TimestampMillis => coerce_timestamp_spec(
            host,
            1000,
            TypeName::TimestampMillis,
        ),
        DescriptorView::TimestampMicros => coerce_timestamp_spec(
            host,
            1000000,
            TypeName::TimestampMicros,
        ),
        _ => Err(AvromaticError::CustomTypeFailed),
    }
}

/// What `host` coerces to under `d`, or the error. Record handles are
/// followed only below `level`.
///
/// A custom descriptor wraps the value as it is: that is what an
/// extension without hooks does. What a hook makes of a value this
/// function cannot say, and the engine meets it on trees whose custom
/// types have no hooks.
pub open spec fn coerce_spec(d: DescriptorView, host: HostView, reg: RegistryView, level: nat) -> Result<
    ValueView,
    AvromaticError,
>
    decreases level, 1nat, d, 0nat,
{
    if host is Nil {
        Ok(ValueView::Null)
    } else {
        match d {
            DescriptorView::Array(inner) => match host {
                HostView::Array(items) => match coerce_items(
                    *inner,
                    items,
                    0,
                    Seq::empty(),
                    reg,
                    level,
                ) {
                    Ok(values) => Ok(ValueView::Array(values)),
                    Err(e) => Err(e),
                },
                _ => Err(bad_coercion_of(host, TypeName::Array)),
            },
            DescriptorView::Mapping(inner) => match host {
                HostView::Mapping(data) => match coerce_entries(
                    *inner,
                    data,
                    0,
                    Seq::empty(),
                    reg,
                    level,
                ) {
                    Ok(entries) => Ok(ValueView::Mapping(entries)),
                    Err(e) => Err(e),
                },
                _ => Err(bad_coercion_of(host, TypeName::Mapping)),
            },
            DescriptorView::Union(_, variants) => coerce_first_variant(
                variants,
                0,
                host,
                reg,
                level,
            ),
            DescriptorView::Record(handle) => if handle < level && handle < reg.len() {
                match host {
                    HostView::Model(ancestors, storage) => if ancestors.contains(handle) {
                        Ok(ValueView::Record(storage))
                    } else {
                        Err(bad_coercion_of(host, TypeName::Record))
                    },
                    HostView::Mapping(data) => match coerce_fields(
                        reg[handle as int].record,
                        0,
                        data,
                        Seq::empty(),
                        reg,
                        handle as nat,
                    ) {
                        Ok(storage) => Ok(ValueView::Record(storage)),
                        Err(e) => Err(e),
                    },
                    _ => Err(bad_coercion_of(host, TypeName::Record)),
                }
            } else {
                Err(AvromaticError::UnknownModel)
            },
            DescriptorView::Custom(_, _) => Ok(ValueView::Custom(Box::new(host))),
            _ => coerce_scalar_spec(d, host),
        }
    }
}

/// The items from `from` on, coerced and put behind `acc`; the first
/// failure ends it.
pub open spec fn coerce_items(
    inner: DescriptorView,
    items: Seq<HostView>,
    from: nat,
    acc: Seq<ValueView>,
    reg: RegistryView,
    level: nat,
) -> Result<Seq<ValueView>, AvromaticError>
    decreases level, 1nat, inner, items.len() - from + 1,
{
    if from >= items.len() {
        Ok(acc)
    } else {
        match coerce_spec(inner, items[from as int], reg, level) {
            Err(e) => Err(e),
            Ok(value) => coerce_items(inner, items, from + 1, acc.push(value), reg, level),
        }
    }
}

/// The entries from `from` on: each key taken as a string, each value
/// coerced, and put into `acc`, a later entry in the place of an earlier
/// one with its key.
pub open spec fn coerce_entries(
    inner: DescriptorView,
    data: Seq<(HostView, HostView)>,
    from: nat,
    acc: Seq<(Seq<u8>, ValueView)>,
    reg: RegistryView,
    level: nat,
) -> Result<Seq<(Seq<u8>, ValueView)>, AvromaticError>
    decreases level, 1nat, inner, data.len() - from + 1,
{
    if from >= data.len() {
        Ok(acc)
    } else {
        match text_of(data[from as int].0) {
            None => Err(bad_coercion_of(data[from as int].0, TypeName::String)),
            Some(key) => match coerce_spec(inner, data[from as int].1, reg, level) {
                Err(e) => Err(e),
                Ok(value) => coerce_entries(
                    inner,
                    data,
                    from + 1,
                    entries_insert(acc, key, value, 0),
                    reg,
                    level,
                ),
            },
        }
    }
}

/// The first variant from `from` on under which `host` coerces, as the
/// tag of the result.
pub open spec fn coerce_first_variant(
    variants: Seq<DescriptorView>,
    from: nat,
    host: HostView,
    reg: RegistryView,
    level: nat,
) -> Result<ValueView, AvromaticError>
    decreases level, 1nat, variants, variants.len() - from + 1,
{
    if from >= variants.len() {
        Err(bad_coercion_of(host, TypeName::Union))
    } else {
        match coerce_spec(variants[from as int], host, reg, level) {
            Ok(value) => Ok(ValueView::Union(from, Box::new(value))),
            Err(_) => coerce_first_variant(variants, from + 1, host, reg, level),
        }
    }
}

/// The fields from `from` on of a new instance built from `data`: each
/// the coerced value under its name, the default where the name is
/// missing, `Null` where there is no default either.
pub open spec fn coerce_fields(
    record: RecordView,
    from: nat,
    data: Seq<(HostView, HostView)>,
    acc: Seq<(Seq<char>, ValueView)>,
    reg: RegistryView,
    level: nat,
) -> Result<Seq<(Seq<char>, ValueView)>, AvromaticError>
    decreases level + 1, 0nat, record, record.len() - from,
{
    if from >= record.len() {
        Ok(acc)
    } else {
        let name = record[from as int].0;
        match data_value(data, name, data.len()) {
            Some(given) => match coerce_spec(record[from as int].1.type_descriptor, given, reg, level) {
                Err(e) => Err(e),
                Ok(value) => coerce_fields(
                    record,
                    from + 1,
                    data,
                    acc.push((name, value)),
                    reg,
                    level,
                ),
            },
            None => coerce_fields(
                record,
                from + 1,
                data,
                acc.push(
                    (
                        name,
                        match record[from as int].1.default {
                            Some(value) => value,
                            None => ValueView::Null,
                        },
                    ),
                ),
                reg,
                level,
            ),
        }
    }
}

/// First match wins: where a union takes a value, the tag is the index
/// of a variant under which the value coerces to what the union holds,
/// and the value coerces under no variant before it; where a union takes
/// no value, the value coerces under none of its variants.
pub proof fn union_first_match(
    variants: Seq<DescriptorView>,
    from: nat,
    host: HostView,
    reg: RegistryView,
    level: nat,
)
    ensures
        match coerce_first_variant(variants, from, host, reg, level) {
            Ok(value) => value matches ValueView::Union(index, inner) && from <= index
                < variants.len() && coerce_spec(variants[index as int], host, reg, level) == Ok::<
                ValueView,
                AvromaticError,
            >(*inner) && (forall|j: int|
                from <= j < index ==> (#[trigger] coerce_spec(variants[j], host, reg, level)) is Err),
            Err(e) => e == bad_coercion_of(host, TypeName::Union) && (forall|j: int|
                from <= j < variants.len() ==> (#[trigger] coerce_spec(
                    variants[j],
                    host,
                    reg,
                    level,
                )) is Err),
        },
    decreases variants.len() - from,
{
    if from < variants.len() {
        if coerce_spec(variants[from as int], host, reg, level) is Err {
            union_first_match(variants, from + 1, host, reg, level);
        }
    }
}

/// An enum takes exactly the strings that spell one of its symbols.
pub proof fn enum_membership(symbols: Seq<Seq<char>>, bytes: Seq<u8>, from: nat)
    ensures
        symbol_position(symbols, bytes, from) is Some <==> exists|i: int|
            from <= i < symbols.len() && encode_utf8(#[trigger] symbols[i]) == bytes,
    decreases symbols.len() - from,
{
    if from < symbols.len() {
        if encode_utf8(symbols[from as int]) == bytes {
            assert(from <= from < symbols.len() && encode_utf8(symbols[from as int]) == bytes);
        } else {
            enum_membership(symbols, bytes, from + 1);
            if symbol_position(symbols, bytes, from + 1) is Some {
                let i = choose|i: int|
                    from + 1 <= i < symbols.len() && encode_utf8(#[trigger] symbols[i]) == bytes;
                assert(from <= i < symbols.len() && encode_utf8(symbols[i]) == bytes);
            } else {
                assert forall|i: int| from <= i < symbols.len() implies encode_utf8(
                    #[trigger] symbols[i],
                ) != bytes by {
                    if i > from {
                        assert(from + 1 <= i);
                    }
                }
            }
        }
    }
}

/// What was coerced, as the contracts speak of it.
pub open spec fn coerced(r: Result<AvromaticValue, AvromaticError>) -> Result<
    ValueView,
    AvromaticError,
> {
    match r {
        Ok(value) => Ok(value@),
        Err(e) => Err(e),
    }
}

/// The kind of a host value.
pub fn kind_of(value: &HostValue) -> (r: HostKind)
    ensures
        r == crate::errors::host_kind(value@),
{
    match value {
        HostValue::Nil => HostKind::Nil,
        HostValue::Boolean(_) => HostKind::Boolean,
        HostValue::Number(n) => if n.integer {
            HostKind::Integer
        } else {
            HostKind::Float
        },
        HostValue::String(_) => HostKind::String,
        HostValue::Symbol(_) => HostKind::Symbol,
        HostValue::Date(_) => HostKind::Date,
        HostValue::DateTime(_) => HostKind::DateTime,
        HostValue::Time(_, _) => HostKind::Time,
        HostValue::Array(_) => HostKind::Array,
        HostValue::Mapping(_) => HostKind::Mapping,
        HostValue::Model(_) => HostKind::Model,
        HostValue::Object(_) => HostKind::Object,
    }
}

/// The error for a value that is not of the type named.
pub fn bad_coercion(value: &HostValue, name: TypeName) -> (r: AvromaticError)
    ensures
        r == bad_coercion_of(value@, name),
{
    AvromaticError::InvalidValue { value: kind_of(value), name }
}

/// Null takes nil alone.
pub fn coerce_null(value: &HostValue) -> (r: Result<AvromaticValue, AvromaticError>)
    ensures
        coerced(r) == coerce_scalar_spec(DescriptorView::Null, value@),
{
    match value {
        HostValue::Nil => Ok(AvromaticValue::Null),
        _ => Err(bad_coercion(value, TypeName::Null)),
    }
}

/// A boolean takes a host boolean.
pub fn coerce_boolean(value: &HostValue) -> (r: Result<AvromaticValue, AvromaticError>)
    ensures
        coerced(r) == coerce_scalar_spec(DescriptorView::Boolean, value@),
{
    match value {
        HostValue::Boolean(b) => Ok(
            if *b {
                AvromaticValue::True
            } else {
                AvromaticValue::False
            },
        ),
        _ => Err(bad_coercion(value, TypeName::Boolean)),
    }
}

/// The bytes of a string or a symbol.
pub fn convert_string(value: &HostValue) -> (r: Option<Vec<u8>>)
    ensures
        match r {
            Some(bytes) => text_of(value@) == Some(bytes@),
            None => text_of(value@) is None,
        },
{
    match value {
        HostValue::String(bytes) => Some(clone_bytes(bytes)),
        HostValue::Symbol(bytes) => Some(clone_bytes(bytes)),
        _ => None,
    }
}

/// A string or a byte string takes a string-like value.
pub fn coerce_string(value: &HostValue) -> (r: Result<AvromaticValue, AvromaticError>)
    ensures
        coerced(r) == coerce_scalar_spec(DescriptorView::String, value@),
        coerced(r) == coerce_scalar_spec(DescriptorView::Bytes, value@),
{
    match convert_string(value) {
        Some(bytes) => Ok(AvromaticValue::String(bytes)),
        None => Err(bad_coercion(value, TypeName::String)),
    }
}

/// A fixed takes a string of exactly its size.
pub fn coerce_fixed(value: &HostValue, length: usize) -> (r: Result<AvromaticValue, AvromaticError>)
    ensures
        coerced(r) == coerce_scalar_spec(DescriptorView::Fixed(length), value@),
{
    match value {
        HostValue::String(bytes) => {
            if bytes.len() == length {
                Ok(AvromaticValue::String(clone_bytes(bytes)))
            } else {
                Err(bad_coercion(value, TypeName::Fixed(length)))
            }
        },
        _ => Err(bad_coercion(value, TypeName::Fixed(length))),
    }
}

/// A date takes a date, a date-time, a time or a bare number, where the
/// day count fits 32 bits.
pub fn coerce_date(value: &HostValue) -> (r: Result<AvromaticValue, AvromaticError>)
    ensures
        coerced(r) == coerce_date_spec(value@),
{
    let days = match value {
        HostValue::Date(days) => Some(*days),
        HostValue::DateTime(seconds) => Some(RDateTime::days_since_epoch(*seconds)),
        HostValue::Time(seconds, _) => Some(RTime::days_since_epoch(*seconds)),
        HostValue::Number(HostNumber { as_integer: Some(n), .. }) => Some(*n),
        _ => None,
    };
    match days {
        Some(days) => {
            if is_int(days) {
                Ok(AvromaticValue::Long(days))
            } else {
                Err(bad_coercion(value, TypeName::Date))
            }
        },
        None => Err(bad_coercion(value, TypeName::Date)),
    }
}

/// A timestamp in milliseconds takes a bare number, a date-time or a
/// time, and no pure date.
pub fn coerce_timestamp_millis(value: &HostValue) -> (r: Result<AvromaticValue, AvromaticError>)
    ensures
        coerced(r) == coerce_timestamp_spec(value@, 1000, TypeName::TimestampMillis),
{
    let counted = match value {
        HostValue::Number(HostNumber { as_integer: Some(n), .. }) => Some(*n),
        HostValue::DateTime(seconds) => RTime::to_millis(*seconds, 0),
        HostValue::Time(seconds, micros) => RTime::to_millis(*seconds, *micros),
        _ => None,
    };
    match counted {
        Some(n) => Ok(AvromaticValue::Long(n)),
        None => Err(bad_coercion(value, TypeName::TimestampMillis)),
    }
}

/// A timestamp in microseconds takes a bare number, a date-time or a
/// time, and no pure date.
pub fn coerce_timestamp_micros(value: &HostValue) -> (r: Result<AvromaticValue, AvromaticError>)
    ensures
        coerced(r) == coerce_timestamp_spec(value@, 1000000, TypeName::TimestampMicros),
{
    let counted = match value {
        HostValue::Number(HostNumber { as_integer: Some(n), .. }) => Some(*n),
        HostValue::DateTime(seconds) => RTime::to_micros(*seconds, 0),
        HostValue::Time(seconds, micros) => RTime::to_micros(*seconds, *micros),
        _ => None,
    };
    match counted {
        Some(n) => Ok(AvromaticValue::Long(n)),
        None => Err(bad_coercion(value, TypeName::TimestampMicros)),
    }
}

/// An int takes an integral number that fits 32 bits.
pub fn coerce_integer(value: &HostValue) -> (r: Result<AvromaticValue, AvromaticError>)
    ensures
        coerced(r) == coerce_scalar_spec(DescriptorView::Int, value@),
{
    match value {
        HostValue::Number(HostNumber { integer: true, as_integer: Some(n), .. }) => {
            if is_int(*n) {
                Ok(AvromaticValue::Long(*n))
            } else {
                Err(bad_coercion(value, TypeName::Integer))
            }
        },
        _ => Err(bad_coercion(value, TypeName::Integer)),
    }
}

/// A long takes an integral number.
pub fn coerce_long(value: &HostValue) -> (r: Result<AvromaticValue, AvromaticError>)
    ensures
        coerced(r) == coerce_scalar_spec(DescriptorView::Long, value@),
{
    match value {
        HostValue::Number(HostNumber { integer: true, as_integer: Some(n), .. }) => Ok(
            AvromaticValue::Long(*n),
        ),
        _ => Err(bad_coercion(value, TypeName::Integer)),
    }
}

/// A double takes a number that the host gives in double precision.
pub fn coerce_double(value: &HostValue) -> (r: Result<AvromaticValue, AvromaticError>)
    ensures
        coerced(r) == coerce_scalar_spec(DescriptorView::Double, value@),
{
    match value {
        HostValue::Number(HostNumber { as_double: Some(bits), .. }) => Ok(
            AvromaticValue::Double(*bits),
        ),
        _ => Err(bad_coercion(value, TypeName::Double)),
    }
}

/// A float takes a number that the host gives in single precision.
pub fn coerce_float(value: &HostValue) -> (r: Result<AvromaticValue, AvromaticError>)
    ensures
        coerced(r) == coerce_scalar_spec(DescriptorView::Float, value@),
{
    match value {
        HostValue::Number(HostNumber { as_single: Some(bits), .. }) => Ok(
            AvromaticValue::Float(*bits),
        ),
        _ => Err(bad_coercion(value, TypeName::Float)),
    }
}

/// An enum takes a string-like value that spells one of its symbols.
pub fn coerce_enum(value: &HostValue, symbols: &Vec<String>) -> (r: Result<
    AvromaticValue,
    AvromaticError,
>)
    ensures
        coerced(r) == coerce_scalar_spec(
            DescriptorView::Enum(Seq::new(symbols.len() as nat, |i: int| symbols[i]@)),
            value@,
        ),
{
    let ghost names = Seq::new(symbols.len() as nat, |i: int| symbols[i]@);
    match convert_string(value) {
        None => Err(bad_coercion(value, TypeName::Enum)),
        Some(bytes) => {
            let mut i: usize = 0;
            while i < symbols.len()
                invariant
                    i <= symbols.len(),
                    names == Seq::new(symbols.len() as nat, |i: int| symbols[i]@),
                    text_of(value@) == Some(bytes@),
                    symbol_position(names, bytes@, 0) == symbol_position(names, bytes@, i as nat),
                decreases symbols.len() - i,
            {
                if bytes_equal(symbols[i].as_str().as_bytes(), bytes.as_slice()) {
                    return Ok(AvromaticValue::String(bytes));
                }
                i += 1;
            }
            Err(bad_coercion(value, TypeName::Enum))
        },
    }
}

/// The outcome of coercion to a custom type, once the hook has answered.
pub fn custom_outcome(answer: Option<HostValue>) -> (r: Result<AvromaticValue, AvromaticError>)
    ensures
        match answer {
            Some(wrapped) => r matches Ok(value) && value@ == ValueView::Custom(Box::new(wrapped@)),
            None => r == Err::<AvromaticValue, AvromaticError>(AvromaticError::CustomTypeFailed),
        },
{
    match answer {
        Some(wrapped) => Ok(AvromaticValue::Custom(Box::new(wrapped))),
        None => Err(AvromaticError::CustomTypeFailed),
    }
}

/// A custom type takes what its `from_avro` hook makes of the value, and
/// the value itself where there is no hook.
pub fn coerce_custom<H: CustomTypeHooks>(
    value: &HostValue,
    custom_type: &CustomTypeConfiguration,
    hooks: &H,
) -> (r: Result<AvromaticValue, AvromaticError>)
    ensures
        !custom_type.deserialize_applies(value) ==> coerced(r) == Ok::<ValueView, AvromaticError>(
            ValueView::Custom(Box::new(value@)),
        ),
        r matches Ok(value) ==> value is Custom,
        r matches Err(e) ==> e == AvromaticError::CustomTypeFailed,
{
    custom_outcome(custom_type.deserialize(value, hooks))
}

/// Whether one of the handles is `handle`.
pub fn has_ancestor(ancestors: &Vec<usize>, handle: usize) -> (r: bool)
    ensures
        r == ancestors@.contains(handle),
{
    let mut i: usize = 0;
    while i < ancestors.len()
        invariant
            i <= ancestors.len(),
            forall|j: int| 0 <= j < i ==> ancestors@[j] != handle,
        decreases ancestors.len() - i,
    {
        if ancestors[i] == handle {
            return true;
        }
        i += 1;
    }
    false
}

/// The value that a host mapping holds under `name`: that of the last
/// entry whose key spells the name.
pub fn lookup<'a>(data: &'a Vec<(HostValue, HostValue)>, name: &String) -> (r: Option<&'a HostValue>)
    ensures
        match r {
            Some(value) => data_value(HostValue::Mapping(*data)@->Mapping_0, name@, data.len() as nat)
                == Some(value@),
            None => data_value(HostValue::Mapping(*data)@->Mapping_0, name@, data.len() as nat)
                is None,
        },
{
    let ghost views = HostValue::Mapping(*data)@->Mapping_0;
    let mut i: usize = data.len();
    while i > 0
        invariant
            i <= data.len(),
            views == HostValue::Mapping(*data)@->Mapping_0,
            views.len() == data.len(),
            data_value(views, name@, data.len() as nat) == data_value(views, name@, i as nat),
        decreases i,
    {
        let entry = &data[i - 1];
        assert(views[i - 1] == (entry.0@, entry.1@));
        let spelled = match &entry.0 {
            HostValue::String(bytes) => bytes_equal(bytes.as_slice(), name.as_str().as_bytes()),
            HostValue::Symbol(bytes) => bytes_equal(bytes.as_slice(), name.as_str().as_bytes()),
            _ => false,
        };
        if spelled {
            return Some(&entry.1);
        }
        i -= 1;
    }
    None
}

impl TypeDescriptor {
    /// Coerces a host value.
    ///
    /// Where no custom type of the tree has a hook the result is exactly
    /// what `coerce_spec` states: the value, or the error. Where one has,
    /// its hooks decide.
    pub fn coerce<H: CustomTypeHooks>(
        &self,
        value: &HostValue,
        registry: &ModelRegistry,
        hooks: &H,
    ) -> (r: Result<AvromaticValue, AvromaticError>)
        ensures
            self@.settled(registry@) ==> coerced(r) == coerce_spec(
                self@,
                value@,
                registry@,
                registry@.len(),
            ),
            self.is_scalar() ==> coerced(r) == coerce_spec(self@, value@, registry@, registry@.len()),
            value@ is Nil ==> coerced(r) == Ok::<ValueView, AvromaticError>(ValueView::Null),
    {
        self.coerce_below(value, registry, hooks, registry.models.len())
    }

    /// Coerces a host value under a descriptor without inner descriptors.
    pub(crate) fn coerce_scalar(&self, value: &HostValue) -> (r: Result<AvromaticValue, AvromaticError>)
        requires
            self.is_scalar(),
        ensures
            coerced(r) == coerce_scalar_spec(self@, value@),
    {
        match self {
            TypeDescriptor::Null => coerce_null(value),
            TypeDescriptor::Boolean => coerce_boolean(value),
            TypeDescriptor::String => coerce_string(value),
            TypeDescriptor::Bytes => coerce_string(value),
            TypeDescriptor::Enum(symbols) => {
                assert(self@->Enum_0 =~= Seq::new(symbols.len() as nat, |i: int| symbols[i]@));
                coerce_enum(value, symbols)
            },
            TypeDescriptor::Int => coerce_integer(value),
            TypeDescriptor::Long => coerce_long(value),
            TypeDescriptor::Date => coerce_date(value),
            TypeDescriptor::TimestampMillis => coerce_timestamp_millis(value),
            TypeDescriptor::TimestampMicros => coerce_timestamp_micros(value),
            TypeDescriptor::Float => coerce_float(value),
            TypeDescriptor::Double => coerce_double(value),
            TypeDescriptor::Fixed(length) => coerce_fixed(value, *length),
            _ => Err(AvromaticError::CustomTypeFailed),
        }
    }

    /// As `coerce`, following record handles only below `level`.
    pub(crate) fn coerce_below<H: CustomTypeHooks>(
        &self,
        value: &HostValue,
        registry: &ModelRegistry,
        hooks: &H,
        level: usize,
    ) -> (r: Result<AvromaticValue, AvromaticError>)
        requires
            level <= registry@.len(),
        ensures
            self@.settled(registry@) ==> coerced(r) == coerce_spec(
                self@,
                value@,
                registry@,
                level as nat,
            ),
            self.is_scalar() ==> coerced(r) == coerce_spec(self@, value@, registry@, level as nat),
            value@ is Nil ==> coerced(r) == Ok::<ValueView, AvromaticError>(ValueView::Null),
        decreases level, 1nat, self, 0nat,
    {
        if let HostValue::Nil = value {
            return Ok(AvromaticValue::Null);
        }
        match self {
            TypeDescriptor::Array(inner) => coerce_array(value, inner, registry, hooks, level),
            TypeDescriptor::Mapping(inner) => coerce_map(value, inner, registry, hooks, level),
            TypeDescriptor::Union(_, variants) => {
                assert(decreases_to!(self => self->Union_1));
                assert(self@->Union_1 =~= Seq::new(variants.len() as nat, |i: int| variants[i]@));
                assert(self@.settled(registry@) ==> forall|i: int|
    0 <= i < variants.len() ==> (#[trigger] variants[i])@.settled(registry@)) by {
    if self@.settled(registry@) {
        assert forall|i: int| 0 <= i < variants.len() implies (
        #[trigger] variants[i])@.settled(registry@) by {
            assert(self@->Union_1[i].hook_free());
            assert(self@.record_free() ==> self@->Union_1[i].record_free());
        }
    }
}
                coerce_union_below(value, variants, registry, hooks, level)
            },
            TypeDescriptor::Record(handle) => {
                if *handle < level {
                    coerce_record(value, *handle, registry, hooks, level)
                } else {
                    Err(AvromaticError::UnknownModel)
                }
            },
            TypeDescriptor::Custom(custom, _) => coerce_custom(value, custom, hooks),
            _ => self.coerce_scalar(value),
        }
    }
}

/// An array takes a host sequence, each element coerced; the first
/// failure fails the whole.
pub(crate) fn coerce_array<H: CustomTypeHooks>(
    value: &HostValue,
    inner: &TypeDescriptor,
    registry: &ModelRegistry,
    hooks: &H,
    level: usize,
) -> (r: Result<AvromaticValue, AvromaticError>)
    requires
        level <= registry@.len(),
        !(value@ is Nil),
    ensures
        inner@.settled(registry@) ==> coerced(r) == coerce_spec(
            DescriptorView::Array(Box::new(inner@)),
            value@,
            registry@,
            level as nat,
        ),
    decreases level, 1nat, inner, 1nat,
{
    let ghost plain = inner@.settled(registry@);
    match value {
        HostValue::Array(items) => {
            let ghost views = value@->Array_0;
            let ghost whole = coerce_items(inner@, views, 0, Seq::empty(), registry@, level as nat);
            let ghost mut acc: Seq<ValueView> = Seq::empty();
            let mut out: Vec<AvromaticValue> = Vec::new();
            let mut i: usize = 0;
            while i < items.len()
                invariant
                    level <= registry@.len(),
                    plain == (inner@.settled(registry@)),
                    value@ == HostView::Array(views),
                    views.len() == items.len(),
                    forall|j: int| 0 <= j < items.len() ==> views[j] == (#[trigger] items[j])@,
                    whole == coerce_items(inner@, views, 0, Seq::empty(), registry@, level as nat),
                    i <= items.len(),
                    acc.len() == out.len(),
                    forall|j: int| 0 <= j < out.len() ==> acc[j] == (#[trigger] out[j])@,
                    plain ==> whole == coerce_items(inner@, views, i as nat, acc, registry@, level as nat),
                decreases items.len() - i,
            {
                match inner.coerce_below(&items[i], registry, hooks, level) {
                    Err(e) => {
                        return Err(e);
                    },
                    Ok(item) => {
                        proof {
                            acc = acc.push(item@);
                        }
                        out.push(item);
                    },
                }
                i += 1;
            }
            let r = AvromaticValue::Array(out);
            assert(r@->Array_0 =~= acc);
            Ok(r)
        },
        _ => Err(bad_coercion(value, TypeName::Array)),
    }
}

/// A map takes a host mapping with string-like keys, each value coerced.
pub(crate) fn coerce_map<H: CustomTypeHooks>(
    value: &HostValue,
    inner: &TypeDescriptor,
    registry: &ModelRegistry,
    hooks: &H,
    level: usize,
) -> (r: Result<AvromaticValue, AvromaticError>)
    requires
        level <= registry@.len(),
        !(value@ is Nil),
    ensures
        inner@.settled(registry@) ==> coerced(r) == coerce_spec(
            DescriptorView::Mapping(Box::new(inner@)),
            value@,
            registry@,
            level as nat,
        ),
    decreases level, 1nat, inner, 1nat,
{
    let ghost plain = inner@.settled(registry@);
    match value {
        HostValue::Mapping(data) => {
            let ghost views = value@->Mapping_0;
            let ghost whole = coerce_entries(inner@, views, 0, Seq::empty(), registry@, level as nat);
            let ghost mut acc: Seq<(Seq<u8>, ValueView)> = Seq::empty();
            let mut out: Vec<(Vec<u8>, AvromaticValue)> = Vec::new();
            let mut i: usize = 0;
            while i < data.len()
                invariant
                    level <= registry@.len(),
                    plain == (inner@.settled(registry@)),
                    value@ == HostView::Mapping(views),
                    views.len() == data.len(),
                    forall|j: int|
                        0 <= j < data.len() ==> views[j] == ((#[trigger] data[j]).0@, data[j].1@),
                    whole == coerce_entries(inner@, views, 0, Seq::empty(), registry@, level as nat),
                    i <= data.len(),
                    acc.len() == out.len(),
                    forall|j: int|
                        0 <= j < out.len() ==> acc[j] == ((#[trigger] out[j]).0@, out[j].1@),
                    plain ==> whole == coerce_entries(
                        inner@,
                        views,
                        i as nat,
                        acc,
                        registry@,
                        level as nat,
                    ),
                decreases data.len() - i,
            {
                let key = match convert_string(&data[i].0) {
                    None => {
                        return Err(bad_coercion(&data[i].0, TypeName::String));
                    },
                    Some(key) => key,
                };
                match inner.coerce_below(&data[i].1, registry, hooks, level) {
                    Err(e) => {
                        return Err(e);
                    },
                    Ok(item) => {
                        let updated = insert_entry(&mut out, key, item, Ghost(acc));
                        proof {
                            acc = updated@;
                        }
                    },
                }
                i += 1;
            }
            let r = AvromaticValue::Mapping(out);
            assert(r@->Mapping_0 =~= acc);
            Ok(r)
        },
        _ => Err(bad_coercion(value, TypeName::Mapping)),
    }
}

/// A union takes the first variant, in declared order, under which the
/// value coerces, and tags the result with that variant's index.
///
/// Whatever the hooks do, what is taken carries the index of a variant,
/// and what is not taken is refused as no union.
pub fn coerce_union<H: CustomTypeHooks>(
    value: &HostValue,
    variants: &Vec<TypeDescriptor>,
    registry: &ModelRegistry,
    hooks: &H,
) -> (r: Result<AvromaticValue, AvromaticError>)
    ensures
        (forall|i: int| 0 <= i < variants.len() ==> (#[trigger] variants[i])@.settled(registry@)) ==> coerced(r) == coerce_first_variant(
            Seq::new(variants.len() as nat, |i: int| variants[i]@),
            0,
            value@,
            registry@,
            registry@.len(),
        ),
        match r {
            Ok(taken) => taken@ matches ValueView::Union(index, _) && index < variants.len(),
            Err(e) => e == bad_coercion_of(value@, TypeName::Union),
        },
{
    coerce_union_below(value, variants, registry, hooks, registry.models.len())
}

/// As `coerce_union`, following record handles only below `level`.
pub(crate) fn coerce_union_below<H: CustomTypeHooks>(
    value: &HostValue,
    variants: &Vec<TypeDescriptor>,
    registry: &ModelRegistry,
    hooks: &H,
    level: usize,
) -> (r: Result<AvromaticValue, AvromaticError>)
    requires
        level <= registry@.len(),
    ensures
        (forall|i: int| 0 <= i < variants.len() ==> (#[trigger] variants[i])@.settled(registry@)) ==> coerced(r) == coerce_first_variant(
            Seq::new(variants.len() as nat, |i: int| variants[i]@),
            0,
            value@,
            registry@,
            level as nat,
        ),
        match r {
            Ok(taken) => taken@ matches ValueView::Union(index, _) && index < variants.len(),
            Err(e) => e == bad_coercion_of(value@, TypeName::Union),
        },
    decreases level, 1nat, variants, 1nat,
{
    let ghost views = Seq::new(variants.len() as nat, |i: int| variants[i]@);
    let ghost plain = (forall|i: int| 0 <= i < variants.len() ==> (#[trigger] variants[i])@.settled(registry@));
    let mut i: usize = 0;
    while i < variants.len()
        invariant
            level <= registry@.len(),
            plain == ((forall|i: int| 0 <= i < variants.len() ==> (#[trigger] variants[i])@.settled(registry@))),
            views == Seq::new(variants.len() as nat, |i: int| variants[i]@),
            i <= variants.len(),
            plain ==> coerce_first_variant(views, 0, value@, registry@, level as nat)
                == coerce_first_variant(views, i as nat, value@, registry@, level as nat),
        decreases variants.len() - i,
    {
        match variants[i].coerce_below(value, registry, hooks, level) {
            Ok(inner) => {
                return Ok(AvromaticValue::Union(i, Box::new(inner)));
            },
            Err(_) => {},
        }
        i += 1;
    }
    Err(bad_coercion(value, TypeName::Union))
}

/// A record takes an instance of its model as it is, and builds a new
/// storage from a mapping: each field the coerced value under its name,
/// its default where the name is missing.
pub(crate) fn coerce_record<H: CustomTypeHooks>(
    value: &HostValue,
    handle: usize,
    registry: &ModelRegistry,
    hooks: &H,
    level: usize,
) -> (r: Result<AvromaticValue, AvromaticError>)
    requires
        level <= registry@.len(),
        handle < level,
        !(value@ is Nil),
    ensures
        registry_hook_free(registry@) ==> coerced(r) == coerce_spec(
            DescriptorView::Record(handle),
            value@,
            registry@,
            level as nat,
        ),
    decreases level, 0nat, registry.models[handle as int].descriptor, 1nat,
{
    let model = &registry.models[handle];
    assert(registry@[handle as int] == model@);
    match value {
        HostValue::Model(instance) => {
            if has_ancestor(&instance.ancestors, handle) {
                Ok(AvromaticValue::Record(instance.storage.duplicate()))
            } else {
                Err(bad_coercion(value, TypeName::Record))
            }
        },
        HostValue::Mapping(data) => {
            match coerce_attributes(&model.descriptor, data, registry, hooks, handle) {
                Ok(storage) => Ok(AvromaticValue::Record(storage)),
                Err(e) => Err(e),
            }
        },
        _ => Err(bad_coercion(value, TypeName::Record)),
    }
}

/// The storage of a new instance built from a host mapping.
pub(crate) fn coerce_attributes<H: CustomTypeHooks>(
    record: &RecordDescriptor,
    data: &Vec<(HostValue, HostValue)>,
    registry: &ModelRegistry,
    hooks: &H,
    level: usize,
) -> (r: Result<ModelStorage, AvromaticError>)
    requires
        level <= registry@.len(),
    ensures
        record_settled(record@, registry@) ==> match r {
            Ok(storage) => coerce_fields(
                record@,
                0,
                HostValue::Mapping(*data)@->Mapping_0,
                Seq::empty(),
                registry@,
                level as nat,
            ) == Ok::<Seq<(Seq<char>, ValueView)>, AvromaticError>(storage@),
            Err(e) => coerce_fields(
                record@,
                0,
                HostValue::Mapping(*data)@->Mapping_0,
                Seq::empty(),
                registry@,
                level as nat,
            ) == Err::<Seq<(Seq<char>, ValueView)>, AvromaticError>(e),
        },
    decreases level + 1, 0nat, record, 0nat,
{
    let ghost plain = record_settled(record@, registry@);
    let ghost views = HostValue::Mapping(*data)@->Mapping_0;
    let ghost whole = coerce_fields(record@, 0, views, Seq::empty(), registry@, level as nat);
    let ghost mut acc: Seq<(Seq<char>, ValueView)> = Seq::empty();
    let mut attributes: Vec<(String, AvromaticValue)> = Vec::new();
    let mut i: usize = 0;
    while i < record.attributes.len()
        invariant
            level <= registry@.len(),
            plain == (record_settled(record@, registry@)),
            views == HostValue::Mapping(*data)@->Mapping_0,
            views.len() == data.len(),
            whole == coerce_fields(record@, 0, views, Seq::empty(), registry@, level as nat),
            i <= record.attributes.len(),
            record@.len() == record.attributes.len(),
            acc.len() == attributes.len(),
            forall|j: int|
                0 <= j < attributes.len() ==> acc[j] == ((#[trigger] attributes[j]).0@, attributes[j].1@),
            plain ==> whole == coerce_fields(record@, i as nat, views, acc, registry@, level as nat),
        decreases record.attributes.len() - i,
    {
        let field = &record.attributes[i];
        assert(record@[i as int] == (field.0@, field.1@));
        let stored = match lookup(data, &field.0) {
            Some(given) => match field.1.type_descriptor.coerce_below(
                given,
                registry,
                hooks,
                level,
            ) {
                Err(e) => {
                    return Err(e);
                },
                Ok(stored) => stored,
            },
            None => match &field.1.default {
                Some(default) => default.duplicate(),
                None => AvromaticValue::Null,
            },
        };
        proof {
            acc = acc.push((field.0@, stored@));
        }
        attributes.push((field.0.clone(), stored));
        i += 1;
    }
    let storage = ModelStorage { attributes };
    assert(storage@ =~= acc);
    Ok(storage)
}

} // verus!
