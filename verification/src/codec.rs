//! The wire format, stated: what each value is written as under each
//! descriptor, and what each buffer reads as.
//!
//! Integers are zigzag varints. Strings and byte strings are a length and
//! the bytes. A fixed is its bytes alone. Floats are four, doubles eight
//! little-endian bytes. A boolean is one byte, 0 or 1. Arrays and maps are
//! blocks, each a count and that many items, closed by a count of zero. A
//! union is the branch index and the branch's value. An enum is the index
//! of its symbol. A record is its fields in declared order.
//!
//! A record is held by the handle of its model. Handles are followed
//! below a level: at the top that is the number of models registered, and
//! inside a record it is the record's own handle, so that a model reaches
//! only models registered before it; a handle at or above the level is an
//! unknown model.
//!
//! A custom type rides on its underlying type: the wrapped host value is
//! coerced under the underlying descriptor and written under it, and what
//! is read under the underlying descriptor is wrapped in its host form.
//! That is what an extension without hooks does. What a hook makes of a
//! value these functions cannot say, and the codec meets them on trees
//! whose custom types have no hooks.

use crate::coercion::coerce_spec;
use crate::descriptors::{DescriptorView, RecordView, RegistryView};
use crate::host::to_ruby_spec;
use crate::values::{keys_unique, ValueView};
use crate::varint::{fits_int, int_at, len_at, long_at, long_bytes, DecodeError};
use vstd::bytes::{
    spec_u32_from_le_bytes,
    spec_u32_to_le_bytes,
    spec_u64_from_le_bytes,
    spec_u64_to_le_bytes,
};
use vstd::prelude::*;
use vstd::utf8::{encode_utf8, valid_utf8};

verus! {

/// Why a value could not be written.
#[derive(Clone, Copy, Debug, PartialEq, Eq, Structural)]
pub enum EncodeError {
    /// The value is not of the descriptor's kind, or of the wrong size.
    Mismatch,
    /// The string is none of the enum's symbols.
    UnknownSymbol,
    /// No variant of the union takes the value, or the tagged branch does
    /// not exist.
    InvalidUnion,
    /// The record's model is not in the registry.
    UnknownModel,
    /// A custom type's hook failed.
    CustomTypeFailed,
    /// A key was asked of a model that has no key schema.
    NoKeySchema,
    /// An int, a date or an enum index does not fit 32 bits.
    IntOutOfRange,
}

/// A length and the bytes.
pub open spec fn length_prefixed(bytes: Seq<u8>) -> Seq<u8> {
    long_bytes(bytes.len() as i64) + bytes
}

/// The index of the first symbol that spells `bytes`.
pub open spec fn symbol_position(symbols: Seq<Seq<char>>, bytes: Seq<u8>, from: nat) -> Option<
    nat,
>
    decreases symbols.len() - from,
{
    if from >= symbols.len() {
        None
    } else if encode_utf8(symbols[from as int]) == bytes {
        Some(from)
    } else {
        symbol_position(symbols, bytes, from + 1)
    }
}

/// The value stored under `name`, `Null` where there is none.
pub open spec fn attribute_value(
    storage: Seq<(Seq<char>, ValueView)>,
    name: Seq<char>,
    from: nat,
) -> ValueView
    decreases storage.len() - from,
{
    if from >= storage.len() {
        ValueView::Null
    } else if storage[from as int].0 == name {
        storage[from as int].1
    } else {
        attribute_value(storage, name, from + 1)
    }
}

/// The wire form of `v` under `d`. Record handles are followed only
/// below `level`.
pub open spec fn encode_spec(d: DescriptorView, v: ValueView, reg: RegistryView, level: nat) -> Result<
    Seq<u8>,
    EncodeError,
>
    decreases level, 1nat, d, 0nat,
{
    match d {
        DescriptorView::Null => match v {
            ValueView::Null => Ok(Seq::empty()),
            _ => Err(EncodeError::Mismatch),
        },
        DescriptorView::Boolean => match v {
            ValueView::True => Ok(seq![1u8]),
            ValueView::False => Ok(seq![0u8]),
            _ => Err(EncodeError::Mismatch),
        },
        DescriptorView::String => match v {
            ValueView::String(bytes) => if valid_utf8(bytes) {
                Ok(length_prefixed(bytes))
            } else {
                Err(EncodeError::Mismatch)
            },
            _ => Err(EncodeError::Mismatch),
        },
        DescriptorView::Bytes => match v {
            ValueView::String(bytes) => Ok(length_prefixed(bytes)),
            _ => Err(EncodeError::Mismatch),
        },
        DescriptorView::Enum(symbols) => match v {
            ValueView::String(bytes) => match symbol_position(symbols, bytes, 0) {
                Some(index) => if index <= 0x7fff_ffff {
                    Ok(long_bytes(index as i64))
                } else {
                    Err(EncodeError::IntOutOfRange)
                },
                None => Err(EncodeError::UnknownSymbol),
            },
            _ => Err(EncodeError::Mismatch),
        },
        DescriptorView::Int | DescriptorView::Date => match v {
            ValueView::Long(n) => if fits_int(n) {
                Ok(long_bytes(n))
            } else {
                Err(EncodeError::IntOutOfRange)
            },
            _ => Err(EncodeError::Mismatch),
        },
        DescriptorView::Long
        | DescriptorView::TimestampMillis
        | DescriptorView::TimestampMicros => match v {
            ValueView::Long(n) => Ok(long_bytes(n)),
            _ => Err(EncodeError::Mismatch),
        },
        DescriptorView::Float => match v {
            ValueView::Float(bits) => Ok(spec_u32_to_le_bytes(bits)),
            _ => Err(EncodeError::Mismatch),
        },
        DescriptorView::Double => match v {
            ValueView::Double(bits) => Ok(spec_u64_to_le_bytes(bits)),
            _ => Err(EncodeError::Mismatch),
        },
        DescriptorView::Fixed(size) => match v {
            ValueView::String(bytes) => if bytes.len() == size {
                Ok(bytes)
            } else {
                Err(EncodeError::Mismatch)
            },
            _ => Err(EncodeError::Mismatch),
        },
        DescriptorView::Array(inner) => match v {
            ValueView::Array(items) => match encode_items(*inner, items, 0, reg, level) {
                Ok(body) => if items.len() == 0 {
                    Ok(seq![0u8])
                } else {
                    Ok(long_bytes(items.len() as i64) + body + seq![0u8])
                },
                Err(e) => Err(e),
            },
            _ => Err(EncodeError::Mismatch),
        },
        DescriptorView::Mapping(inner) => match v {
            ValueView::Mapping(entries) => match encode_entries(*inner, entries, 0, reg, level) {
                Ok(body) => if entries.len() == 0 {
                    Ok(seq![0u8])
                } else {
                    Ok(long_bytes(entries.len() as i64) + body + seq![0u8])
                },
                Err(e) => Err(e),
            },
            _ => Err(EncodeError::Mismatch),
        },
        DescriptorView::Union(_, variants) => match v {
            ValueView::Union(index, value) => if index < variants.len() {
                match encode_spec(variants[index as int], *value, reg, level) {
                    Ok(body) => Ok(long_bytes(index as i64) + body),
                    Err(e) => Err(e),
                }
            } else {
                Err(EncodeError::InvalidUnion)
            },
            _ => encode_first_variant(variants, 0, v, reg, level),
        },
        DescriptorView::Record(handle) => match v {
            ValueView::Record(storage) => if handle < level && handle < reg.len() {
                encode_fields(reg[handle as int].record, 0, storage, reg, handle as nat)
            } else {
                Err(EncodeError::UnknownModel)
            },
            _ => Err(EncodeError::Mismatch),
        },
        DescriptorView::Custom(_, inner) => match v {
            ValueView::Custom(wrapped) => match coerce_spec(*inner, *wrapped, reg, level) {
                Err(_) => Err(EncodeError::Mismatch),
                Ok(value) => encode_spec(*inner, value, reg, level),
            },
            _ => Err(EncodeError::Mismatch),
        },
    }
}

/// The items from `from` on, one after the other.
pub open spec fn encode_items(
    inner: DescriptorView,
    items: Seq<ValueView>,
    from: nat,
    reg: RegistryView,
    level: nat,
) -> Result<Seq<u8>, EncodeError>
    decreases level, 1nat, inner, items.len() - from + 1,
{
    if from >= items.len() {
        Ok(Seq::empty())
    } else {
        match encode_spec(inner, items[from as int], reg, level) {
            Err(e) => Err(e),
            Ok(first) => match encode_items(inner, items, from + 1, reg, level) {
                Err(e) => Err(e),
                Ok(rest) => Ok(first + rest),
            },
        }
    }
}

/// The entries from `from` on: each its key, then its value.
pub open spec fn encode_entries(
    inner: DescriptorView,
    entries: Seq<(Seq<u8>, ValueView)>,
    from: nat,
    reg: RegistryView,
    level: nat,
) -> Result<Seq<u8>, EncodeError>
    decreases level, 1nat, inner, entries.len() - from + 1,
{
    if from >= entries.len() {
        Ok(Seq::empty())
    } else {
        match encode_spec(inner, entries[from as int].1, reg, level) {
            Err(e) => Err(e),
            Ok(first) => match encode_entries(inner, entries, from + 1, reg, level) {
                Err(e) => Err(e),
                Ok(rest) => Ok(length_prefixed(entries[from as int].0) + first + rest),
            },
        }
    }
}

/// An untagged value under a union: the first variant from `from` on
/// that takes it, with that variant's index in front.
pub open spec fn encode_first_variant(
    variants: Seq<DescriptorView>,
    from: nat,
    v: ValueView,
    reg: RegistryView,
    level: nat,
) -> Result<Seq<u8>, EncodeError>
    decreases level, 1nat, variants, variants.len() - from + 1,
{
    if from >= variants.len() {
        Err(EncodeError::InvalidUnion)
    } else {
        match encode_spec(variants[from as int], v, reg, level) {
            Ok(body) => Ok(long_bytes(from as i64) + body),
            Err(_) => encode_first_variant(variants, from + 1, v, reg, level),
        }
    }
}

/// The fields from `from` on, each the stored value under its name, a
/// missing one as `Null`.
pub open spec fn encode_fields(
    record: RecordView,
    from: nat,
    storage: Seq<(Seq<char>, ValueView)>,
    reg: RegistryView,
    level: nat,
) -> Result<Seq<u8>, EncodeError>
    decreases level + 1, 0nat, record, record.len() - from,
{
    if from >= record.len() {
        Ok(Seq::empty())
    } else {
        match encode_spec(
            record[from as int].1.type_descriptor,
            attribute_value(storage, record[from as int].0, 0),
            reg,
            level,
        ) {
            Err(e) => Err(e),
            Ok(first) => match encode_fields(record, from + 1, storage, reg, level) {
                Err(e) => Err(e),
                Ok(rest) => Ok(first + rest),
            },
        }
    }
}

/// `entries` with `value` under `key`: in the place of an entry with that
/// key, at the end where there is none.
pub open spec fn entries_insert(
    entries: Seq<(Seq<u8>, ValueView)>,
    key: Seq<u8>,
    value: ValueView,
    from: nat,
) -> Seq<(Seq<u8>, ValueView)>
    decreases entries.len() - from,
{
    if from >= entries.len() {
        entries.push((key, value))
    } else if entries[from as int].0 == key {
        entries.update(from as int, (key, value))
    } else {
        entries_insert(entries, key, value, from + 1)
    }
}

/// Putting an entry into a map that holds no key twice leaves a map that
/// holds no key twice, as long as it has the entries it had plus at most
/// one.
pub proof fn entries_insert_keeps(
    entries: Seq<(Seq<u8>, ValueView)>,
    key: Seq<u8>,
    value: ValueView,
    from: nat,
)
    requires
        keys_unique(entries),
        forall|i: int| 0 <= i < from && i < entries.len() ==> (#[trigger] entries[i]).0 != key,
    ensures
        keys_unique(entries_insert(entries, key, value, from)),
        entries_insert(entries, key, value, from).len() >= entries.len(),
        (forall|i: int| 0 <= i < entries.len() ==> (#[trigger] entries[i]).1.well_formed())
            && value.well_formed() ==> forall|i: int|
            0 <= i < entries_insert(entries, key, value, from).len() ==> (
            #[trigger] entries_insert(entries, key, value, from)[i]).1.well_formed(),
    decreases entries.len() - from,
{
    let after = entries_insert(entries, key, value, from);
    if from >= entries.len() {
        assert forall|i: int, j: int| 0 <= i < j < after.len() implies (#[trigger] after[i]).0 != (
        #[trigger] after[j]).0 by {
            if j < entries.len() {
                assert(after[i] == entries[i] && after[j] == entries[j]);
            } else {
                assert(after[i] == entries[i]);
            }
        }
    } else if entries[from as int].0 == key {
        assert forall|i: int, j: int| 0 <= i < j < after.len() implies (#[trigger] after[i]).0 != (
        #[trigger] after[j]).0 by {
            assert(after[i].0 == entries[i].0 && after[j].0 == entries[j].0);
        }
    } else {
        entries_insert_keeps(entries, key, value, from + 1);
    }
}

/// The `size` bytes at `pos`.
pub open spec fn bytes_at(bytes: Seq<u8>, pos: int, size: int) -> Result<
    (Seq<u8>, int),
    DecodeError,
> {
    if 0 <= pos && 0 <= size && pos + size <= bytes.len() {
        Ok((bytes.subrange(pos, pos + size), pos + size))
    } else {
        Err(DecodeError::UnexpectedEnd)
    }
}

/// The length-prefixed byte string at `pos`.
pub open spec fn prefixed_at(bytes: Seq<u8>, pos: int) -> Result<(Seq<u8>, int), DecodeError> {
    match len_at(bytes, pos) {
        Err(e) => Err(e),
        Ok((size, start)) => bytes_at(bytes, start, size as int),
    }
}

/// The length-prefixed UTF-8 string at `pos`.
pub open spec fn text_at(bytes: Seq<u8>, pos: int) -> Result<(Seq<u8>, int), DecodeError> {
    match prefixed_at(bytes, pos) {
        Err(e) => Err(e),
        Ok((text, end)) => if valid_utf8(text) {
            Ok((text, end))
        } else {
            Err(DecodeError::InvalidUtf8)
        },
    }
}

/// What the bytes from `pos` on read as under `d`, and where the value
/// ends. Record handles are followed only below `level`.
pub open spec fn decode_spec(
    d: DescriptorView,
    bytes: Seq<u8>,
    pos: int,
    reg: RegistryView,
    level: nat,
) -> Result<(ValueView, int), DecodeError>
    decreases level, 1nat, d, 0nat, 0nat,
{
    match d {
        DescriptorView::Null => Ok((ValueView::Null, pos)),
        DescriptorView::Boolean => match bytes_at(bytes, pos, 1) {
            Err(e) => Err(e),
            Ok((byte, end)) => if byte[0] == 0 {
                Ok((ValueView::False, end))
            } else if byte[0] == 1 {
                Ok((ValueView::True, end))
            } else {
                Err(DecodeError::NotABool)
            },
        },
        DescriptorView::Int | DescriptorView::Date => match int_at(bytes, pos) {
            Err(e) => Err(e),
            Ok((n, end)) => Ok((ValueView::Long(n as i64), end)),
        },
        DescriptorView::Long
        | DescriptorView::TimestampMillis
        | DescriptorView::TimestampMicros => match long_at(bytes, pos) {
            Err(e) => Err(e),
            Ok((n, end)) => Ok((ValueView::Long(n), end)),
        },
        DescriptorView::Float => match bytes_at(bytes, pos, 4) {
            Err(e) => Err(e),
            Ok((raw, end)) => Ok((ValueView::Float(spec_u32_from_le_bytes(raw)), end)),
        },
        DescriptorView::Double => match bytes_at(bytes, pos, 8) {
            Err(e) => Err(e),
            Ok((raw, end)) => Ok((ValueView::Double(spec_u64_from_le_bytes(raw)), end)),
        },
        DescriptorView::Bytes => match prefixed_at(bytes, pos) {
            Err(e) => Err(e),
            Ok((raw, end)) => Ok((ValueView::String(raw), end)),
        },
        DescriptorView::String => match text_at(bytes, pos) {
            Err(e) => Err(e),
            Ok((text, end)) => Ok((ValueView::String(text), end)),
        },
        DescriptorView::Fixed(size) => match bytes_at(bytes, pos, size as int) {
            Err(e) => Err(e),
            Ok((raw, end)) => Ok((ValueView::String(raw), end)),
        },
        DescriptorView::Enum(symbols) => match int_at(bytes, pos) {
            Err(e) => Err(e),
            Ok((index, end)) => if 0 <= index < symbols.len() {
                Ok((ValueView::String(encode_utf8(symbols[index as int])), end))
            } else {
                Err(DecodeError::EnumIndexOutOfBounds)
            },
        },
        DescriptorView::Array(inner) => match decode_blocks(
            *inner,
            bytes,
            pos,
            Seq::empty(),
            reg,
            level,
        ) {
            Err(e) => Err(e),
            Ok((items, end)) => Ok((ValueView::Array(items), end)),
        },
        DescriptorView::Mapping(inner) => match decode_entry_blocks(
            *inner,
            bytes,
            pos,
            Seq::empty(),
            reg,
            level,
        ) {
            Err(e) => Err(e),
            Ok((entries, end)) => Ok((ValueView::Mapping(entries), end)),
        },
        DescriptorView::Union(_, variants) => match long_at(bytes, pos) {
            Err(e) => Err(e),
            Ok((index, start)) => if 0 <= index < variants.len() {
                match decode_spec(variants[index as int], bytes, start, reg, level) {
                    Err(e) => Err(e),
                    Ok((value, end)) => Ok((ValueView::Union(index as nat, Box::new(value)), end)),
                }
            } else {
                Err(DecodeError::UnionIndexOutOfBounds)
            },
        },
        DescriptorView::Record(handle) => if handle < level && handle < reg.len() {
            match decode_fields(
                reg[handle as int].record,
                0,
                bytes,
                pos,
                Seq::empty(),
                reg,
                handle as nat,
            ) {
                Err(e) => Err(e),
                Ok((storage, end)) => Ok((ValueView::Record(storage), end)),
            }
        } else {
            Err(DecodeError::UnknownModel)
        },
        DescriptorView::Custom(_, inner) => match decode_spec(*inner, bytes, pos, reg, level) {
            Err(e) => Err(e),
            Ok((raw, end)) => match to_ruby_spec(*inner, raw) {
                None => Err(DecodeError::CustomTypeFailed),
                Some(host) => Ok((ValueView::Custom(Box::new(host)), end)),
            },
        },
    }
}

/// The blocks of an array from `pos` on, after the items in `acc`.
pub open spec fn decode_blocks(
    inner: DescriptorView,
    bytes: Seq<u8>,
    pos: int,
    acc: Seq<ValueView>,
    reg: RegistryView,
    level: nat,
) -> Result<(Seq<ValueView>, int), DecodeError>
    decreases level, 1nat, inner, 2 + bytes.len() - pos, 0nat,
{
    match len_at(bytes, pos) {
        Err(e) => Err(e),
        Ok((count, start)) => if count == 0 {
            Ok((acc, start))
        } else {
            match decode_items(inner, bytes, start, count as nat, acc, reg, level) {
                Err(e) => Err(e),
                Ok((items, end)) => if pos < end <= bytes.len() {
                    decode_blocks(inner, bytes, end, items, reg, level)
                } else {
                    Err(DecodeError::UnexpectedEnd)
                },
            }
        },
    }
}

/// `count` items from `pos` on, after the items in `acc`.
pub open spec fn decode_items(
    inner: DescriptorView,
    bytes: Seq<u8>,
    pos: int,
    count: nat,
    acc: Seq<ValueView>,
    reg: RegistryView,
    level: nat,
) -> Result<(Seq<ValueView>, int), DecodeError>
    decreases level, 1nat, inner, 1nat, count,
{
    if count == 0 {
        Ok((acc, pos))
    } else {
        match decode_spec(inner, bytes, pos, reg, level) {
            Err(e) => Err(e),
            Ok((item, next)) => decode_items(
                inner,
                bytes,
                next,
                (count - 1) as nat,
                acc.push(item),
                reg,
                level,
            ),
        }
    }
}

/// The blocks of a map from `pos` on, after the entries in `acc`.
pub open spec fn decode_entry_blocks(
    inner: DescriptorView,
    bytes: Seq<u8>,
    pos: int,
    acc: Seq<(Seq<u8>, ValueView)>,
    reg: RegistryView,
    level: nat,
) -> Result<(Seq<(Seq<u8>, ValueView)>, int), DecodeError>
    decreases level, 1nat, inner, 2 + bytes.len() - pos, 0nat,
{
    match len_at(bytes, pos) {
        Err(e) => Err(e),
        Ok((count, start)) => if count == 0 {
            Ok((acc, start))
        } else {
            match decode_entries(inner, bytes, start, count as nat, acc, reg, level) {
                Err(e) => Err(e),
                Ok((entries, end)) => if pos < end <= bytes.len() {
                    decode_entry_blocks(inner, bytes, end, entries, reg, level)
                } else {
                    Err(DecodeError::UnexpectedEnd)
                },
            }
        },
    }
}

/// `count` entries from `pos` on, after the entries in `acc`. A key read
/// twice keeps its place and takes the later value.
pub open spec fn decode_entries(
    inner: DescriptorView,
    bytes: Seq<u8>,
    pos: int,
    count: nat,
    acc: Seq<(Seq<u8>, ValueView)>,
    reg: RegistryView,
    level: nat,
) -> Result<(Seq<(Seq<u8>, ValueView)>, int), DecodeError>
    decreases level, 1nat, inner, 1nat, count,
{
    if count == 0 {
        Ok((acc, pos))
    } else {
        match text_at(bytes, pos) {
            Err(_) => Err(DecodeError::MapKeyNotString),
            Ok((key, start)) => match decode_spec(inner, bytes, start, reg, level) {
                Err(e) => Err(e),
                Ok((value, next)) => decode_entries(
                    inner,
                    bytes,
                    next,
                    (count - 1) as nat,
                    entries_insert(acc, key, value, 0),
                    reg,
                    level,
                ),
            },
        }
    }
}

/// The fields of a record from the `from`th on, after those in `acc`.
pub open spec fn decode_fields(
    record: RecordView,
    from: nat,
    bytes: Seq<u8>,
    pos: int,
    acc: Seq<(Seq<char>, ValueView)>,
    reg: RegistryView,
    level: nat,
) -> Result<(Seq<(Seq<char>, ValueView)>, int), DecodeError>
    decreases level + 1, 0nat, record, record.len() - from,
{
    if from >= record.len() {
        Ok((acc, pos))
    } else {
        match decode_spec(record[from as int].1.type_descriptor, bytes, pos, reg, level) {
            Err(e) => Err(e),
            Ok((value, next)) => decode_fields(
                record,
                from + 1,
                bytes,
                next,
                acc.push((record[from as int].0, value)),
                reg,
                level,
            ),
        }
    }
}

} // verus!
