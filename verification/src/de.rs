//! Reading intermediate values from the wire format.
//!
//! Decoding works on a buffer in memory and a position in it. Malformed
//! or truncated input ends in a `DecodeError`; nothing is read beyond the
//! buffer's end.

use crate::codec::{
    bytes_at,
    decode_blocks,
    decode_entries,
    decode_entry_blocks,
    decode_fields,
    decode_items,
    decode_spec,
    entries_insert,
    prefixed_at,
    text_at,
};
use crate::custom_types::CustomTypeHooks;
use crate::descriptors::{
    record_settled,
    CustomTypeConfiguration,
    RecordDescriptor,
    TypeDescriptor,
};
use crate::model_pool::ModelRegistry;
use crate::serializer::is_utf8;
use crate::values::{bytes_equal, AvromaticValue, HostValue, ModelStorage, ValueView};
use crate::varint::{decode_int, decode_len, decode_long, DecodeError};
use vstd::bytes::{u32_from_le_bytes, u64_from_le_bytes};
use vstd::prelude::*;
use vstd::slice::{slice_subrange, slice_to_vec};

verus! {

/// What was read, as the wire-format functions speak of it.
pub open spec fn decoded(r: Result<(AvromaticValue, usize), DecodeError>) -> Result<
    (ValueView, int),
    DecodeError,
> {
    match r {
        Ok((value, end)) => Ok((value@, end as int)),
        Err(e) => Err(e),
    }
}

/// The `size` bytes at `pos`.
pub fn read_bytes(bytes: &[u8], pos: usize, size: usize) -> (r: Result<(Vec<u8>, usize), DecodeError>)
    ensures
        match r {
            Ok((raw, end)) => bytes_at(bytes@, pos as int, size as int) == Ok::<
                (Seq<u8>, int),
                DecodeError,
            >((raw@, end as int)) && end == pos + size && end <= bytes.len(),
            Err(e) => bytes_at(bytes@, pos as int, size as int) == Err::<
                (Seq<u8>, int),
                DecodeError,
            >(e),
        },
{
    if pos <= bytes.len() && size <= bytes.len() - pos {
        Ok((slice_to_vec(slice_subrange(bytes, pos, pos + size)), pos + size))
    } else {
        Err(DecodeError::UnexpectedEnd)
    }
}

/// The length-prefixed byte string at `pos`.
pub fn read_prefixed(bytes: &[u8], pos: usize) -> (r: Result<(Vec<u8>, usize), DecodeError>)
    ensures
        match r {
            Ok((raw, end)) => prefixed_at(bytes@, pos as int) == Ok::<(Seq<u8>, int), DecodeError>(
                (raw@, end as int),
            ) && pos < end <= bytes.len(),
            Err(e) => prefixed_at(bytes@, pos as int) == Err::<(Seq<u8>, int), DecodeError>(e),
        },
{
    match decode_len(bytes, pos) {
        Err(e) => Err(e),
        Ok((size, start)) => read_bytes(bytes, start, size),
    }
}

/// The length-prefixed UTF-8 string at `pos`.
pub fn read_text(bytes: &[u8], pos: usize) -> (r: Result<(Vec<u8>, usize), DecodeError>)
    ensures
        match r {
            Ok((text, end)) => text_at(bytes@, pos as int) == Ok::<(Seq<u8>, int), DecodeError>(
                (text@, end as int),
            ) && pos < end <= bytes.len(),
            Err(e) => text_at(bytes@, pos as int) == Err::<(Seq<u8>, int), DecodeError>(e),
        },
{
    match read_prefixed(bytes, pos) {
        Err(e) => Err(e),
        Ok((text, end)) => {
            if is_utf8(text.as_slice()) {
                Ok((text, end))
            } else {
                Err(DecodeError::InvalidUtf8)
            }
        },
    }
}

/// Puts `value` under `key`: in the place of an entry with that key, at
/// the end where there is none.
pub(crate) fn insert_entry(
    entries: &mut Vec<(Vec<u8>, AvromaticValue)>,
    key: Vec<u8>,
    value: AvromaticValue,
    Ghost(views): Ghost<Seq<(Seq<u8>, ValueView)>>,
) -> (r: Ghost<Seq<(Seq<u8>, ValueView)>>)
    requires
        views.len() == old(entries).len(),
        forall|j: int|
            0 <= j < old(entries).len() ==> views[j] == (
                (#[trigger] old(entries)[j]).0@,
                old(entries)[j].1@,
            ),
    ensures
        r@ == entries_insert(views, key@, value@, 0),
        crate::values::keys_unique(views) ==> crate::values::keys_unique(r@),
        r@.len() == final(entries).len(),
        forall|j: int|
            0 <= j < final(entries).len() ==> r@[j] == (
                (#[trigger] final(entries)[j]).0@,
                final(entries)[j].1@,
            ),
{
    proof {
        if crate::values::keys_unique(views) {
            crate::codec::entries_insert_keeps(views, key@, value@, 0);
        }
    }
    let mut i: usize = 0;
    while i < entries.len()
        invariant
            i <= entries.len(),
            *entries == *old(entries),
            crate::values::keys_unique(views) ==> crate::values::keys_unique(
                entries_insert(views, key@, value@, 0),
            ),
            views.len() == entries.len(),
            forall|j: int|
                0 <= j < entries.len() ==> views[j] == ((#[trigger] entries[j]).0@, entries[j].1@),
            entries_insert(views, key@, value@, 0) == entries_insert(
                views,
                key@,
                value@,
                i as nat,
            ),
        decreases entries.len() - i,
    {
        if bytes_equal(entries[i].0.as_slice(), key.as_slice()) {
            let ghost replaced = views.update(i as int, (key@, value@));
            entries.set(i, (key, value));
            return Ghost(replaced);
        }
        i += 1;
    }
    let ghost pushed = views.push((key@, value@));
    entries.push((key, value));
    Ghost(pushed)
}

impl TypeDescriptor {
    /// Reads the value that starts at `pos`; gives it and the position
    /// behind it.
    ///
    /// Where no custom type of the tree has a hook the result is exactly
    /// what `decode_spec` states: the value and the position, or the
    /// error. Where one has, its hooks decide.
    pub fn decode<H: CustomTypeHooks>(
        &self,
        bytes: &[u8],
        pos: usize,
        registry: &ModelRegistry,
        hooks: &H,
    ) -> (r: Result<(AvromaticValue, usize), DecodeError>)
        ensures
            self@.settled(registry@) ==> decoded(r) == decode_spec(
                self@,
                bytes@,
                pos as int,
                registry@,
                registry@.len(),
            ),
            self.is_scalar() ==> decoded(r) == decode_spec(
                self@,
                bytes@,
                pos as int,
                registry@,
                registry@.len(),
            ),
            r matches Ok((_, end)) ==> pos <= end && (pos <= bytes.len() ==> end <= bytes.len()),
    {
        self.decode_below(bytes, pos, registry, hooks, registry.models.len())
    }

    /// As `decode`, following record handles only below `level`.
    pub(crate) fn decode_below<H: CustomTypeHooks>(
        &self,
        bytes: &[u8],
        pos: usize,
        registry: &ModelRegistry,
        hooks: &H,
        level: usize,
    ) -> (r: Result<(AvromaticValue, usize), DecodeError>)
        requires
            level <= registry@.len(),
        ensures
            self@.settled(registry@) ==> decoded(r) == decode_spec(
                self@,
                bytes@,
                pos as int,
                registry@,
                level as nat,
            ),
            self.is_scalar() ==> decoded(r) == decode_spec(
                self@,
                bytes@,
                pos as int,
                registry@,
                level as nat,
            ),
            r matches Ok((_, end)) ==> pos <= end && (pos <= bytes.len() ==> end <= bytes.len()),
        decreases level, 1nat, self, 0nat,
    {
        match self {
            TypeDescriptor::Array(inner) => match decode_array(
                inner,
                bytes,
                pos,
                registry,
                hooks,
                level,
            ) {
                Err(e) => Err(e),
                Ok((items, end)) => Ok((AvromaticValue::Array(items), end)),
            },
            TypeDescriptor::Mapping(inner) => match decode_map(
                inner,
                bytes,
                pos,
                registry,
                hooks,
                level,
            ) {
                Err(e) => Err(e),
                Ok((entries, end)) => Ok((AvromaticValue::Mapping(entries), end)),
            },
            TypeDescriptor::Union(_, variants) => match decode_long(bytes, pos) {
                Err(e) => Err(e),
                Ok((index, start)) => {
                    assert(self@->Union_1.len() == variants.len());
                    if index >= 0 && (index as u64) < (variants.len() as u64) {
                        let branch = index as usize;
                        assert(decreases_to!(self => self->Union_1));
                        assert(self@->Union_1[branch as int] == variants[branch as int]@);
                                                assert(self@.hook_free() ==> self@->Union_1[branch as int].hook_free());
 assert(self@.record_free() ==> self@->Union_1[branch as int].record_free());
                        match variants[branch].decode_below(
                            bytes,
                            start,
                            registry,
                            hooks,
                            level,
                        ) {
                            Err(e) => Err(e),
                            Ok((value, end)) => Ok(
                                (AvromaticValue::Union(branch, Box::new(value)), end),
                            ),
                        }
                    } else {
                        Err(DecodeError::UnionIndexOutOfBounds)
                    }
                },
            },
            TypeDescriptor::Record(handle) => {
                if *handle < level {
                    let model = &registry.models[*handle];
                    assert(registry@[*handle as int] == model@);
                    match decode_record(
                        &model.descriptor,
                        bytes,
                        pos,
                        registry,
                        hooks,
                        *handle,
                    ) {
                        Err(e) => Err(e),
                        Ok((storage, end)) => Ok((AvromaticValue::Record(storage), end)),
                    }
                } else {
                    Err(DecodeError::UnknownModel)
                }
            },
            TypeDescriptor::Custom(custom, inner) => match inner.decode_below(
                bytes,
                pos,
                registry,
                hooks,
                level,
            ) {
                Err(e) => Err(e),
                Ok((raw, end)) => match decode_custom(inner.to_ruby(&raw), custom, hooks) {
                    Err(e) => Err(e),
                    Ok(value) => Ok((value, end)),
                },
            },
            _ => self.decode_scalar(bytes, pos),
        }
    }
}

impl TypeDescriptor {
    /// Reads a value of a kind that holds no other value.
    pub(crate) fn decode_scalar(&self, bytes: &[u8], pos: usize) -> (r: Result<
        (AvromaticValue, usize),
        DecodeError,
    >)
        requires
            self.is_scalar(),
        ensures
            forall|reg: crate::descriptors::RegistryView, level: nat|
                decoded(r) == #[trigger] decode_spec(self@, bytes@, pos as int, reg, level),
            r matches Ok((_, end)) ==> pos <= end && (pos <= bytes.len() ==> end <= bytes.len()),
    {
        match self {
            TypeDescriptor::Null => Ok((AvromaticValue::Null, pos)),
            TypeDescriptor::Boolean => match read_bytes(bytes, pos, 1) {
                Err(e) => Err(e),
                Ok((raw, end)) => {
                    if raw[0] == 0 {
                        Ok((AvromaticValue::False, end))
                    } else if raw[0] == 1 {
                        Ok((AvromaticValue::True, end))
                    } else {
                        Err(DecodeError::NotABool)
                    }
                },
            },
            TypeDescriptor::Int | TypeDescriptor::Date => match decode_int(bytes, pos) {
                Err(e) => Err(e),
                Ok((n, end)) => Ok((AvromaticValue::Long(n as i64), end)),
            },
            TypeDescriptor::Long
            | TypeDescriptor::TimestampMillis
            | TypeDescriptor::TimestampMicros => match decode_long(bytes, pos) {
                Err(e) => Err(e),
                Ok((n, end)) => Ok((AvromaticValue::Long(n), end)),
            },
            TypeDescriptor::Float => match read_bytes(bytes, pos, 4) {
                Err(e) => Err(e),
                Ok((raw, end)) => Ok((AvromaticValue::Float(u32_from_le_bytes(raw.as_slice())), end)),
            },
            TypeDescriptor::Double => match read_bytes(bytes, pos, 8) {
                Err(e) => Err(e),
                Ok((raw, end)) => Ok(
                    (AvromaticValue::Double(u64_from_le_bytes(raw.as_slice())), end),
                ),
            },
            TypeDescriptor::Bytes => match read_prefixed(bytes, pos) {
                Err(e) => Err(e),
                Ok((raw, end)) => Ok((AvromaticValue::String(raw), end)),
            },
            TypeDescriptor::String => match read_text(bytes, pos) {
                Err(e) => Err(e),
                Ok((text, end)) => Ok((AvromaticValue::String(text), end)),
            },
            TypeDescriptor::Fixed(size) => match read_bytes(bytes, pos, *size) {
                Err(e) => Err(e),
                Ok((raw, end)) => Ok((AvromaticValue::String(raw), end)),
            },
            TypeDescriptor::Enum(symbols) => match decode_int(bytes, pos) {
                Err(e) => Err(e),
                Ok((index, end)) => {
                    assert(self@->Enum_0.len() == symbols.len());
                    if index >= 0 && (index as usize) < symbols.len() {
                        assert(self@->Enum_0[index as int] == symbols[index as int]@);
                        let symbol = slice_to_vec(symbols[index as usize].as_str().as_bytes());
                        Ok((AvromaticValue::String(symbol), end))
                    } else {
                        Err(DecodeError::EnumIndexOutOfBounds)
                    }
                },
            },
            _ => Ok((AvromaticValue::Null, pos)),
        }
    }
}

/// A custom value from the host form of what was read under the
/// underlying descriptor: what the `from_avro` hook makes of it.
pub fn decode_custom<H: CustomTypeHooks>(
    raw: Option<HostValue>,
    custom: &CustomTypeConfiguration,
    hooks: &H,
) -> (r: Result<AvromaticValue, DecodeError>)
    ensures
        raw is None ==> r == Err::<AvromaticValue, DecodeError>(DecodeError::CustomTypeFailed),
        r matches Ok(value) ==> value is Custom,
        r matches Err(e) ==> e == DecodeError::CustomTypeFailed,
        match raw {
            Some(host) => !custom.deserialize_applies(&host) ==> (r matches Ok(value) && value@
                == ValueView::Custom(Box::new(host@))),
            None => true,
        },
{
    match raw {
        None => Err(DecodeError::CustomTypeFailed),
        Some(host) => match custom.deserialize(&host, hooks) {
            None => Err(DecodeError::CustomTypeFailed),
            Some(wrapped) => Ok(AvromaticValue::Custom(Box::new(wrapped))),
        },
    }
}

/// The items of an array: block after block until the block of no items.
pub(crate) fn decode_array<H: CustomTypeHooks>(
    inner: &TypeDescriptor,
    bytes: &[u8],
    pos: usize,
    registry: &ModelRegistry,
    hooks: &H,
    level: usize,
) -> (r: Result<(Vec<AvromaticValue>, usize), DecodeError>)
    requires
        level <= registry@.len(),
    ensures
        inner@.settled(registry@) ==> match r {
            Ok((items, end)) => decode_blocks(
                inner@,
                bytes@,
                pos as int,
                Seq::empty(),
                registry@,
                level as nat,
            ) == Ok::<(Seq<ValueView>, int), DecodeError>(
                (AvromaticValue::Array(items)@->Array_0, end as int),
            ),
            Err(e) => decode_blocks(inner@, bytes@, pos as int, Seq::empty(), registry@, level as nat)
                == Err::<(Seq<ValueView>, int), DecodeError>(e),
        },
        r matches Ok((_, end)) ==> pos < end <= bytes.len(),
    decreases level, 1nat, inner, 1nat,
{
    let ghost plain = inner@.settled(registry@);
    let ghost whole = decode_blocks(inner@, bytes@, pos as int, Seq::empty(), registry@, level as nat);
    let ghost mut acc: Seq<ValueView> = Seq::empty();
    let mut items: Vec<AvromaticValue> = Vec::new();
    let mut at: usize = pos;
    loop
        invariant
            level <= registry@.len(),
            plain == (inner@.settled(registry@)),
            whole == decode_blocks(inner@, bytes@, pos as int, Seq::empty(), registry@, level as nat),
            pos <= at,
            at > pos ==> at <= bytes.len(),
            acc.len() == items.len(),
            forall|j: int| 0 <= j < items.len() ==> acc[j] == (#[trigger] items[j])@,
            plain ==> whole == decode_blocks(inner@, bytes@, at as int, acc, registry@, level as nat),
        decreases bytes.len() - at + (if at == pos { 1int } else { 0int }),
    {
        let (count, start) = match decode_len(bytes, at) {
            Err(e) => {
                return Err(e);
            },
            Ok(pair) => pair,
        };
        if count == 0 {
            assert(AvromaticValue::Array(items)@->Array_0 =~= acc);
            return Ok((items, start));
        }
        let ghost block_acc = acc;
        let mut cur: usize = start;
        let mut k: usize = 0;
        while k < count
            invariant
                level <= registry@.len(),
                plain == (inner@.settled(registry@)),
                k <= count,
                start <= cur <= bytes.len(),
                pos <= at < start,
                whole == decode_blocks(inner@, bytes@, pos as int, Seq::empty(), registry@, level as nat),
                acc.len() == items.len(),
                forall|j: int| 0 <= j < items.len() ==> acc[j] == (#[trigger] items[j])@,
                plain ==> decode_items(
                    inner@,
                    bytes@,
                    start as int,
                    count as nat,
                    block_acc,
                    registry@,
                    level as nat,
                ) == decode_items(
                    inner@,
                    bytes@,
                    cur as int,
                    (count - k) as nat,
                    acc,
                    registry@,
                    level as nat,
                ),
                plain ==> whole == decode_blocks(
                    inner@,
                    bytes@,
                    at as int,
                    block_acc,
                    registry@,
                    level as nat,
                ),
                crate::varint::len_at(bytes@, at as int) == Ok::<(usize, int), DecodeError>(
                    (count, start as int),
                ),
                count > 0,
            decreases count - k,
        {
            match inner.decode_below(bytes, cur, registry, hooks, level) {
                Err(e) => {
                    proof {
                        if plain {
                            assert(decode_items(
                                inner@,
                                bytes@,
                                cur as int,
                                (count - k) as nat,
                                acc,
                                registry@,
                                level as nat,
                            ) == Err::<(Seq<ValueView>, int), DecodeError>(e));
                            assert(decode_blocks(
                                inner@,
                                bytes@,
                                at as int,
                                block_acc,
                                registry@,
                                level as nat,
                            ) == Err::<(Seq<ValueView>, int), DecodeError>(e));
                        }
                    }
                    return Err(e);
                },
                Ok((item, next)) => {
                    proof {
                        acc = acc.push(item@);
                    }
                    items.push(item);
                    cur = next;
                },
            }
            k += 1;
        }
        at = cur;
    }
}

/// The entries of a map: block after block until the block of no
/// entries. A key read twice keeps its place and takes the later value.
pub(crate) fn decode_map<H: CustomTypeHooks>(
    inner: &TypeDescriptor,
    bytes: &[u8],
    pos: usize,
    registry: &ModelRegistry,
    hooks: &H,
    level: usize,
) -> (r: Result<(Vec<(Vec<u8>, AvromaticValue)>, usize), DecodeError>)
    requires
        level <= registry@.len(),
    ensures
        inner@.settled(registry@) ==> match r {
            Ok((entries, end)) => decode_entry_blocks(
                inner@,
                bytes@,
                pos as int,
                Seq::empty(),
                registry@,
                level as nat,
            ) == Ok::<(Seq<(Seq<u8>, ValueView)>, int), DecodeError>(
                (AvromaticValue::Mapping(entries)@->Mapping_0, end as int),
            ),
            Err(e) => decode_entry_blocks(
                inner@,
                bytes@,
                pos as int,
                Seq::empty(),
                registry@,
                level as nat,
            ) == Err::<(Seq<(Seq<u8>, ValueView)>, int), DecodeError>(e),
        },
        r matches Ok((_, end)) ==> pos < end <= bytes.len(),
    decreases level, 1nat, inner, 1nat,
{
    let ghost plain = inner@.settled(registry@);
    let ghost whole = decode_entry_blocks(
        inner@,
        bytes@,
        pos as int,
        Seq::empty(),
        registry@,
        level as nat,
    );
    let ghost mut acc: Seq<(Seq<u8>, ValueView)> = Seq::empty();
    let mut entries: Vec<(Vec<u8>, AvromaticValue)> = Vec::new();
    let mut at: usize = pos;
    loop
        invariant
            level <= registry@.len(),
            plain == (inner@.settled(registry@)),
            whole == decode_entry_blocks(
                inner@,
                bytes@,
                pos as int,
                Seq::empty(),
                registry@,
                level as nat,
            ),
            pos <= at,
            at > pos ==> at <= bytes.len(),
            acc.len() == entries.len(),
            forall|j: int|
                0 <= j < entries.len() ==> acc[j] == ((#[trigger] entries[j]).0@, entries[j].1@),
            plain ==> whole == decode_entry_blocks(
                inner@,
                bytes@,
                at as int,
                acc,
                registry@,
                level as nat,
            ),
        decreases bytes.len() - at + (if at == pos { 1int } else { 0int }),
    {
        let (count, start) = match decode_len(bytes, at) {
            Err(e) => {
                return Err(e);
            },
            Ok(pair) => pair,
        };
        if count == 0 {
            assert(AvromaticValue::Mapping(entries)@->Mapping_0 =~= acc);
            return Ok((entries, start));
        }
        let ghost block_acc = acc;
        let mut cur: usize = start;
        let mut k: usize = 0;
        while k < count
            invariant
                level <= registry@.len(),
                plain == (inner@.settled(registry@)),
                k <= count,
                start <= cur <= bytes.len(),
                pos <= at < start,
                whole == decode_entry_blocks(
                    inner@,
                    bytes@,
                    pos as int,
                    Seq::empty(),
                    registry@,
                    level as nat,
                ),
                acc.len() == entries.len(),
                forall|j: int|
                    0 <= j < entries.len() ==> acc[j] == ((#[trigger] entries[j]).0@, entries[j].1@),
                plain ==> decode_entries(
                    inner@,
                    bytes@,
                    start as int,
                    count as nat,
                    block_acc,
                    registry@,
                    level as nat,
                ) == decode_entries(
                    inner@,
                    bytes@,
                    cur as int,
                    (count - k) as nat,
                    acc,
                    registry@,
                    level as nat,
                ),
                plain ==> whole == decode_entry_blocks(
                    inner@,
                    bytes@,
                    at as int,
                    block_acc,
                    registry@,
                    level as nat,
                ),
                crate::varint::len_at(bytes@, at as int) == Ok::<(usize, int), DecodeError>(
                    (count, start as int),
                ),
                count > 0,
            decreases count - k,
        {
            let (key, value_at) = match read_text(bytes, cur) {
                Err(_) => {
                    proof {
                        if plain {
                            assert(decode_entries(
                                inner@,
                                bytes@,
                                cur as int,
                                (count - k) as nat,
                                acc,
                                registry@,
                                level as nat,
                            ) == Err::<(Seq<(Seq<u8>, ValueView)>, int), DecodeError>(
                                DecodeError::MapKeyNotString,
                            ));
                            assert(decode_entry_blocks(
                                inner@,
                                bytes@,
                                at as int,
                                block_acc,
                                registry@,
                                level as nat,
                            ) == Err::<(Seq<(Seq<u8>, ValueView)>, int), DecodeError>(
                                DecodeError::MapKeyNotString,
                            ));
                        }
                    }
                    return Err(DecodeError::MapKeyNotString);
                },
                Ok(pair) => pair,
            };
            match inner.decode_below(bytes, value_at, registry, hooks, level) {
                Err(e) => {
                    proof {
                        if plain {
                            assert(decode_entries(
                                inner@,
                                bytes@,
                                cur as int,
                                (count - k) as nat,
                                acc,
                                registry@,
                                level as nat,
                            ) == Err::<(Seq<(Seq<u8>, ValueView)>, int), DecodeError>(e));
                            assert(decode_entry_blocks(
                                inner@,
                                bytes@,
                                at as int,
                                block_acc,
                                registry@,
                                level as nat,
                            ) == Err::<(Seq<(Seq<u8>, ValueView)>, int), DecodeError>(e));
                        }
                    }
                    return Err(e);
                },
                Ok((value, next)) => {
                    let updated = insert_entry(&mut entries, key, value, Ghost(acc));
                    proof {
                        acc = updated@;
                    }
                    cur = next;
                },
            }
            k += 1;
        }
        at = cur;
    }
}

/// The fields of a record, in declared order.
pub(crate) fn decode_record<H: CustomTypeHooks>(
    record: &RecordDescriptor,
    bytes: &[u8],
    pos: usize,
    registry: &ModelRegistry,
    hooks: &H,
    level: usize,
) -> (r: Result<(ModelStorage, usize), DecodeError>)
    requires
        level <= registry@.len(),
    ensures
        record_settled(record@, registry@) ==> match r {
            Ok((storage, end)) => decode_fields(
                record@,
                0,
                bytes@,
                pos as int,
                Seq::empty(),
                registry@,
                level as nat,
            ) == Ok::<(Seq<(Seq<char>, ValueView)>, int), DecodeError>((storage@, end as int)),
            Err(e) => decode_fields(record@, 0, bytes@, pos as int, Seq::empty(), registry@, level as nat)
                == Err::<(Seq<(Seq<char>, ValueView)>, int), DecodeError>(e),
        },
        r matches Ok((_, end)) ==> pos <= end && (pos <= bytes.len() ==> end <= bytes.len()),
    decreases level + 1, 0nat, record, 0nat,
{
    let ghost plain = record_settled(record@, registry@);
    let ghost whole = decode_fields(
        record@,
        0,
        bytes@,
        pos as int,
        Seq::empty(),
        registry@,
        level as nat,
    );
    let ghost mut acc: Seq<(Seq<char>, ValueView)> = Seq::empty();
    let mut attributes: Vec<(String, AvromaticValue)> = Vec::new();
    let mut at: usize = pos;
    let mut i: usize = 0;
    while i < record.attributes.len()
        invariant
            level <= registry@.len(),
            plain == (record_settled(record@, registry@)),
            whole == decode_fields(record@, 0, bytes@, pos as int, Seq::empty(), registry@, level as nat),
            i <= record.attributes.len(),
            record@.len() == record.attributes.len(),
            pos <= at,
            pos <= bytes.len() ==> at <= bytes.len(),
            acc.len() == attributes.len(),
            forall|j: int|
                0 <= j < attributes.len() ==> acc[j] == ((#[trigger] attributes[j]).0@, attributes[j].1@),
            plain ==> whole == decode_fields(
                record@,
                i as nat,
                bytes@,
                at as int,
                acc,
                registry@,
                level as nat,
            ),
        decreases record.attributes.len() - i,
    {
        let field = &record.attributes[i];
        assert(record@[i as int] == (field.0@, field.1@));
        match field.1.type_descriptor.decode_below(bytes, at, registry, hooks, level) {
            Err(e) => {
                return Err(e);
            },
            Ok((value, next)) => {
                proof {
                    acc = acc.push((field.0@, value@));
                }
                attributes.push((field.0.clone(), value));
                at = next;
            },
        }
        i += 1;
    }
    let storage = ModelStorage { attributes };
    assert(storage@ =~= acc);
    Ok((storage, at))
}

} // verus!
