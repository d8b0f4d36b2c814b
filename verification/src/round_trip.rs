//! What is written reads back: the values that the wire format carries
//! exactly, and the proof that decoding undoes encoding on them.

use crate::codec::{
    attribute_value,
    decode_blocks,
    decode_entries,
    decode_entry_blocks,
    decode_fields,
    decode_items,
    decode_spec,
    encode_entries,
    encode_fields,
    encode_items,
    encode_spec,
    entries_insert,
    length_prefixed,
    prefixed_at,
    symbol_position,
    EncodeError,
};
use crate::descriptors::{DescriptorView, RecordView, RegistryView};
use crate::builder::fields_unique;
use crate::values::{keys_unique, ValueView};
use crate::varint::{
    holds_at,
    holds_at_split,
    len_at,
    long_bytes,
    long_round_trip,
    varint_bytes_len,
    zigzag,
    DecodeError,
    MAX_ALLOCATION_BYTES,
};
use vstd::bytes::{lemma_auto_spec_u32_to_from_le_bytes, lemma_auto_spec_u64_to_from_le_bytes};
use vstd::prelude::*;
use vstd::utf8::{encode_utf8, valid_utf8};

verus! {

/// Whether the wire format carries `v` under `d` exactly: `v` is of the
/// kind that `d` describes, in the form in which the decoder gives it.
///
/// A union value carries its branch. An int or a date fits 32 bits. A
/// string is UTF-8, a fixed has its size, an enum string is one of the
/// symbols. Lengths and counts are within what the decoder accepts. A map
/// has no key twice and its keys are UTF-8. A record holds exactly the
/// fields of its model, in declared order. No custom type occurs.
pub open spec fn wire_exact(d: DescriptorView, v: ValueView, reg: RegistryView, level: nat) -> bool
    decreases level, 1nat, d,
{
    match d {
        DescriptorView::Null => v is Null,
        DescriptorView::Boolean => v is True || v is False,
        DescriptorView::String => v matches ValueView::String(bytes) && valid_utf8(bytes)
            && bytes.len() <= MAX_ALLOCATION_BYTES,
        DescriptorView::Bytes => v matches ValueView::String(bytes) && bytes.len()
            <= MAX_ALLOCATION_BYTES,
        DescriptorView::Enum(symbols) => v matches ValueView::String(bytes) && (symbol_position(
            symbols,
            bytes,
            0,
        ) matches Some(index) && index <= 0x7fff_ffff),
        DescriptorView::Int | DescriptorView::Date => v matches ValueView::Long(n) && -0x8000_0000
            <= n <= 0x7fff_ffff,
        DescriptorView::Long
        | DescriptorView::TimestampMillis
        | DescriptorView::TimestampMicros => v is Long,
        DescriptorView::Float => v is Float,
        DescriptorView::Double => v is Double,
        DescriptorView::Fixed(size) => v matches ValueView::String(bytes) && bytes.len() == size,
        DescriptorView::Array(inner) => v matches ValueView::Array(items) && items.len()
            <= MAX_ALLOCATION_BYTES && (forall|i: int|
            0 <= i < items.len() ==> wire_exact(*inner, #[trigger] items[i], reg, level)),
        DescriptorView::Mapping(inner) => v matches ValueView::Mapping(entries) && entries.len()
            <= MAX_ALLOCATION_BYTES && keys_unique(entries) && (forall|i: int|
            0 <= i < entries.len() ==> {
                &&& valid_utf8((#[trigger] entries[i]).0)
                &&& entries[i].0.len() <= MAX_ALLOCATION_BYTES
                &&& wire_exact(*inner, entries[i].1, reg, level)
            }),
        DescriptorView::Union(_, variants) => v matches ValueView::Union(index, value) && index
            < variants.len() && index <= 0x7fff_ffff_ffff_ffff && wire_exact(
            variants[index as int],
            *value,
            reg,
            level,
        ),
        DescriptorView::Record(handle) => v matches ValueView::Record(storage) && handle < level
            && handle < reg.len() && storage.len() == reg[handle as int].record.len()
            && fields_unique(reg[handle as int].record) && (forall|i: int|
            0 <= i < storage.len() ==> {
                &&& (#[trigger] storage[i]).0 == reg[handle as int].record[i].0
                &&& wire_exact(
                    reg[handle as int].record[i].1.type_descriptor,
                    storage[i].1,
                    reg,
                    handle as nat,
                )
            }),
        DescriptorView::Custom(_, _) => false,
    }
}

/// Where `symbol_position` finds a symbol, the symbol spells the bytes.
pub proof fn symbol_position_spells(symbols: Seq<Seq<char>>, bytes: Seq<u8>, from: nat)
    ensures
        symbol_position(symbols, bytes, from) matches Some(index) ==> from <= index < symbols.len()
            && encode_utf8(symbols[index as int]) == bytes,
    decreases symbols.len() - from,
{
    if from < symbols.len() && encode_utf8(symbols[from as int]) != bytes {
        symbol_position_spells(symbols, bytes, from + 1);
    }
}

/// A length-prefixed string reads back.
pub proof fn prefixed_round_trip(raw: Seq<u8>, bytes: Seq<u8>, pos: int)
    requires
        raw.len() <= MAX_ALLOCATION_BYTES,
        holds_at(bytes, pos, length_prefixed(raw)),
    ensures
        prefixed_at(bytes, pos) == Ok::<(Seq<u8>, int), DecodeError>(
            (raw, pos + length_prefixed(raw).len()),
        ),
{
    let size = raw.len() as i64;
    holds_at_split(bytes, pos, long_bytes(size), raw);
    long_round_trip(size, bytes, pos);
}

proof fn insert_of_new_key(
    entries: Seq<(Seq<u8>, ValueView)>,
    key: Seq<u8>,
    value: ValueView,
    from: nat,
)
    requires
        forall|i: int| from <= i < entries.len() ==> (#[trigger] entries[i]).0 != key,
    ensures
        entries_insert(entries, key, value, from) == entries.push((key, value)),
    decreases entries.len() - from,
{
    if from < entries.len() {
        insert_of_new_key(entries, key, value, from + 1);
    }
}

proof fn attribute_of_distinct(storage: Seq<(Seq<char>, ValueView)>, index: int, from: nat)
    requires
        0 <= index < storage.len(),
        from <= index,
        forall|i: int| from <= i < index ==> (#[trigger] storage[i]).0 != storage[index].0,
    ensures
        attribute_value(storage, storage[index].0, from) == storage[index].1,
    decreases index - from,
{
    if from < index {
        attribute_of_distinct(storage, index, from + 1);
    }
}

/// Decoding undoes encoding: a value that the wire format carries exactly
/// is written without error, and wherever a buffer holds what was
/// written, the decoder reads the value back and stops right behind it.
pub proof fn round_trip(
    d: DescriptorView,
    v: ValueView,
    reg: RegistryView,
    level: nat,
    bytes: Seq<u8>,
    pos: int,
)
    requires
        wire_exact(d, v, reg, level),
    ensures
        encode_spec(d, v, reg, level) is Ok,
        holds_at(bytes, pos, encode_spec(d, v, reg, level)->Ok_0) ==> decode_spec(
            d,
            bytes,
            pos,
            reg,
            level,
        ) == Ok::<(ValueView, int), DecodeError>(
            (v, pos + encode_spec(d, v, reg, level)->Ok_0.len()),
        ),
    decreases level, 1nat, d, 0nat,
{
    match d {
        DescriptorView::Array(_) => array_round_trip(d, v, reg, level, bytes, pos),
        DescriptorView::Mapping(_) => map_round_trip(d, v, reg, level, bytes, pos),
        DescriptorView::Union(_, variants) => {
            let index = v->Union_0;
            let value = *v->Union_1;
            round_trip(variants[index as int], value, reg, level, bytes, pos);
            let tag = long_bytes(index as i64);
            let body = encode_spec(variants[index as int], value, reg, level)->Ok_0;
            if holds_at(bytes, pos, tag + body) {
                holds_at_split(bytes, pos, tag, body);
                long_round_trip(index as i64, bytes, pos);
                round_trip(variants[index as int], value, reg, level, bytes, pos + tag.len());
            }
        },
        DescriptorView::Record(handle) => {
            let storage = v->Record_0;
            let record = reg[handle as int].record;
            fields_round_trip(record, 0, storage, reg, handle as nat, bytes, pos);
            assert(storage.subrange(0, 0) =~= Seq::<(Seq<char>, ValueView)>::empty());
            assert(storage.subrange(0, storage.len() as int) =~= storage);
        },
        DescriptorView::Custom(_, _) => {},
        DescriptorView::String | DescriptorView::Bytes | DescriptorView::Fixed(_) => {
            text_round_trip(d, v, reg, level, bytes, pos)
        },
        DescriptorView::Float | DescriptorView::Double | DescriptorView::Boolean | DescriptorView::Null => {
            bits_round_trip(d, v, reg, level, bytes, pos)
        },
        _ => number_round_trip(d, v, reg, level, bytes, pos),
    }
}

/// The round trip for what coercion gives: where a host value coerces
/// to a value that the wire format carries exactly, writing that value
/// and reading the bytes gives the value again.
pub proof fn coerced_round_trip(
    d: DescriptorView,
    host: crate::values::HostView,
    reg: RegistryView,
    level: nat,
    bytes: Seq<u8>,
    pos: int,
)
    requires
        crate::coercion::coerce_spec(d, host, reg, level) is Ok,
        wire_exact(d, crate::coercion::coerce_spec(d, host, reg, level)->Ok_0, reg, level),
    ensures
        encode_spec(d, crate::coercion::coerce_spec(d, host, reg, level)->Ok_0, reg, level) is Ok,
        holds_at(
            bytes,
            pos,
            encode_spec(d, crate::coercion::coerce_spec(d, host, reg, level)->Ok_0, reg, level)->Ok_0,
        ) ==> (decode_spec(d, bytes, pos, reg, level) matches Ok((value, _)) && value
            == crate::coercion::coerce_spec(d, host, reg, level)->Ok_0),
{
    round_trip(d, crate::coercion::coerce_spec(d, host, reg, level)->Ok_0, reg, level, bytes, pos);
}

/// An array or a map without items is written as a single zero byte, and
/// wherever a zero byte stands, an array or a map without items is read,
/// whatever follows the byte.
pub proof fn empty_block_is_zero(
    inner: DescriptorView,
    reg: RegistryView,
    level: nat,
    bytes: Seq<u8>,
    pos: int,
)
    ensures
        encode_spec(
            DescriptorView::Array(Box::new(inner)),
            ValueView::Array(Seq::empty()),
            reg,
            level,
        ) == Ok::<Seq<u8>, EncodeError>(seq![0u8]),
        encode_spec(
            DescriptorView::Mapping(Box::new(inner)),
            ValueView::Mapping(Seq::empty()),
            reg,
            level,
        ) == Ok::<Seq<u8>, EncodeError>(seq![0u8]),
        0 <= pos < bytes.len() && bytes[pos] == 0 ==> decode_spec(
            DescriptorView::Array(Box::new(inner)),
            bytes,
            pos,
            reg,
            level,
        ) == Ok::<(ValueView, int), DecodeError>((ValueView::Array(Seq::empty()), pos + 1)),
        0 <= pos < bytes.len() && bytes[pos] == 0 ==> decode_spec(
            DescriptorView::Mapping(Box::new(inner)),
            bytes,
            pos,
            reg,
            level,
        ) == Ok::<(ValueView, int), DecodeError>((ValueView::Mapping(Seq::empty()), pos + 1)),
{
    let none = Seq::<ValueView>::empty();
    let blank = Seq::<(Seq<u8>, ValueView)>::empty();
    assert(encode_items(inner, none, 0, reg, level) == Ok::<Seq<u8>, EncodeError>(Seq::empty()));
    assert(encode_entries(inner, blank, 0, reg, level) == Ok::<Seq<u8>, EncodeError>(Seq::empty()));
    if 0 <= pos < bytes.len() && bytes[pos] == 0 {
        assert(long_bytes(0i64) =~= seq![0u8]);
        assert(bytes.subrange(pos, pos + 1) =~= seq![0u8]);
        long_round_trip(0i64, bytes, pos);
        assert(len_at(bytes, pos) == Ok::<(usize, int), DecodeError>((0usize, pos + 1)));
        assert(decode_blocks(inner, bytes, pos, none, reg, level) == Ok::<
            (Seq<ValueView>, int),
            DecodeError,
        >((none, pos + 1)));
        assert(decode_entry_blocks(inner, bytes, pos, blank, reg, level) == Ok::<
            (Seq<(Seq<u8>, ValueView)>, int),
            DecodeError,
        >((blank, pos + 1)));
    }
}

proof fn text_round_trip(
    d: DescriptorView,
    v: ValueView,
    reg: RegistryView,
    level: nat,
    bytes: Seq<u8>,
    pos: int,
)
    requires
        wire_exact(d, v, reg, level),
        d is String || d is Bytes || d is Fixed,
    ensures
        encode_spec(d, v, reg, level) is Ok,
        holds_at(bytes, pos, encode_spec(d, v, reg, level)->Ok_0) ==> decode_spec(
            d,
            bytes,
            pos,
            reg,
            level,
        ) == Ok::<(ValueView, int), DecodeError>(
            (v, pos + encode_spec(d, v, reg, level)->Ok_0.len()),
        ),
{
    let raw = v->String_0;
    if !(d is Fixed) && holds_at(bytes, pos, length_prefixed(raw)) {
        prefixed_round_trip(raw, bytes, pos);
    }
}

proof fn bits_round_trip(
    d: DescriptorView,
    v: ValueView,
    reg: RegistryView,
    level: nat,
    bytes: Seq<u8>,
    pos: int,
)
    requires
        wire_exact(d, v, reg, level),
        d is Float || d is Double || d is Boolean || d is Null,
    ensures
        encode_spec(d, v, reg, level) is Ok,
        holds_at(bytes, pos, encode_spec(d, v, reg, level)->Ok_0) ==> decode_spec(
            d,
            bytes,
            pos,
            reg,
            level,
        ) == Ok::<(ValueView, int), DecodeError>(
            (v, pos + encode_spec(d, v, reg, level)->Ok_0.len()),
        ),
{
    lemma_auto_spec_u32_to_from_le_bytes();
    lemma_auto_spec_u64_to_from_le_bytes();
    if d is Boolean {
        let enc = encode_spec(d, v, reg, level)->Ok_0;
        if holds_at(bytes, pos, enc) {
            assert(bytes.subrange(pos, pos + 1)[0] == enc[0]);
        }
    }
}

proof fn number_round_trip(
    d: DescriptorView,
    v: ValueView,
    reg: RegistryView,
    level: nat,
    bytes: Seq<u8>,
    pos: int,
)
    requires
        wire_exact(d, v, reg, level),
        d is Int || d is Date || d is Long || d is TimestampMillis || d is TimestampMicros
            || d is Enum,
    ensures
        encode_spec(d, v, reg, level) is Ok,
        holds_at(bytes, pos, encode_spec(d, v, reg, level)->Ok_0) ==> decode_spec(
            d,
            bytes,
            pos,
            reg,
            level,
        ) == Ok::<(ValueView, int), DecodeError>(
            (v, pos + encode_spec(d, v, reg, level)->Ok_0.len()),
        ),
{
    match d {
        DescriptorView::Enum(symbols) => {
            let raw = v->String_0;
            symbol_position_spells(symbols, raw, 0);
            let index = symbol_position(symbols, raw, 0)->Some_0;
            let n = index as i64;
            if holds_at(bytes, pos, long_bytes(n)) {
                long_round_trip(n, bytes, pos);
            }
        },
        DescriptorView::Int | DescriptorView::Date => {
            let n = v->Long_0;
            if holds_at(bytes, pos, long_bytes(n)) {
                long_round_trip(n, bytes, pos);
            }
        },
        _ => {
            let n = v->Long_0;
            if holds_at(bytes, pos, long_bytes(n)) {
                long_round_trip(n, bytes, pos);
            }
        },
    }
}

proof fn array_round_trip(
    d: DescriptorView,
    v: ValueView,
    reg: RegistryView,
    level: nat,
    bytes: Seq<u8>,
    pos: int,
)
    requires
        wire_exact(d, v, reg, level),
        d is Array,
    ensures
        encode_spec(d, v, reg, level) is Ok,
        holds_at(bytes, pos, encode_spec(d, v, reg, level)->Ok_0) ==> decode_spec(
            d,
            bytes,
            pos,
            reg,
            level,
        ) == Ok::<(ValueView, int), DecodeError>(
            (v, pos + encode_spec(d, v, reg, level)->Ok_0.len()),
        ),
    decreases level, 1nat, *d->Array_0, v->Array_0.len() + 2,
{
    let inner = d->Array_0;
    let items = v->Array_0;
    items_round_trip(*inner, items, 0, reg, level, bytes, pos, Seq::empty());
    let body = encode_items(*inner, items, 0, reg, level)->Ok_0;
    let enc = encode_spec(d, v, reg, level)->Ok_0;
    let none = Seq::<ValueView>::empty();
    if holds_at(bytes, pos, enc) {
        assert(long_bytes(0i64) =~= seq![0u8]);
        if items.len() == 0 {
            assert(enc == seq![0u8]);
            long_round_trip(0i64, bytes, pos);
            assert(len_at(bytes, pos) == Ok::<(usize, int), DecodeError>((0usize, pos + 1)));
            assert(items =~= none);
            assert(decode_blocks(*inner, bytes, pos, none, reg, level) == Ok::<
                (Seq<ValueView>, int),
                DecodeError,
            >((none, pos + 1)));
        } else {
            let size = items.len() as i64;
            varint_bytes_len(zigzag(size));
            let count = long_bytes(size);
            assert(enc =~= count + (body + seq![0u8]));
            holds_at_split(bytes, pos, count, body + seq![0u8]);
            holds_at_split(bytes, pos + count.len(), body, seq![0u8]);
            long_round_trip(size, bytes, pos);
            let start = pos + count.len();
            assert(len_at(bytes, pos) == Ok::<(usize, int), DecodeError>(
                (items.len() as usize, start),
            ));
            items_round_trip(*inner, items, 0, reg, level, bytes, start, none);
            let end = start + body.len();
            assert(none + items.subrange(0, items.len() as int) =~= items);
            assert(decode_items(*inner, bytes, start, items.len(), none, reg, level) == Ok::<
                (Seq<ValueView>, int),
                DecodeError,
            >((items, end)));
            long_round_trip(0i64, bytes, end);
            assert(len_at(bytes, end) == Ok::<(usize, int), DecodeError>((0usize, end + 1)));
            assert(decode_blocks(*inner, bytes, end, items, reg, level) == Ok::<
                (Seq<ValueView>, int),
                DecodeError,
            >((items, end + 1)));
            assert(pos < end <= bytes.len());
            assert(decode_blocks(*inner, bytes, pos, none, reg, level) == Ok::<
                (Seq<ValueView>, int),
                DecodeError,
            >((items, end + 1)));
            assert(enc.len() == count.len() + body.len() + 1);
        }
        assert(v == ValueView::Array(items));
    }
}

proof fn map_round_trip(
    d: DescriptorView,
    v: ValueView,
    reg: RegistryView,
    level: nat,
    bytes: Seq<u8>,
    pos: int,
)
    requires
        wire_exact(d, v, reg, level),
        d is Mapping,
    ensures
        encode_spec(d, v, reg, level) is Ok,
        holds_at(bytes, pos, encode_spec(d, v, reg, level)->Ok_0) ==> decode_spec(
            d,
            bytes,
            pos,
            reg,
            level,
        ) == Ok::<(ValueView, int), DecodeError>(
            (v, pos + encode_spec(d, v, reg, level)->Ok_0.len()),
        ),
    decreases level, 1nat, *d->Mapping_0, v->Mapping_0.len() + 2,
{
    let inner = d->Mapping_0;
    let entries = v->Mapping_0;
    entries_round_trip(*inner, entries, 0, reg, level, bytes, pos);
    let body = encode_entries(*inner, entries, 0, reg, level)->Ok_0;
    let enc = encode_spec(d, v, reg, level)->Ok_0;
    let none = Seq::<(Seq<u8>, ValueView)>::empty();
    if holds_at(bytes, pos, enc) {
        assert(long_bytes(0i64) =~= seq![0u8]);
        if entries.len() == 0 {
            assert(enc == seq![0u8]);
            long_round_trip(0i64, bytes, pos);
            assert(len_at(bytes, pos) == Ok::<(usize, int), DecodeError>((0usize, pos + 1)));
            assert(entries =~= none);
            assert(decode_entry_blocks(*inner, bytes, pos, none, reg, level) == Ok::<
                (Seq<(Seq<u8>, ValueView)>, int),
                DecodeError,
            >((none, pos + 1)));
        } else {
            let size = entries.len() as i64;
            varint_bytes_len(zigzag(size));
            let count = long_bytes(size);
            assert(enc =~= count + (body + seq![0u8]));
            holds_at_split(bytes, pos, count, body + seq![0u8]);
            holds_at_split(bytes, pos + count.len(), body, seq![0u8]);
            long_round_trip(size, bytes, pos);
            let start = pos + count.len();
            assert(len_at(bytes, pos) == Ok::<(usize, int), DecodeError>(
                (entries.len() as usize, start),
            ));
            entries_round_trip(*inner, entries, 0, reg, level, bytes, start);
            let end = start + body.len();
            assert(entries.subrange(0, 0) =~= none);
            assert(entries.subrange(0, entries.len() as int) =~= entries);
            assert(decode_entries(*inner, bytes, start, entries.len(), none, reg, level) == Ok::<
                (Seq<(Seq<u8>, ValueView)>, int),
                DecodeError,
            >((entries, end)));
            long_round_trip(0i64, bytes, end);
            assert(len_at(bytes, end) == Ok::<(usize, int), DecodeError>((0usize, end + 1)));
            assert(decode_entry_blocks(*inner, bytes, end, entries, reg, level) == Ok::<
                (Seq<(Seq<u8>, ValueView)>, int),
                DecodeError,
            >((entries, end + 1)));
            assert(pos < end <= bytes.len());
            assert(decode_entry_blocks(*inner, bytes, pos, none, reg, level) == Ok::<
                (Seq<(Seq<u8>, ValueView)>, int),
                DecodeError,
            >((entries, end + 1)));
            assert(enc.len() == count.len() + body.len() + 1);
        }
        assert(v == ValueView::Mapping(entries));
    }
}

proof fn items_round_trip(
    inner: DescriptorView,
    items: Seq<ValueView>,
    from: nat,
    reg: RegistryView,
    level: nat,
    bytes: Seq<u8>,
    pos: int,
    acc: Seq<ValueView>,
)
    requires
        from <= items.len(),
        forall|i: int| 0 <= i < items.len() ==> wire_exact(inner, #[trigger] items[i], reg, level),
    ensures
        encode_items(inner, items, from, reg, level) is Ok,
        holds_at(bytes, pos, encode_items(inner, items, from, reg, level)->Ok_0) ==> decode_items(
            inner,
            bytes,
            pos,
            (items.len() - from) as nat,
            acc,
            reg,
            level,
        ) == Ok::<(Seq<ValueView>, int), DecodeError>(
            (
                acc + items.subrange(from as int, items.len() as int),
                pos + encode_items(inner, items, from, reg, level)->Ok_0.len(),
            ),
        ),
    decreases level, 1nat, inner, items.len() - from + 1,
{
    if from < items.len() {
        round_trip(inner, items[from as int], reg, level, bytes, pos);
        let first = encode_spec(inner, items[from as int], reg, level)->Ok_0;
        items_round_trip(
            inner,
            items,
            from + 1,
            reg,
            level,
            bytes,
            pos + first.len(),
            acc.push(items[from as int]),
        );
        let rest = encode_items(inner, items, from + 1, reg, level)->Ok_0;
        if holds_at(bytes, pos, first + rest) {
            holds_at_split(bytes, pos, first, rest);
            assert(acc.push(items[from as int]) + items.subrange(from as int + 1, items.len() as int)
                =~= acc + items.subrange(from as int, items.len() as int));
        }
    } else {
        assert(acc + items.subrange(from as int, items.len() as int) =~= acc);
    }
}

proof fn entries_round_trip(
    inner: DescriptorView,
    entries: Seq<(Seq<u8>, ValueView)>,
    from: nat,
    reg: RegistryView,
    level: nat,
    bytes: Seq<u8>,
    pos: int,
)
    requires
        from <= entries.len(),
        keys_unique(entries),
        forall|i: int|
            0 <= i < entries.len() ==> {
                &&& valid_utf8((#[trigger] entries[i]).0)
                &&& entries[i].0.len() <= MAX_ALLOCATION_BYTES
                &&& wire_exact(inner, entries[i].1, reg, level)
            },
    ensures
        encode_entries(inner, entries, from, reg, level) is Ok,
        holds_at(bytes, pos, encode_entries(inner, entries, from, reg, level)->Ok_0)
            ==> decode_entries(
            inner,
            bytes,
            pos,
            (entries.len() - from) as nat,
            entries.subrange(0, from as int),
            reg,
            level,
        ) == Ok::<(Seq<(Seq<u8>, ValueView)>, int), DecodeError>(
            (
                entries.subrange(0, entries.len() as int),
                pos + encode_entries(inner, entries, from, reg, level)->Ok_0.len(),
            ),
        ),
    decreases level, 1nat, inner, entries.len() - from + 1,
{
    if from < entries.len() {
        let key = entries[from as int].0;
        let value = entries[from as int].1;
        let head = length_prefixed(key);
        round_trip(inner, value, reg, level, bytes, pos + head.len());
        let first = encode_spec(inner, value, reg, level)->Ok_0;
        entries_round_trip(inner, entries, from + 1, reg, level, bytes, pos + head.len() + first.len());
        let rest = encode_entries(inner, entries, from + 1, reg, level)->Ok_0;
        if holds_at(bytes, pos, head + first + rest) {
            assert(head + first + rest =~= head + (first + rest));
            holds_at_split(bytes, pos, head, first + rest);
            holds_at_split(bytes, pos + head.len(), first, rest);
            prefixed_round_trip(key, bytes, pos);
            let acc = entries.subrange(0, from as int);
            insert_of_new_key(acc, key, value, 0);
            assert(acc.push((key, value)) =~= entries.subrange(0, from as int + 1));
        }
    }
}

proof fn fields_round_trip(
    record: RecordView,
    from: nat,
    storage: Seq<(Seq<char>, ValueView)>,
    reg: RegistryView,
    level: nat,
    bytes: Seq<u8>,
    pos: int,
)
    requires
        from <= record.len(),
        storage.len() == record.len(),
        fields_unique(record),
        forall|i: int|
            0 <= i < storage.len() ==> {
                &&& (#[trigger] storage[i]).0 == record[i].0
                &&& wire_exact(record[i].1.type_descriptor, storage[i].1, reg, level)
            },
    ensures
        encode_fields(record, from, storage, reg, level) is Ok,
        holds_at(bytes, pos, encode_fields(record, from, storage, reg, level)->Ok_0)
            ==> decode_fields(
            record,
            from,
            bytes,
            pos,
            storage.subrange(0, from as int),
            reg,
            level,
        ) == Ok::<(Seq<(Seq<char>, ValueView)>, int), DecodeError>(
            (
                storage.subrange(0, storage.len() as int),
                pos + encode_fields(record, from, storage, reg, level)->Ok_0.len(),
            ),
        ),
    decreases level + 1, 0nat, record, record.len() - from,
{
    if from < record.len() {
        let name = record[from as int].0;
        let value = storage[from as int].1;
        assert(storage[from as int].0 == name);
        assert forall|i: int| 0 <= i < from implies (#[trigger] storage[i]).0 != storage[from as int].0 by {
            assert(record[i].0 != record[from as int].0);
        }
        attribute_of_distinct(storage, from as int, 0);
        round_trip(record[from as int].1.type_descriptor, value, reg, level, bytes, pos);
        let first = encode_spec(record[from as int].1.type_descriptor, value, reg, level)->Ok_0;
        fields_round_trip(record, from + 1, storage, reg, level, bytes, pos + first.len());
        let rest = encode_fields(record, from + 1, storage, reg, level)->Ok_0;
        if holds_at(bytes, pos, first + rest) {
            holds_at_split(bytes, pos, first, rest);
            assert(storage.subrange(0, from as int).push((name, value)) =~= storage.subrange(
                0,
                from as int + 1,
            ));
        }
    }
}

} // verus!
